use vstd::prelude::*;

verus! {

/// Relies on rayon::join: it runs both closures to completion, possibly in
/// parallel on the shared worker pool, and returns the pair of their results,
/// so whatever each closure ensures holds of the matching component.
#[verifier::external_body]
pub(crate) fn join_pair<RA: Send, RB: Send, FA: FnOnce() -> RA + Send, FB: FnOnce() -> RB + Send>(
    fa: FA,
    fb: FB,
) -> (r: (RA, RB))
    requires
        call_requires(fa, ()),
        call_requires(fb, ()),
    ensures
        call_ensures(fa, (), r.0),
        call_ensures(fb, (), r.1),
{
    rayon::join(fa, fb)
}

/// Relies on rayon::scope and Scope::spawn: the scope submits the two tasks
/// to the worker pool and returns only once both have run to completion, so
/// both result slots are filled with what the closures returned.
#[verifier::external_body]
pub(crate) fn spawn_pair<RA: Send, RB: Send, FA: FnOnce() -> RA + Send, FB: FnOnce() -> RB + Send>(
    fa: FA,
    fb: FB,
) -> (r: (RA, RB))
    requires
        call_requires(fa, ()),
        call_requires(fb, ()),
    ensures
        call_ensures(fa, (), r.0),
        call_ensures(fb, (), r.1),
{
    let mut ra = None;
    let mut rb = None;
    let (pa, pb) = (&mut ra, &mut rb);
    rayon::scope(|s| {
        s.spawn(move |_| *pa = Some(fa()));
        s.spawn(move |_| *pb = Some(fb()));
    });
    (ra.unwrap(), rb.unwrap())
}

} // verus!
