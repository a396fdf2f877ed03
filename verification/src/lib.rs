pub mod dot;
pub mod matrix;
mod pool;
