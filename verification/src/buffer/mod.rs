pub mod pool;

pub use pool::BufferPool;
