pub mod handler;
pub mod memory;
pub mod model;

pub use model::Todo;
