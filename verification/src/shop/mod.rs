pub mod assets;
pub mod catalog;
pub mod pipeline;
pub mod types;
