pub mod codec;
pub mod types;
