pub mod args;
pub mod attach;
pub mod output;
pub mod wrap;
