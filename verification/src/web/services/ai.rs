pub mod deepinfra;
pub mod completions;
