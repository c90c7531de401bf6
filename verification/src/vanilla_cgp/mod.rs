pub mod chromosome;
pub mod node;
pub mod program;
