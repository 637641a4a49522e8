pub mod cli;
pub mod input;
pub mod kern;
pub mod serde_helpers;
pub mod text;
pub mod zeit;
pub mod zusi;
