//! Generates trains from their configuration.
pub mod generate_route;
