pub mod copy_delay;
pub mod helpers;
