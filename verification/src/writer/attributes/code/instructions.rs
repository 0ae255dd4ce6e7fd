//! Writers for the instructions whose shape depends on what they hold.

pub mod tableswitch;
