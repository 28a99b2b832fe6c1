//! Decision engine for driving a keyboard's active layer from window focus.
//!
//! The library holds the verified core: the bounded [`layers::Layer`]
//! ordinal type, the class-name rule table built from configuration with
//! strict validation, the focus-notification decoder and the stateful
//! switching policy, and the byte-level protocol spoken to the keyboard.
//! Window-system and HID transports are collaborators outside this crate.

pub mod config;
pub mod keyboard;
pub mod layers;
pub mod policy;
