//! A terminal chat client's core: key events with a total order, keymaps
//! binding key sequences to actions, and the resolver that turns a stream of
//! keypresses into actions and passthrough keys.

pub mod fake_messages;
pub mod keymap;
pub mod keys;
pub mod laws;
pub mod message;
pub mod message_list;
pub mod modes;
pub mod notation;
pub mod resolver;

pub use keys::{KeyCode, KeyEvent, Modifiers};
