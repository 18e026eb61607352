//! Static probe points in the SystemTap SDT style, with the decisions and the
//! emitted metadata stated as contracts.
//!
//! A probe site names a provider, a probe and zero or more arguments. On a
//! supported platform it is one no-op instruction in the code stream and one
//! descriptive note in a section of its own; elsewhere it is nothing at all.
//! A lazy probe has a semaphore besides, which tools raise while they are
//! attached, and evaluates its arguments only then.
//!
//! * [`platform`] chooses the implementation for a target and says what one
//!   invocation of a probe does.
//! * [`argument`] reduces arguments to pointer-sized integers and writes the
//!   text that tells a tool where they are.
//! * [`note`] lays out the notes of a binary, byte for byte, and finds them
//!   again as a tool does.

pub mod argument;
pub mod note;
pub mod platform;
