//! Guest-side state access for a sandboxed module: a byte-keyed storage
//! abstraction with reserved slots for stored code and an indexed validator
//! set, the variable-length integer codec its keys use, and the packed
//! pointer/length word convention for returning a buffer through a single
//! machine word.

pub mod codec;
pub mod pack;
pub mod state;
