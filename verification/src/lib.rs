//! Core data model for a D-Bus-style IPC message layer: the type-signature
//! algebra (parsing and printing of signature strings), the value model that
//! must stay consistent with it, and the header-field validator that decides
//! whether a message envelope is well-formed.

pub mod error;
pub mod message;
pub mod signature;
pub mod value;
