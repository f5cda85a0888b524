//! A line editor in the manner of `ed`: addresses, one-letter commands, an
//! input mode ended by a line holding only `.`.
pub mod address;
pub mod command;
pub mod error;
pub mod event;
pub mod laws;
pub mod machine;
pub mod storage;
