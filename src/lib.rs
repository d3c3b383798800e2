//! An encrypted, single-file secret store: a versioned envelope around a
//! container whose entry index and entries are sealed under a key derived
//! from a master password.

pub mod codec;
pub mod crypto;
pub mod error;
pub mod fman;
pub mod fs;
