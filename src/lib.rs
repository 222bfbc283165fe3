//! The core of a small interactive command shell: line parsing, the
//! environment store, executable resolution and the builtin commands.
//!
//! Everything here is pure: the library decides, and the host program
//! performs the I/O that a decision asks for (listing directories, changing
//! the working directory, spawning programs) and reports back.
use vstd::prelude::*;

pub mod text;
pub mod parse;
pub mod env;
pub mod resolve;
pub mod builtins;
pub mod shell;
pub mod laws;

verus! {

} // verus!
