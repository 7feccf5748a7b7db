//! Core of a terminal application: a PTY session manager that creates
//! operating-system pseudo-terminals, writes caller input to them, changes
//! their geometry and tears them down, together with the reader-side logic
//! that reassembles each session's raw byte output into well-formed UTF-8
//! text across arbitrarily split read chunks.
//!
//! The session registry and its four operations live in [`manager`]; the
//! reassembly logic in [`decode`], [`assembler`] and [`reader`]; parameter
//! validation in [`validate`]. The remaining modules carry the data shapes
//! and pure mappings of the surrounding application's filesystem and
//! version-control collaborators.

pub mod assembler;
pub mod decode;
pub mod error;
pub mod git;
pub mod manager;
pub mod numfmt;
pub mod pty;
pub mod reader;
pub mod search;
pub mod tree;
pub mod validate;
