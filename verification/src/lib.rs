//! The decisions of a background git sync for developer workspaces:
//! which repositories are watched and what role each plays, which
//! changes are staged or left out, how pushes are retried and when a
//! forge is considered down, which git hooks guard published history,
//! and which synced repositories have vanished. Every function here is
//! verified against its contract; reading the disk and running git is
//! left to the program that uses the library.

use vstd::prelude::*;

pub mod text;
pub mod path;
pub mod sys;
pub mod bump;
pub mod ordered;
pub mod exclude;
pub mod forge;
pub mod git;
pub mod hooks;
pub mod role;
pub mod vanished;

verus! {
} // verus!
