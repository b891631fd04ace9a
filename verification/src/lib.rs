//! A recipe-book persistence core: a normalized relational store for recipe
//! aggregates (name, optional description, ordered steps, ingredient
//! quantities) with a deduplicated ingredient catalog, transactional write
//! semantics and full read-back assembly, all verified.

use vstd::prelude::*;

pub mod laws;
pub mod lemmas;
pub mod model;
pub mod recipe;
pub mod repo;
pub mod tables;

verus! {

/// The storage backends a repository can be asked for. The surrounding
/// program selects one when it wires the repository to its storage engine.
pub enum Backend {
    Sqlite,
}

/// A failure surfaced by a repository operation: a uniqueness or foreign-key
/// constraint was violated, so the whole write was rolled back.
#[derive(Clone, Copy, Debug, PartialEq, Eq, Structural)]
pub enum RepoError {
    Conflict,
}

} // verus!
