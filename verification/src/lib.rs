//! A git-native session manager for coding agents: sessions live in linked
//! worktrees of a bare repository, and their full state - including files
//! the user would normally ignore - is recorded on a dedicated shadow
//! branch as two-parent merge commits tied to the user branch.
//!
//! The snapshot engine ([`scan`], [`treemodel`], [`autocommit`]), the
//! session store and lifecycle rules ([`session`], [`isolation`]), the
//! linked-worktree primitive ([`worktree`]), the restore engine
//! ([`restore`]) and the passthrough filters ([`filter`], [`porcelain`])
//! carry contracts checked by Verus; calls into the git object database
//! and the directory walker stand behind the trusted boundary in
//! [`gitstore`].

pub mod autocommit;
pub mod binfind;
pub mod cli;
pub mod config;
pub mod errors;
pub mod filter;
pub mod gitstore;
pub mod isolation;
pub mod order;
pub mod pathutil;
pub mod porcelain;
pub mod restore;
pub mod scan;
pub mod session;
pub mod strutil;
pub mod treemodel;
pub mod treewalk;
pub mod worktree;
