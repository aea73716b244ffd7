//! Git on Tapedrive.
//!
//! The library behind `git-remote-tape`, the remote helper that lets git clone from,
//! fetch from and push to `tape://` remotes. It holds what the helper decides. Running
//! git, reading files and talking to the network are left to its caller, who hands in
//! what came of them as plain values.
//!
//! - [`index`] is the on-tape format of a repository's refs and packs, [`encoding`] its
//!   JSON form, and [`probe`] the check that it is coherent.
//! - [`push`] decides a batch of refspecs against an index and folds the decision in,
//!   [`packing`] packs what is new, [`publish`] merges with whoever else is pushing, and
//!   [`push_laws`] and [`publish_laws`] say what holds of every push.
//! - [`fetch`] installs the packs a repository is missing.
//! - [`store`] is the tape, [`reading`] which of its bytes to believe, and [`listing`]
//!   the versions of the index on it.
//! - [`git`] is what the local git is run with, and what its answers mean.
//! - [`remote_helper`] is the line protocol git speaks, and [`publication`] publishes a
//!   whole repository without it.
//! - [`refs`], [`track`], [`text`], [`json`] and [`crypto`] are what the rest is written
//!   in, and [`text_laws`] says what holds of every text.

pub mod crypto;
pub mod encoding;
pub mod fetch;
pub mod git;
pub mod index;
pub mod json;
pub mod listing;
pub mod packing;
pub mod probe;
pub mod publication;
pub mod publish;
pub mod publish_laws;
pub mod push;
pub mod push_laws;
pub mod reading;
pub mod refs;
pub mod remote_helper;
pub mod store;
pub mod text;
pub mod text_laws;
pub mod track;
