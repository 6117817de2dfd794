//! The raw-mirror store: a content-addressed side archive of session sources
//! under a data directory.
//!
//! The library knows the store's layout ([`layout`], [`blob`],
//! [`manifest_path`]), the schema, identifiers and digests of its manifests
//! ([`manifest`], [`digest`], [`json`], [`fields`], [`identity`]), how source
//! paths are shown ([`redaction`]), and how a leftover store is counted and
//! removed ([`tally`], [`purge`]). Paths are POSIX paths, taken by their bytes,
//! or lists of components from whatever system ([`path`]). It touches no file
//! itself: the program around it does what a [`purge::PurgeRun`] asks for and
//! hands back what came of it.

pub mod blob;
pub mod clock;
pub mod digest;
pub mod fields;
pub mod identity;
pub mod json;
pub mod layout;
pub mod manifest;
pub mod manifest_path;
pub mod order;
pub mod path;
pub mod purge;
pub mod redaction;
pub mod tally;
pub mod text;
