//! Enumerate the `metaboard` subgraphs deployed on Goldsky and report which
//! deployed versions have been superseded.
//!
//! The signal is supersession, not usage: Goldsky's subgraph admin API has no
//! usage or metrics endpoint, so a version replaced by a newer version of the
//! same name, that no tag resolves to and that nobody pinned, is reported as a
//! reaping candidate for a human to confirm. This crate never deletes
//! anything: the only request its client can make is the listing `GET`.
//!
//! Modules:
//! - [`text`]: the string building blocks the renderers are specified over.
//! - [`classify`]: the pure classification of a listing into verdicts.
//! - [`goldsky`]: the reduction of listing rows and the read-only client.
//! - [`report`]: the human table, the candidate list and the document model.

pub mod text;
pub mod classify;
pub mod goldsky;
pub mod report;
