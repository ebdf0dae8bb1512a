//! A personal catalog of video files, enriched with metadata from a remote
//! movie-metadata provider.
//!
//! The catalog ([`catalog`], with its mathematical model in
//! [`catalog_model`]) owns the records, assigns their identities and keeps
//! two caches: answers of the remote provider's search, valid for a limited
//! time ([`search_cache`]), and derived views, discarded whenever the
//! records change ([`view_cache`]). New records come in through the
//! acquisition pipeline: file names are recognized ([`scanner`]), what is
//! new is fetched batch by batch ([`pipeline`]), each fetch walks through
//! the provider's calls ([`fetch`], [`remote`]), and the consumer merges
//! what arrives ([`consumer`]).
//!
//! Nothing here reads a file, a clock or a socket: the caller does, and
//! hands over what it read.

pub mod assoc;
pub mod catalog;
pub mod catalog_model;
pub mod consumer;
pub mod fetch;
pub mod movie;
pub mod numeral;
pub mod ordering;
pub mod pipeline;
pub mod remote;
pub mod scanner;
pub mod search_cache;
pub mod sorting;
pub mod text;
pub mod view_cache;
