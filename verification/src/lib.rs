//! Retrieval of a periodically regenerated network data feed.
//!
//! The feed is reached in two stages: a bootstrap "status" document lists
//! candidate feed URLs, and the feed itself is fetched from the first of
//! them.  This crate holds the decision logic of that pipeline — status
//! caching (in memory or in a file), endpoint selection, and the error
//! taxonomy — as verified code.  The I/O that the decisions call for is
//! carried out by the embedding application, which drives the state
//! machine in [`downloader`].

pub mod codec;
pub mod data;
pub mod downloader;
