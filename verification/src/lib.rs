//! Resolves an append-only registry of authorization events into the current
//! set of authorized author addresses, then collects the content pins those
//! authors published across several indexed data sources, merging everything
//! into one deduplicated set of content identifiers.

pub mod address;
pub mod aggregate;
pub mod authors;
pub mod fetch;
pub mod hexstr;
pub mod ipfs;
pub mod meta;
pub mod network;
pub mod subgraph;
pub mod text;
