//! Governance core of a GraphQL retail gateway.
//!
//! - `cost_analysis` (with `query_lexer`): static cost and depth analysis of
//!   query text, rejecting queries over the configured limits.
//! - `apq`: automatic persisted queries, a bounded cache of queries by their
//!   SHA-256 hash.
//! - `coalescing`: request keys and the single-flight decisions that let
//!   identical concurrent requests share one execution.
//! - `gateway`: the GraphQL request, persisted-query resolution and the
//!   HTTP status of each failure.
//! - `catalog`: the article catalogue behind the federation schema.
//! - `id_translation`: EAN to SAP material number whitelist and mapping.
//! - `subgraph`: stub stores and response mapping of the PIM, price and
//!   ERP subgraph clients.
//! - `pos_cache`, `ingestion`, `pos_handler`, `metrics`: the point-of-sale
//!   fast-read path, its article feed and its latency tracking.
//! - `config`: settings read from environment values.
//! - `keyed_store`, `text`: shared building blocks.

pub mod apq;
pub mod catalog;
pub mod coalescing;
pub mod config;
pub mod cost_analysis;
pub mod gateway;
pub mod id_translation;
pub mod ingestion;
pub mod keyed_store;
pub mod metrics;
pub mod pos_cache;
pub mod pos_handler;
pub mod query_lexer;
pub mod subgraph;
pub mod text;
