//! Identifier kernel, document ingestion and importer bookkeeping of a
//! software supply-chain knowledge graph.

pub mod text;
pub mod purl;
pub mod cpe;
pub mod report;
pub mod spdx;
pub mod model;
pub mod service;
pub mod cve;
pub mod runner;
pub mod graph;
pub mod creator;
