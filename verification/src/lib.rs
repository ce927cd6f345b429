//! In-process property-graph engine: labeled nodes and directed labeled
//! bonds held in memory, with stable identifiers, an id-to-slot index,
//! and neighborhood-traversal and membership queries. A small key-value
//! store accompanies the graph core.

pub mod app_state;
pub mod core_model;
pub mod ident;
pub mod kv_model;
pub mod sharded_kv_graph;
pub mod text;
