//! Top-level state: the graph collection and the key-value store that one
//! process owns for its whole lifetime.

use vstd::prelude::*;

use crate::core_model::unique_graph_names;
use crate::core_model::GraphCollectionFacade;
use crate::kv_model::InMemoryKVStore;

verus! {

/// Owns the shared state handed to every request handler.
pub struct AppState {
    pub graph_collection: GraphCollectionFacade,
    pub kv_collection: InMemoryKVStore,
}

impl AppState {
    /// Creates the process state with an empty graph collection and an
    /// empty key-value store.
    pub fn new() -> (s: AppState)
        ensures
            s.graph_collection.in_memory_graph_collection@.len() == 0,
            unique_graph_names(s.graph_collection.in_memory_graph_collection@),
            s.kv_collection.wf(),
            s.kv_collection.kv() == Map::<Seq<char>, Seq<char>>::empty(),
    {
        AppState {
            graph_collection: AppState::initialize_graph_collection(),
            kv_collection: AppState::initialize_kv_store(),
        }
    }

    /// Initializes the common graph collection for the whole program
    /// lifetime.
    pub fn initialize_graph_collection() -> (g: GraphCollectionFacade)
        ensures
            g.in_memory_graph_collection@.len() == 0,
            unique_graph_names(g.in_memory_graph_collection@),
    {
        GraphCollectionFacade { in_memory_graph_collection: Vec::new() }
    }

    /// Initializes the key-value store for the whole program lifetime.
    pub fn initialize_kv_store() -> (s: InMemoryKVStore)
        ensures
            s.wf(),
            s.kv() == Map::<Seq<char>, Seq<char>>::empty(),
    {
        InMemoryKVStore::new()
    }
}

} // verus!
