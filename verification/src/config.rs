//! The configuration of a deployment.
//!
//! Every setting may be left out; the engine then falls back on the
//! default that is stated with the setting.

use vstd::prelude::*;
use vstd::string::StringExecFns;
use crate::batch_insert::HelixGraphStorage;

verus! {

/// Default of `m`, the largest number of neighbours that a vector keeps
/// at one level.
pub const DEFAULT_M: usize = 16;

/// Default of the width of the candidate search while a vector is wired
/// in.
pub const DEFAULT_EF_CONSTRUCTION: usize = 128;

/// Default of the width of the candidate search of a query.
pub const DEFAULT_EF_SEARCH: usize = 768;

/// Settings of the vector index.
#[derive(Debug, Clone, PartialEq, Eq)]
pub struct VectorConfig {
    pub m: Option<usize>,
    pub ef_construction: Option<usize>,
    pub ef_search: Option<usize>,
    /// Whether a transaction on the index loads the whole persisted index
    /// before it starts.
    pub preload: bool,
}

/// Settings of the graph store.
#[derive(Debug, Clone, PartialEq, Eq)]
pub struct GraphConfig {
    /// The properties by which nodes can be looked up.
    pub secondary_indices: Option<Vec<String>>,
}

/// Settings of a deployment.
#[derive(Debug, Clone, PartialEq, Eq)]
pub struct Config {
    pub vector_config: Option<VectorConfig>,
    pub graph_config: Option<GraphConfig>,
    pub db_max_size_gb: Option<usize>,
    pub mcp: Option<bool>,
    pub bm25: Option<bool>,
    pub schema: Option<String>,
    pub embedding_model: Option<String>,
    pub graphvis_node_label: Option<String>,
}

/// `setting`, or `default` where it is left out.
pub open spec fn or_default(setting: Option<usize>, default: usize) -> usize {
    match setting {
        Some(value) => value,
        None => default,
    }
}

impl VectorConfig {
    /// The largest number of neighbours that a vector keeps at one level.
    pub fn m(&self) -> (m: usize)
        ensures
            m == or_default(self.m, DEFAULT_M),
    {
        match self.m {
            Some(m) => m,
            None => DEFAULT_M,
        }
    }

    /// The width of the candidate search while a vector is wired in.
    pub fn ef_construction(&self) -> (ef: usize)
        ensures
            ef == or_default(self.ef_construction, DEFAULT_EF_CONSTRUCTION),
    {
        match self.ef_construction {
            Some(ef) => ef,
            None => DEFAULT_EF_CONSTRUCTION,
        }
    }

    /// The width of the candidate search of a query.
    pub fn ef_search(&self) -> (ef: usize)
        ensures
            ef == or_default(self.ef_search, DEFAULT_EF_SEARCH),
    {
        match self.ef_search {
            Some(ef) => ef,
            None => DEFAULT_EF_SEARCH,
        }
    }
}

/// The names of the secondary indices that `config` asks for.
pub open spec fn configured_indices(config: Config) -> Seq<String> {
    match config.graph_config {
        Some(graph) => match graph.secondary_indices {
            Some(names) => names@,
            None => Seq::empty(),
        },
        None => Seq::empty(),
    }
}

impl Config {
    /// What the batch writer has to know of a storage that is set up as
    /// this configuration says: the secondary indices that are named, and
    /// a full-text index exactly if one is asked for.
    pub fn storage(&self) -> (storage: HelixGraphStorage)
        ensures
            storage.bm25 == (self.bm25 == Some(true)),
            storage.secondary_indices@.len() == configured_indices(*self).len(),
            forall|i: int|
                0 <= i < storage.secondary_indices@.len() ==> (
                #[trigger] storage.secondary_indices@[i])@ == configured_indices(*self)[i]@,
    {
        let mut secondary_indices: Vec<String> = Vec::new();
        match &self.graph_config {
            Some(graph) => match &graph.secondary_indices {
                Some(names) => {
                    let mut i: usize = 0;
                    while i < names.len()
                        invariant
                            i <= names@.len(),
                            secondary_indices@.len() == i,
                            forall|k: int|
                                0 <= k < i ==> (#[trigger] secondary_indices@[k])@ == names@[k]@,
                        decreases names@.len() - i,
                    {
                        secondary_indices.push(names[i].clone());
                        i = i + 1;
                    }
                },
                None => {},
            },
            None => {},
        }
        let bm25: bool = match self.bm25 {
            Some(wanted) => wanted,
            None => false,
        };
        HelixGraphStorage { secondary_indices, bm25 }
    }
}

/// The configuration of this deployment: a vector index with 16
/// neighbours per level, search widths of 128 while building and 768
/// while querying, loaded whole before use; nodes looked up by `uuid` and
/// by `username`; a full-text index; at most 100 GB of data. The schema of
/// the stored queries is not part of it.
pub fn config() -> (config: Option<Config>)
    ensures
        config matches Some(c) && {
            &&& c.vector_config == Some(
                VectorConfig {
                    m: Some(16),
                    ef_construction: Some(128),
                    ef_search: Some(768),
                    preload: true,
                },
            )
            &&& c.graph_config matches Some(graph) && graph.secondary_indices matches Some(names)
                && names@.len() == 2 && names@[0]@ == "uuid"@ && names@[1]@ == "username"@
            &&& c.db_max_size_gb == Some(100usize)
            &&& c.mcp == Some(true)
            &&& c.bm25 == Some(true)
            &&& c.schema is None
            &&& c.embedding_model matches Some(model) && model@ == "text-embedding-3-small"@
            &&& c.graphvis_node_label matches Some(label) && label@ == ""@
        },
{
    let mut secondary_indices: Vec<String> = Vec::new();
    secondary_indices.push(String::from_str("uuid"));
    secondary_indices.push(String::from_str("username"));
    Some(
        Config {
            vector_config: Some(
                VectorConfig {
                    m: Some(16),
                    ef_construction: Some(128),
                    ef_search: Some(768),
                    preload: true,
                },
            ),
            graph_config: Some(GraphConfig { secondary_indices: Some(secondary_indices) }),
            db_max_size_gb: Some(100),
            mcp: Some(true),
            bm25: Some(true),
            schema: None,
            embedding_model: Some(String::from_str("text-embedding-3-small")),
            graphvis_node_label: Some(String::from_str("")),
        },
    )
}

} // verus!
