use helix_db::config::{
    config, Config, GraphConfig, VectorConfig, DEFAULT_EF_CONSTRUCTION, DEFAULT_EF_SEARCH, DEFAULT_M,
};

#[test]
fn deployment_configuration() {
    let config = config().unwrap();
    let vector = config.vector_config.clone().unwrap();
    assert_eq!((vector.m(), vector.ef_construction(), vector.ef_search()), (16, 128, 768));
    assert!(vector.preload);
    assert_eq!(
        config.graph_config.clone().unwrap().secondary_indices,
        Some(vec!["uuid".to_string(), "username".to_string()])
    );
    assert_eq!(config.db_max_size_gb, Some(100));
    assert_eq!(config.mcp, Some(true));
    assert_eq!(config.bm25, Some(true));
    assert_eq!(config.schema, None);
    assert_eq!(config.embedding_model, Some("text-embedding-3-small".to_string()));
    assert_eq!(config.graphvis_node_label, Some(String::new()));
}

#[test]
fn index_settings_fall_back_on_defaults() {
    assert_eq!((DEFAULT_M, DEFAULT_EF_CONSTRUCTION, DEFAULT_EF_SEARCH), (16, 128, 768));
    let unset = VectorConfig { m: None, ef_construction: None, ef_search: None, preload: false };
    assert_eq!((unset.m(), unset.ef_construction(), unset.ef_search()), (16, 128, 768));
    let set = VectorConfig { m: Some(8), ef_construction: Some(64), ef_search: Some(32), preload: true };
    assert_eq!((set.m(), set.ef_construction(), set.ef_search()), (8, 64, 32));
}

#[test]
fn storage_follows_the_configuration() {
    let storage = config().unwrap().storage();
    assert_eq!(storage.secondary_indices, vec!["uuid".to_string(), "username".to_string()]);
    assert!(storage.bm25);
    let bare = Config {
        vector_config: None,
        graph_config: Some(GraphConfig { secondary_indices: None }),
        db_max_size_gb: None,
        mcp: None,
        bm25: Some(false),
        schema: None,
        embedding_model: None,
        graphvis_node_label: None,
    };
    let storage = bare.storage();
    assert!(storage.secondary_indices.is_empty());
    assert!(!storage.bm25);
}
