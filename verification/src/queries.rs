//! Argument records of the stored queries.
//!
//! A query handler decodes its request body into one of these records and
//! reads its fields; nothing else is known of them here.

#![allow(non_camel_case_types)]

use vstd::prelude::*;

verus! {

/// The fields of a `Chunk_Cluster1` record.
#[derive(Debug, Clone, PartialEq, Eq)]
pub struct Chunk_Cluster1 {
    pub uuid: String,
    pub story_uuid: String,
    pub text: String,
    pub metadata: String,
}

/// The fields of a `CommentEmbedding_Cluster2` record.
#[derive(Debug, Clone, PartialEq, Eq)]
pub struct CommentEmbedding_Cluster2 {
    pub content: String,
}

/// The fields of a `StoryEmbedding_Cluster2` record.
#[derive(Debug, Clone, PartialEq, Eq)]
pub struct StoryEmbedding_Cluster2 {
    pub content: String,
}

/// Arguments of the `get_comments_by_story_uuid_Cluster1` query.
#[derive(Debug, Clone, PartialEq, Eq)]
pub struct get_comments_by_story_uuid_Cluster1Input {
    pub story_uuid: String,
}

/// Arguments of the `get_event_chunk_uuid_Cluster1` query.
#[derive(Debug, Clone, PartialEq, Eq)]
pub struct get_event_chunk_uuid_Cluster1Input {
    pub uuid: String,
}

/// Arguments of the `get_triplets_by_object_uuid_Cluster1` query.
#[derive(Debug, Clone, PartialEq, Eq)]
pub struct get_triplets_by_object_uuid_Cluster1Input {
    pub object_uuid: String,
}

/// Arguments of the `drop_all_story_and_embeddings_Cluster2` query.
#[derive(Debug, Clone, PartialEq, Eq)]
pub struct drop_all_story_and_embeddings_Cluster2Input {
}

/// Arguments of the `get_triplets_by_subject_uuid_Cluster1` query.
#[derive(Debug, Clone, PartialEq, Eq)]
pub struct get_triplets_by_subject_uuid_Cluster1Input {
    pub subject_uuid: String,
}

/// Arguments of the `get_all_comments_Cluster2` query.
#[derive(Debug, Clone, PartialEq, Eq)]
pub struct get_all_comments_Cluster2Input {
}

/// Arguments of the `drop_all_tables_Cluster1` query.
#[derive(Debug, Clone, PartialEq, Eq)]
pub struct drop_all_tables_Cluster1Input {
}

/// Arguments of the `drop_all_Cluster2` query.
#[derive(Debug, Clone, PartialEq, Eq)]
pub struct drop_all_Cluster2Input {
}

/// Arguments of the `insert_user_Cluster2` query.
#[derive(Debug, Clone, PartialEq, Eq)]
pub struct insert_user_Cluster2Input {
    pub username: String,
}

/// Arguments of the `get_story_by_uuid_Cluster1` query.
#[derive(Debug, Clone, PartialEq, Eq)]
pub struct get_story_by_uuid_Cluster1Input {
    pub uuid: String,
}

/// Arguments of the `get_chunk_by_uuid_Cluster1` query.
#[derive(Debug, Clone, PartialEq, Eq)]
pub struct get_chunk_by_uuid_Cluster1Input {
    pub uuid: String,
}

/// Arguments of the `drop_all_users_Cluster2` query.
#[derive(Debug, Clone, PartialEq, Eq)]
pub struct drop_all_users_Cluster2Input {
}

/// Arguments of the `get_all_events_without_embeddings_Cluster1` query.
#[derive(Debug, Clone, PartialEq, Eq)]
pub struct get_all_events_without_embeddings_Cluster1Input {
}

/// Arguments of the `get_comments_by_story_uuid_Cluster2` query.
#[derive(Debug, Clone, PartialEq, Eq)]
pub struct get_comments_by_story_uuid_Cluster2Input {
    pub story_uuid: String,
}

/// Arguments of the `get_triplet_by_uuid_Cluster1` query.
#[derive(Debug, Clone, PartialEq, Eq)]
pub struct get_triplet_by_uuid_Cluster1Input {
    pub uuid: String,
}

/// Arguments of the `insert_user_Cluster2_batch` query.
#[derive(Debug, Clone, PartialEq, Eq)]
pub struct insert_user_Cluster2_batchInput {
    pub users: Vec<usersData>,
}

/// One element of the `users` argument of a batch query.
#[derive(Debug, Clone, PartialEq, Eq)]
pub struct usersData {
    pub username: String,
}

/// Arguments of the `connect_user_to_story_Cluster2` query.
#[derive(Debug, Clone, PartialEq, Eq)]
pub struct connect_user_to_story_Cluster2Input {
    pub username: String,
    pub story_uuid: String,
}

/// Arguments of the `get_all_stories_Cluster2` query.
#[derive(Debug, Clone, PartialEq, Eq)]
pub struct get_all_stories_Cluster2Input {
}

/// Arguments of the `update_triplet_object_Cluster1` query.
#[derive(Debug, Clone, PartialEq, Eq)]
pub struct update_triplet_object_Cluster1Input {
    pub uuid: String,
    pub object_uuid: String,
}

/// Arguments of the `get_all_entities_Cluster1` query.
#[derive(Debug, Clone, PartialEq, Eq)]
pub struct get_all_entities_Cluster1Input {
}

/// Arguments of the `get_triplet_as_object_Cluster1` query.
#[derive(Debug, Clone, PartialEq, Eq)]
pub struct get_triplet_as_object_Cluster1Input {
    pub uuid: String,
}

/// Arguments of the `get_stories_mentioning_entity_as_subject_Cluster1` query.
#[derive(Debug, Clone, PartialEq, Eq)]
pub struct get_stories_mentioning_entity_as_subject_Cluster1Input {
    pub entity_uuid: String,
}

/// Arguments of the `get_all_triplets_Cluster1` query.
#[derive(Debug, Clone, PartialEq, Eq)]
pub struct get_all_triplets_Cluster1Input {
}

/// Arguments of the `get_chunks_by_story_uuid_Cluster1` query.
#[derive(Debug, Clone, PartialEq, Eq)]
pub struct get_chunks_by_story_uuid_Cluster1Input {
    pub story_uuid: String,
}

/// Arguments of the `resolve_entity_Cluster1` query.
#[derive(Debug, Clone, PartialEq, Eq)]
pub struct resolve_entity_Cluster1Input {
    pub uuid: String,
    pub resolved_id: String,
}

/// Arguments of the `get_entities_in_story_Cluster1` query.
#[derive(Debug, Clone, PartialEq, Eq)]
pub struct get_entities_in_story_Cluster1Input {
    pub story_uuid: String,
}

/// Arguments of the `get_entity_by_uuid_Cluster1` query.
#[derive(Debug, Clone, PartialEq, Eq)]
pub struct get_entity_by_uuid_Cluster1Input {
    pub uuid: String,
}

/// Arguments of the `get_triplet_as_subject_Cluster1` query.
#[derive(Debug, Clone, PartialEq, Eq)]
pub struct get_triplet_as_subject_Cluster1Input {
    pub uuid: String,
}

/// Arguments of the `update_event_chunk_Cluster1` query.
#[derive(Debug, Clone, PartialEq, Eq)]
pub struct update_event_chunk_Cluster1Input {
    pub uuid: String,
    pub chunk_uuid: String,
}

/// Arguments of the `drop_all_comments_Cluster2` query.
#[derive(Debug, Clone, PartialEq, Eq)]
pub struct drop_all_comments_Cluster2Input {
    pub k: i32,
}

/// Arguments of the `get_all_stories_Cluster1` query.
#[derive(Debug, Clone, PartialEq, Eq)]
pub struct get_all_stories_Cluster1Input {
}

/// Arguments of the `get_sub_comments_by_parent_uuid_Cluster1` query.
#[derive(Debug, Clone, PartialEq, Eq)]
pub struct get_sub_comments_by_parent_uuid_Cluster1Input {
    pub parent_uuid: String,
}

/// Arguments of the `get_entity_by_resolved_id_Cluster1` query.
#[derive(Debug, Clone, PartialEq, Eq)]
pub struct get_entity_by_resolved_id_Cluster1Input {
    pub resolved_id: String,
}

/// Arguments of the `get_event_by_uuid_Cluster1` query.
#[derive(Debug, Clone, PartialEq, Eq)]
pub struct get_event_by_uuid_Cluster1Input {
    pub uuid: String,
}

/// Arguments of the `remove_entity_Cluster1` query.
#[derive(Debug, Clone, PartialEq, Eq)]
pub struct remove_entity_Cluster1Input {
    pub uuid: String,
}

/// Arguments of the `insert_chunk_Cluster1` query.
#[derive(Debug, Clone, PartialEq, Eq)]
pub struct insert_chunk_Cluster1Input {
    pub uuid: String,
    pub story_uuid: String,
    pub text: String,
    pub metadata: String,
}

/// Arguments of the `get_stories_by_predicate_Cluster1` query.
#[derive(Debug, Clone, PartialEq, Eq)]
pub struct get_stories_by_predicate_Cluster1Input {
    pub predicate: String,
}

/// Arguments of the `get_story_by_uuid_Cluster2` query.
#[derive(Debug, Clone, PartialEq, Eq)]
pub struct get_story_by_uuid_Cluster2Input {
    pub uuid: String,
}

/// Arguments of the `connect_user_to_story_Cluster2_batch` query.
#[derive(Debug, Clone, PartialEq, Eq)]
pub struct connect_user_to_story_Cluster2_batchInput {
    pub user_story_pairs: Vec<user_story_pairsData>,
}

/// One element of the `user_story_pairs` argument of a batch query.
#[derive(Debug, Clone, PartialEq, Eq)]
pub struct user_story_pairsData {
    pub username: String,
    pub story_uuid: String,
}

/// Arguments of the `get_stories_mentioning_entity_as_object_Cluster1` query.
#[derive(Debug, Clone, PartialEq, Eq)]
pub struct get_stories_mentioning_entity_as_object_Cluster1Input {
    pub entity_uuid: String,
}

/// Arguments of the `get_user_by_username_Cluster2` query.
#[derive(Debug, Clone, PartialEq, Eq)]
pub struct get_user_by_username_Cluster2Input {
    pub username: String,
}

/// Arguments of the `connect_user_to_comment_Cluster2` query.
#[derive(Debug, Clone, PartialEq, Eq)]
pub struct connect_user_to_comment_Cluster2Input {
    pub username: String,
    pub comment_uuid: String,
}

/// Arguments of the `get_story_by_title_Cluster1` query.
#[derive(Debug, Clone, PartialEq, Eq)]
pub struct get_story_by_title_Cluster1Input {
    pub title: String,
}

/// Arguments of the `get_comment_by_uuid_Cluster2` query.
#[derive(Debug, Clone, PartialEq, Eq)]
pub struct get_comment_by_uuid_Cluster2Input {
    pub uuid: String,
}

/// Arguments of the `get_sub_comments_by_parent_uuid_Cluster2` query.
#[derive(Debug, Clone, PartialEq, Eq)]
pub struct get_sub_comments_by_parent_uuid_Cluster2Input {
    pub parent_uuid: String,
}

/// Arguments of the `has_events_Cluster1` query.
#[derive(Debug, Clone, PartialEq, Eq)]
pub struct has_events_Cluster1Input {
}

/// Arguments of the `search_entity_with_stories_by_name_Cluster1` query.
#[derive(Debug, Clone, PartialEq, Eq)]
pub struct search_entity_with_stories_by_name_Cluster1Input {
    pub entity_name: String,
}

/// Arguments of the `get_all_users_Cluster2` query.
#[derive(Debug, Clone, PartialEq, Eq)]
pub struct get_all_users_Cluster2Input {
}

/// Arguments of the `get_comment_by_uuid_Cluster1` query.
#[derive(Debug, Clone, PartialEq, Eq)]
pub struct get_comment_by_uuid_Cluster1Input {
    pub uuid: String,
}

/// Arguments of the `get_event_embedding_by_event_uuid_Cluster1` query.
#[derive(Debug, Clone, PartialEq, Eq)]
pub struct get_event_embedding_by_event_uuid_Cluster1Input {
    pub event_uuid: String,
}

/// Arguments of the `connect_user_to_comment_Cluster2_batch` query.
#[derive(Debug, Clone, PartialEq, Eq)]
pub struct connect_user_to_comment_Cluster2_batchInput {
    pub user_comment_pairs: Vec<user_comment_pairsData>,
}

/// One element of the `user_comment_pairs` argument of a batch query.
#[derive(Debug, Clone, PartialEq, Eq)]
pub struct user_comment_pairsData {
    pub comment_uuid: String,
    pub username: String,
}

/// Arguments of the `count_all_stories_Cluster2` query.
#[derive(Debug, Clone, PartialEq, Eq)]
pub struct count_all_stories_Cluster2Input {
}

/// Arguments of the `update_triplet_subject_Cluster1` query.
#[derive(Debug, Clone, PartialEq, Eq)]
pub struct update_triplet_subject_Cluster1Input {
    pub uuid: String,
    pub subject_uuid: String,
}

/// Arguments of the `update_entity_resolved_id_Cluster1` query.
#[derive(Debug, Clone, PartialEq, Eq)]
pub struct update_entity_resolved_id_Cluster1Input {
    pub uuid: String,
    pub resolved_id: String,
}

} // verus!
