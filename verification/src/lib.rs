//! Verified core of a native Revit document reader: record framing,
//! physical indexing and shard planning, category vocabularies and the
//! delivery decisions built on them.
pub mod text;
pub mod framing;
pub mod order;
pub mod physical_index;
pub mod shard_laws;
pub mod native_category_profile;
pub mod identifiers;
pub mod glb;
pub mod graphics;
pub mod embedded;
pub mod projection;
pub mod package_plan;
pub mod document;
pub mod parameter_definitions;
pub mod category_selection;
pub mod delivery;
pub mod join;
pub mod graph;
pub mod spatial;
pub mod metadata;
pub mod sharding;
pub mod extensible_storage;
pub mod world_model;
pub mod schema;
pub mod value_grammar;
pub mod value_cursor;
pub mod graph_links;
pub mod object_graph;
pub mod token_tree;
pub mod metadata_projection;
pub mod definition_units;
pub mod owner_metadata;
