//! Structural search in source code: snippets with placeholders and queries, matched against
//! syntax trees.
pub mod call_laws;
pub mod command;
pub mod command_laws;
pub mod finding_laws;
pub mod grammar;
pub mod map_laws;
pub mod matcher;
pub mod matching_laws;
pub mod pattern;
pub mod pattern_laws;
pub mod query;
pub mod query_laws;
pub mod query_shape;
pub mod query_shape_laws;
pub mod reading_laws;
pub mod scan;
pub mod scan_laws;
pub mod search;
pub mod search_laws;
pub mod snippet;
pub mod snippet_laws;
pub mod strmap;
pub mod text;
pub mod text_laws;
pub mod tree;
pub mod tree_laws;
