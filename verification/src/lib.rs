//! Merging of GraphQL subgraph schemas into a supergraph.

pub mod abstraction_laws;
pub mod applications;
pub mod ast;
pub mod composition;
pub mod composition_laws;
pub mod directive_laws;
pub mod directives;
pub mod enum_usage;
pub mod field_context;
pub mod field_laws;
pub mod human_readable;
pub mod index_map;
pub mod labels;
pub mod lookup_laws;
pub mod merge_directives;
pub mod merge_laws;
pub mod merge_types;
pub mod merger;
pub mod message_laws;
pub mod mismatch;
pub mod override_findings;
pub mod override_laws;
pub mod override_messages;
pub mod override_pass;
pub mod overrides;
pub mod report;
pub mod schema;
pub mod shallow;
pub mod shallow_laws;
pub mod sources;
pub mod subgraph;
pub mod suggest;
pub mod suggest_laws;
pub mod text;
pub mod text_laws;
pub mod threshold;
pub mod type_laws;
pub mod version;
pub mod version_laws;
