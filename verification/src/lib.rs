//! Workflow gateway core.
pub mod audit;
pub mod chain_laws;
pub mod config;
pub mod config_calm;
pub mod config_capabilities;
pub mod config_check;
pub mod config_check_laws;
pub mod config_fetch;
pub mod config_growth;
pub mod config_hash;
pub mod config_laws;
pub mod config_merge;
pub mod config_merge_laws;
pub mod config_repos;
pub mod config_stamp;
pub mod config_stamp_laws;
pub mod diagnostic;
pub mod discovery;
pub mod discovery_laws;
pub mod error;
pub mod graph;
pub mod guards;
pub mod guards_laws;
pub mod hash_laws;
pub mod json;
pub mod lexicon;
pub mod lexicon_candidates;
pub mod lexicon_laws;
pub mod mapping;
pub mod mapping_laws;
pub mod model;
pub mod proxy_workflow;
pub mod reliability;
pub mod reliability_laws;
pub mod repo;
pub mod repo_laws;
pub mod response_laws;
pub mod runtime;
pub mod runtime_chain;
pub mod runtime_laws;
pub mod runtime_links;
pub mod runtime_response;
pub mod runtime_submit;
pub mod selection_laws;
pub mod slot_laws;
pub mod slot_table;
pub mod store;
pub mod store_laws;
pub mod submit_laws;
pub mod table;
pub mod text;
pub mod text_laws;
pub mod tier;
pub mod tier_laws;
pub mod validate;
pub mod validate_findings;
pub mod validate_laws;
pub mod validate_rules;
pub mod validate_steps;
