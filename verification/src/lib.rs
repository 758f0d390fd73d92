//! Policy-protected SQL: the verified core of trusted identities, the
//! Catalog, policy and coverage logic.
pub mod text;
pub mod text_map;
pub mod identity;
pub mod catalog;
pub mod formats;
pub mod oracle;
pub mod coverage;
pub mod report;
pub mod evidence;
pub mod id_sets;
pub mod ir;
pub mod parser;
pub mod execution;
pub mod policy;
pub mod emit;
pub mod json_path;
pub mod gateway;
pub mod adapter;
pub mod yaml;
pub mod predicate;
pub mod contract;
pub mod activation;
pub mod bundle;
pub mod instantiate;
pub mod scan;
pub mod compile;
pub mod protect;
pub mod select;
pub mod params;
pub mod describe;
pub mod results;
pub mod admission;
pub mod policy_oracle;
pub mod catalog_manifest;
pub mod deployment;
pub mod public_error;
pub mod parameter_types;
pub mod names;
pub mod json_values;
pub mod auth;
pub mod transaction;
pub mod catalog_view;
