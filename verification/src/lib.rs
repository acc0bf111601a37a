//! Review-rule knowledge base.

pub mod change_laws;
pub mod checklist;
pub mod checklist_laws;
pub mod cli;
pub mod config;
pub mod description;
pub mod digest_laws;
pub mod disk_laws;
pub mod errors;
pub mod input_laws;
pub mod json;
pub mod json_laws;
pub mod json_parse;
pub mod json_util;
pub mod laws;
pub mod looking_laws;
pub mod maintenance;
pub mod maintenance_laws;
pub mod markdown;
pub mod markdown_laws;
pub mod models;
pub mod operation_laws;
pub mod outcome_laws;
pub mod override_laws;
pub mod overrides;
pub mod path_laws;
pub mod path_util;
pub mod protocol;
pub mod record_laws;
pub mod repository;
pub mod revision_laws;
pub mod rows;
pub mod selection;
pub mod selection_laws;
pub mod service;
pub mod session;
pub mod session_laws;
pub mod storage_laws;
pub mod suggestion_laws;
pub mod suggestions;
pub mod table_laws;
pub mod tables;
pub mod text;
pub mod time_util;
pub mod upkeep_laws;
pub mod write_laws;
pub mod yaml;
