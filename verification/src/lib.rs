//! SkillDo core library: the verified rules behind skill source
//! classification, configuration handling, backup layout, explore-source
//! merging and cross-device profile synchronization.

pub mod app_config;
pub mod backup;
pub mod cli_rules;
pub mod config;
pub mod device;
pub mod errors;
pub mod explore;
pub mod github;
pub mod listing;
pub mod local_profile;
pub mod managed;
pub mod merge;
pub mod merge_laws;
pub mod order;
pub mod origin;
pub mod profile;
pub mod project;
pub mod publish;
pub mod records;
pub mod repair;
pub mod search;
pub mod settings;
pub mod sync;
pub mod text;
pub mod tool_sync;
pub mod webdav;
