//! Discovery and bookkeeping of agent extensions.

pub mod agent_laws;
pub mod agents;
pub mod api;
pub mod api_laws;
pub mod binaries;
pub mod cli;
pub mod config_laws;
pub mod configs;
pub mod discovery;
pub mod discovery_laws;
pub mod file_laws;
pub mod files;
pub mod frontmatter;
pub mod id_laws;
pub mod ids;
pub mod inventory;
pub mod list_laws;
pub mod lists;
pub mod managed;
pub mod models;
pub mod order_laws;
pub mod outside;
pub mod pack;
pub mod pack_laws;
pub mod path;
pub mod path_laws;
pub mod permissions;
pub mod plugins;
pub mod scanner;
pub mod scan_entries;
pub mod scans;
pub mod service;
pub mod skill_places;
pub mod skills;
pub mod source_laws;
pub mod sources;
pub mod split;
pub mod store;
pub mod text;
pub mod text_laws;
pub mod tool_laws;
