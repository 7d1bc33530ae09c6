#![verifier::loop_isolation(false)]

pub mod archive;
pub mod config;
pub mod deps;
pub mod dto;
pub mod errors;
pub mod execution_service;
pub mod executor;
pub mod json;
pub mod metadata;
pub mod models;
pub mod params;
pub mod paths;
pub mod plugin_service;
pub mod store;
pub mod text;
pub mod update;
pub mod version;
