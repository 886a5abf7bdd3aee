//! Verified core of the Hoplite application server: canonical value
//! storage, application bundle framing, console protocol framing, and the
//! configuration rules that guard generated Nginx and launchd files.

mod text;
pub mod hex;
mod sha;
pub mod value_store;
pub mod bundle;
pub mod console;
pub mod server;
pub mod app;
pub mod nginx;
pub mod launchd;
pub mod doctor;
pub mod cosocket;
pub mod provider_set;
pub mod hal;
pub mod host;
pub mod text_set;
pub mod envelope;
pub mod sandbox;
pub mod package_catalog;
pub mod router;
pub mod module_order;
pub mod response;
pub mod manifest;
pub mod openapi;
pub mod flags;
pub mod cli;
pub mod dev_console;
pub mod hara_source;
pub mod inspection;
pub mod module_import;
pub mod source_files;
pub mod raw_response;
