//! The launch logic of Ritz, a Linux Steam launch wrapper.

pub mod backends;
pub mod builder;
pub mod cli;
pub mod condition;
pub mod config;
pub mod context;
pub mod data;
pub mod error;
pub mod extension;
pub mod hooks;
pub mod icon_center;
pub mod laws;
pub mod image;
pub mod lsfg_toml;
pub mod notify;
pub mod number;
pub mod ordered;
pub mod paths;
pub mod remap;
pub mod resolve;
pub mod resources;
pub mod schema;
pub mod sorting;
pub mod splash;
pub mod steam;
pub mod supervisor;
pub mod template;
pub mod text;
pub mod theme;
pub mod value;
pub mod variables;
