//! Verified core of a transparent REST API client: configuration model,
//! parameter routing, preset catalog validation and merging, and the
//! OpenAPI-to-command conversion.

pub mod text;
pub mod ordmap;
pub mod config;
pub mod auth;
pub mod cli;
pub mod presets;
pub mod naming;
pub mod json;
pub mod generator;
pub mod help;
pub mod commands;
pub mod http;
pub mod sites;
