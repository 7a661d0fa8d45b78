//! Link routing: rules that pick a browser profile for a link, the cleaning
//! of tracking parameters, the discovery of installed browsers and their
//! profiles, and the files that make the router the system's link handler.
pub mod text;
pub mod json;
pub mod link;
pub mod domain;
pub mod error;
pub mod rules;
pub mod rule_laws;
pub mod route_service;
pub mod sanitizer;
pub mod commands;
pub mod dispatch;
pub mod launch;
pub mod config;
pub mod tray;
pub mod mimeapps;
pub mod mimeapps_laws;
pub mod detectors;
