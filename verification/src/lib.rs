//! Credential isolation for agents that drive logged-in browsers.

pub mod admission;
pub mod audit;
pub mod bitwarden;
pub mod bridge;
pub mod cli;
pub mod command;
pub mod config;
pub mod credential;
pub mod encoding;
pub mod error;
pub mod executor;
pub mod file_provider;
pub mod leakscan;
pub mod login;
pub mod pass_provider;
pub mod peers;
pub mod registry;
pub mod rpc;
pub mod secret;
pub mod secure_fs;
pub mod sessions;
pub mod startup;
pub mod static_provider;
pub mod text;
pub mod totp;
pub mod transport;
pub mod vault_requests;
pub mod windows_instance;
pub mod windows_service;
pub mod wire;
