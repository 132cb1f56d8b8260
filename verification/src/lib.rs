//! Core of an incremental-game backend: credential handling, the economy
//! rules and the request pipeline, with every rule stated as a contract.

pub mod auth;
pub mod config;
pub mod economy;
pub mod errors;
pub mod growth;
pub mod models;
pub mod password;
pub mod pipeline;
pub mod repository;
pub mod routes;
pub mod text;
pub mod utils;
