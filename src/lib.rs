//! Authentication and session lifecycle: credential hashing, signed claim
//! tokens, refresh-token sessions with a per-subject limit, and request guards.
pub mod error;
pub mod text;
pub mod json;
pub mod ids;
pub mod claims;
pub mod jwt;
pub mod hasher;
pub mod user;
pub mod database;
pub mod config;
pub mod auth;
pub mod guard;
pub mod api;
