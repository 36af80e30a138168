//! Nota: session, persona and agent logic for AI agent sessions.
pub mod agent;
pub mod bus;
pub mod clock;
pub mod config;
pub mod file_access;
pub mod http;
pub mod keyed;
pub mod llm;
pub mod path;
pub mod permissions;
pub mod persona;
pub mod persona_store;
pub mod plugin;
pub mod schedule_md;
pub mod session;
pub mod store;
pub mod text;
pub mod tool;
pub mod wizard;
