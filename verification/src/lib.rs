//! Verified core of the lam terminal client: the state machines, text layout,
//! transcript projection and configuration rules behind the interface.

// Text and its layout.
pub mod text;
pub mod cells;
pub mod selection;
pub mod text_wrap;
pub mod input;

// Conversations and the interface around them.
pub mod history;
pub mod intent;
pub mod events;
pub mod conversation;
pub mod agents;
pub mod desk;
pub mod app;
pub mod palette;
pub mod commands;
pub mod keys;
pub mod pointer;
pub mod agent_events;
pub mod startup;
pub mod steps;

// What is drawn.
pub mod styling;
pub mod markdown;
pub mod rendering;
pub mod table;
pub mod entry_view;
pub mod transcript;
pub mod shelf;

// Journals, models, sessions and accounts.
pub mod projection;
pub mod config;
pub mod agent_config;
pub mod runtime;
pub mod session;
pub mod auth;
pub mod oauth;
pub mod cli;

// Laws that span several modules.
pub mod text_laws;
pub mod conversation_laws;
pub mod desk_laws;
pub mod key_laws;
pub mod submit_laws;
pub mod palette_laws;
pub mod markdown_laws;
pub mod projection_laws;
pub mod pointer_laws;
pub mod event_laws;
pub mod session_laws;
pub mod config_laws;
pub mod host_laws;
pub mod auth_laws;
pub mod view_laws;
pub mod shelf_laws;
pub mod startup_laws;
pub mod layout_laws;
