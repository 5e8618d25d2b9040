//! veebot: the verified core of a Discord assistant bot.

pub mod text;
pub mod embeddings;
pub mod search;
pub mod database;
pub mod context;
pub mod ai;
pub mod config;
pub mod bot;
pub mod selection;
