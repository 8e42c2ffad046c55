pub mod config;
pub mod text;
pub mod winpath;
pub mod game;
pub mod search;
pub mod processes;
pub mod archive;
pub mod payload;
pub mod document;
pub mod profile;
pub mod web;
pub mod setup;
