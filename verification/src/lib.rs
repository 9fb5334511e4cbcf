//! Verified core of a privacy-first Reddit front-end with authentication,
//! custom feeds and a local "smart feed" reader.
#![allow(unused_imports)]

pub mod text;
pub mod user;
pub mod actions;
pub mod api;
pub mod auth;
pub mod login;
pub mod post;
pub mod ssh_import;
pub mod config;
pub mod crypto;
pub mod desktop;
pub mod feeds;
pub mod inbox;
pub mod search;
pub mod settings;
pub mod smart_feed;
pub mod state;
pub mod subreddit;
pub mod token_import;
