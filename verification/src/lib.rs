//! A server that summarizes YouTube videos: it fetches their captions with yt-dlp, cleans
//! them, splits long transcripts into overlapping chunks and has a language model summarize
//! them. This crate holds the verified logic of the server.
pub mod config;
pub mod error;
pub mod model;
pub mod prompts;
pub mod text;
pub mod web;
