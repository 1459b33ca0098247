//! A bookmark, snippet and knowledge manager: the verified core.
//!
//! The library holds the rules of the tool: tag validation and tag
//! arithmetic, the bookmark model and its in-memory store, the plain-text
//! template used for editing bookmarks, search filters, command-line input
//! parsing and the HTML table of contents of the markdown renderer.
use vstd::prelude::*;

pub mod actions;
pub mod bookmark;
pub mod bookmark_application_service;
pub mod bookmark_service;
pub mod cli;
pub mod config;
pub mod demo;
pub mod display;
pub mod dto;
pub mod embedding_service;
pub mod embeddings;
pub mod file_import;
pub mod fzf;
pub mod error;
pub mod markdown;
pub mod num;
pub mod order;
pub mod patterns;
pub mod repository;
pub mod sample;
pub mod search;
pub mod tag;
pub mod tag_report;
pub mod tag_service;
pub mod template;
pub mod text;
pub mod timestamp;

verus! {

} // verus!
