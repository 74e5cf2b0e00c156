//! Document ingestion, terminal image preview and assistant-memory helpers,
//! with the parsing, chunking and encoding logic verified by Verus.
#![allow(unused_imports)]

pub mod image_types;
pub mod text;
pub mod split;
pub mod chunker;
pub mod document;
pub mod paths;
pub mod plain;
pub mod code;
pub mod markdown;
pub mod html;
pub mod tabular;
pub mod pdf;
pub mod parser;
pub mod capabilities;
pub mod kitty;
pub mod sixel;
pub mod preview;
pub mod facts;
pub mod templates;
pub mod usage;
pub mod export;
pub mod routing;
pub mod streaming;
pub mod image_results;
pub mod threads;
pub mod prompt;
pub mod records;
pub mod provider_forms;
