//! Identity resolution and metadata fusion for a personal library of e-books
//! and comics: classifying files, locating the reader's metadata sidecars,
//! fingerprinting contents, and aggregating reading statistics.

pub mod archive;
pub mod base64;
pub mod cli;
pub mod comic;
pub mod completions;
pub mod config;
pub mod epub;
pub mod fb2;
pub mod fingerprint;
pub mod i18n;
pub mod index;
pub mod koreader_metadata;
pub mod library_item;
pub mod lua_parser;
pub mod lua_text;
pub mod markup;
pub mod mobi;
pub mod parsers;
pub mod paths;
pub mod reading_days;
pub mod scanner;
pub mod server;
pub mod site_generator;
pub mod startup;
pub mod statistics;
pub mod text;
pub mod time_config;
pub mod utils;
pub mod xml;
