//! A static site generator library: content rules, glob matching, path
//! safety, documents and their metadata, and the site build pipeline.

pub mod text;
pub mod pattern;
pub mod error;
pub mod paths;
pub mod fs;
pub mod util;
pub mod extra;
pub mod config;
pub mod date;
pub mod handler;
pub mod types;
pub mod templates;
pub mod compiler;
pub mod frontmatter;
pub mod markdown;
pub mod site;
pub mod serve;
pub mod raw_files;
