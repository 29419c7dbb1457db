//! A content-compilation library: it turns a tree of Markdown sources into
//! rendered HTML pages.  It covers frontmatter extraction with tolerant date
//! parsing, Markdown rendering with link rewriting and heading extraction,
//! outline construction, path/URL resolution, and template-context assembly.

pub mod cli;
pub mod config;
pub mod datetime;
pub mod frontmatter;
pub mod library;
pub mod markdown;
pub mod page;
pub mod render;
pub mod resolve;
pub mod text;
pub mod yaml;
