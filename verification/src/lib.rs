//! Logic of a static site: Markdown documents with front matter, blog articles and music
//! reviews, their archives and feeds, and the paths and addresses that pages are written to.

pub mod markdown;
pub mod pages;
pub mod templates;
pub mod text;
