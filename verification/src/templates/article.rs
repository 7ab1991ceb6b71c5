use vstd::prelude::*;

use crate::markdown::{reading_minutes, text_bytes, Markdown};
use crate::templates::Dated;

pub use crate::templates::Status;

verus! {

/// An article that keeps its front matter apart: its document and its metadata.
pub struct Article<'a> {
    pub md: Markdown<'a>,
    pub meta: Meta,
}

/// What an article's front matter holds.
pub struct Meta {
    pub title: String,
    pub description: String,
    pub status: Status,
}

impl<'a> Dated for Article<'a> {
    open spec fn spec_status(&self) -> Status {
        self.meta.status
    }

    fn status(&self) -> (status: &Status) {
        &self.meta.status
    }
}

impl<'a> Article<'a> {
    /// Makes an article of a document and what its front matter was read into (the front
    /// matter stays in the document): the two together, or the error that reading met.
    pub fn new(md: Markdown<'a>, meta: Result<Meta, toml::de::Error>) -> (article: Result<Self, toml::de::Error>)
        ensures
            match meta {
                Ok(m) => article matches Ok(a) && a.md == md && a.meta == m,
                Err(e) => article matches Err(error) && error == e,
            },
    {
        match meta {
            Ok(meta) => Ok(Article { md, meta }),
            Err(error) => Err(error),
        }
    }

    /// The article's document.
    pub fn md(&self) -> (md: &Markdown<'a>)
        ensures
            *md == self.md,
    {
        &self.md
    }

    /// The article's reading time in minutes, fast and slow: that of its document.
    pub fn reading_time(&self) -> (minutes: (usize, usize))
        requires
            text_bytes(self.md.nodes()) <= usize::MAX,
        ensures
            minutes.0 == reading_minutes(text_bytes(self.md.nodes())).0,
            minutes.1 == reading_minutes(text_bytes(self.md.nodes())).1,
    {
        self.md.reading_time()
    }
}

} // verus!
