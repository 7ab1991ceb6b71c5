use vstd::prelude::*;

use crate::markdown::Markdown;
use crate::templates::Dated;

pub use crate::templates::Status;

verus! {

/// A blog article: its document and what its front matter says of it.
pub struct Article<'a> {
    pub content: Markdown<'a>,
    pub title: String,
    pub description: String,
    pub status: Status,
}

/// What an article's front matter holds.
pub struct FrontMatter {
    pub title: String,
    pub description: String,
    pub status: Status,
}

/// Errors in making an article of a document.
#[derive(Debug)]
pub enum FromMarkdownError {
    /// The front matter is missing or could not be read.
    Meta(toml::de::Error),
}

impl<'a> Dated for Article<'a> {
    open spec fn spec_status(&self) -> Status {
        self.status
    }

    fn status(&self) -> (status: &Status) {
        &self.status
    }
}

impl<'a> Article<'a> {
    /// Makes an article of a document whose front matter has been taken out of it and read:
    /// the document with the title, description and status that the front matter gives, or
    /// the error that reading the front matter met.
    pub fn from_content(
        content: Markdown<'a>,
        front_matter: Result<FrontMatter, toml::de::Error>,
    ) -> (article: Result<Self, FromMarkdownError>)
        ensures
            match front_matter {
                Ok(meta) => article matches Ok(a) && a.content == content && a.title == meta.title
                    && a.description == meta.description && a.status == meta.status,
                Err(error) => article matches Err(FromMarkdownError::Meta(e)) && e == error,
            },
    {
        match front_matter {
            Ok(meta) => Ok(
                Article {
                    content,
                    title: meta.title,
                    description: meta.description,
                    status: meta.status,
                },
            ),
            Err(error) => Err(FromMarkdownError::Meta(error)),
        }
    }
}

} // verus!
