use vstd::prelude::*;

use super::{archive, is_published, newest_first, published_items, references, refs_of};

pub mod article;
pub mod feed;

use article::Article;

verus! {

/// The blog: every article, drafts included.
pub struct Blog<'a> {
    pub articles: Vec<Article<'a>>,
}

impl<'a> Blog<'a> {
    /// The published articles, newest first.
    pub fn archive(&self) -> (archived: Vec<&Article<'a>>)
        ensures
            archived@.to_multiset() == published_items(refs_of(&self.articles)).to_multiset(),
            forall|k: int| 0 <= k < archived.len() ==> is_published(#[trigger] archived@[k]),
            newest_first(archived@),
    {
        archive(references(&self.articles))
    }
}

} // verus!
