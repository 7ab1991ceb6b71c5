use vstd::prelude::*;

use super::{archive, is_published, newest_first, published_items, references, refs_of};

pub mod feed;
pub mod review;

use review::Review;

verus! {

/// The music reviews: every review, drafts included.
pub struct Reviews<'a> {
    pub reviews: Vec<Review<'a>>,
}

impl<'a> Reviews<'a> {
    /// The published reviews, newest first.
    pub fn archive(&self) -> (archived: Vec<&Review<'a>>)
        ensures
            archived@.to_multiset() == published_items(refs_of(&self.reviews)).to_multiset(),
            forall|k: int| 0 <= k < archived.len() ==> is_published(#[trigger] archived@[k]),
            newest_first(archived@),
    {
        archive(references(&self.reviews))
    }
}

} // verus!
