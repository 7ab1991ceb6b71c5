use vstd::prelude::*;

use crate::templates::{most_recent, most_recent_change, referenced, statuses, Time};

use super::blog::Blog;

verus! {

/// An Atom feed of the blog that lends out its time of last change.
pub struct Feed<'a> {
    pub blog: Blog<'a>,
}

impl<'a> Feed<'a> {
    /// When the blog last changed, by reference into its articles: the latest publication or
    /// update of any article.
    pub fn last_updated(&self) -> (latest: Option<&Time>)
        ensures
            referenced(latest) == most_recent_change(statuses(self.blog.articles@)),
    {
        most_recent(&self.blog.articles)
    }
}

} // verus!
