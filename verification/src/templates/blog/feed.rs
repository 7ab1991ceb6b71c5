use vstd::prelude::*;

use crate::templates::{last_updated, most_recent_change, statuses, Time};

use super::Blog;

verus! {

/// The blog's Atom feed.
pub struct Feed<'a> {
    pub blog: Blog<'a>,
}

impl<'a> Feed<'a> {
    /// When the blog last changed: the latest publication or update of any article.
    pub fn last_updated(&self) -> (latest: Option<Time>)
        ensures
            latest == most_recent_change(statuses(self.blog.articles@)),
    {
        last_updated(&self.blog.articles)
    }
}

} // verus!
