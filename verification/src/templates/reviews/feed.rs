use vstd::prelude::*;

use crate::templates::{last_updated, most_recent_change, statuses, Time};

use super::Reviews;

verus! {

/// The reviews' Atom feed.
pub struct Feed<'a> {
    pub reviews: Reviews<'a>,
}

impl<'a> Feed<'a> {
    /// When the reviews last changed: the latest publication or update of any review.
    pub fn last_updated(&self) -> (latest: Option<Time>)
        ensures
            latest == most_recent_change(statuses(self.reviews.reviews@)),
    {
        last_updated(&self.reviews.reviews)
    }
}

} // verus!
