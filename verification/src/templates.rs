//! The pages of the site and what they show: publication status, archives and feeds.

use vstd::prelude::*;
use vstd::std_specs::cmp::PartialEqSpecImpl;

pub mod article;
pub mod blog;
pub mod feed;
pub mod index;
pub mod not_found;
pub mod reviews;

verus! {

/// `jiff::Zoned`, a datetime in a time zone; carried through, opaque here.
#[verifier::external_type_specification]
#[verifier::external_body]
pub struct ExZoned(jiff::Zoned);

/// `jiff::Zoned`'s `Clone` is derived: the copy holds every field of the value copied.
pub assume_specification[ <jiff::Zoned as Clone>::clone ](zoned: &jiff::Zoned) -> (copy: jiff::Zoned)
    ensures
        copy == *zoned,
;

/// The instant that a zoned datetime denotes, in nanoseconds since the Unix epoch: the
/// timestamp that `jiff::Zoned` holds, by which `jiff` orders and compares `Zoned` values.
pub uninterp spec fn zoned_instant(zoned: jiff::Zoned) -> i128;

/// Calls `jiff::Zoned::timestamp` (a read of the timestamp the value holds) and
/// `jiff::Timestamp::as_nanosecond`: the instant that the zoned datetime denotes.
#[verifier::external_body]
fn zoned_nanoseconds(zoned: &jiff::Zoned) -> (nanos: i128)
    ensures
        nanos == zoned_instant(*zoned),
{
    zoned.timestamp().as_nanosecond()
}

/// A point in time as front matter gives it: the zoned datetime, carried through for display,
/// and the instant it denotes, by which points in time are ordered.
#[derive(Debug)]
pub struct Time {
    zoned: jiff::Zoned,
    nanos: i128,
}

impl Time {
    /// The instant, in nanoseconds since the Unix epoch.
    pub closed spec fn instant(self) -> int {
        self.nanos as int
    }

    /// The zoned datetime.
    pub closed spec fn moment(self) -> jiff::Zoned {
        self.zoned
    }

    /// The point in time of a zoned datetime.
    pub fn from_zoned(zoned: jiff::Zoned) -> (time: Time)
        ensures
            time.moment() == zoned,
            time.instant() == zoned_instant(zoned),
    {
        let nanos = zoned_nanoseconds(&zoned);
        Time { zoned, nanos }
    }

    /// The zoned datetime.
    pub fn zoned(&self) -> (zoned: &jiff::Zoned)
        ensures
            *zoned == self.moment(),
    {
        &self.zoned
    }

    /// The instant, in nanoseconds since the Unix epoch.
    pub fn nanoseconds(&self) -> (nanos: i128)
        ensures
            nanos == self.instant(),
    {
        self.nanos
    }
}

impl Clone for Time {
    fn clone(&self) -> (copy: Self)
        ensures
            copy == *self,
    {
        Time { zoned: self.zoned.clone(), nanos: self.nanos }
    }
}

/// Whether a piece of writing is still a draft or has been published, and when.
#[derive(Debug)]
pub enum Status {
    Draft,
    Published { published: Time, updated: Option<Time> },
}

impl Clone for Status {
    fn clone(&self) -> (copy: Self)
        ensures
            copy == *self,
    {
        match self {
            Status::Draft => Status::Draft,
            Status::Published { published, updated } => Status::Published {
                published: published.clone(),
                updated: match updated {
                    Some(updated) => Some(updated.clone()),
                    None => None,
                },
            },
        }
    }
}

impl PartialEq for Time {
    fn eq(&self, other: &Self) -> (equal: bool) {
        self.nanos == other.nanos
    }
}

/// Two points in time are equal when they denote the same instant, as `jiff::Zoned` values
/// compare.
impl PartialEqSpecImpl for Time {
    open spec fn obeys_eq_spec() -> bool {
        true
    }

    open spec fn eq_spec(&self, other: &Self) -> bool {
        self.instant() == other.instant()
    }
}

impl Eq for Time {}

/// Whether two statuses are equal: both drafts, or published at the same instant and both not
/// updated or updated at the same instant.
pub open spec fn same_status(a: Status, b: Status) -> bool {
    match (a, b) {
        (Status::Draft, Status::Draft) => true,
        (
            Status::Published { published: p, updated: u },
            Status::Published { published: q, updated: v },
        ) => p.instant() == q.instant() && match (u, v) {
            (None, None) => true,
            (Some(x), Some(y)) => x.instant() == y.instant(),
            _ => false,
        },
        _ => false,
    }
}

impl PartialEq for Status {
    fn eq(&self, other: &Self) -> (equal: bool) {
        match (self, other) {
            (Status::Draft, Status::Draft) => true,
            (
                Status::Published { published: p, updated: u },
                Status::Published { published: q, updated: v },
            ) => p.nanos == q.nanos && match (u, v) {
                (None, None) => true,
                (Some(x), Some(y)) => x.nanos == y.nanos,
                _ => false,
            },
            _ => false,
        }
    }
}

impl PartialEqSpecImpl for Status {
    open spec fn obeys_eq_spec() -> bool {
        true
    }

    open spec fn eq_spec(&self, other: &Self) -> bool {
        same_status(*self, *other)
    }
}

impl Eq for Status {}

impl Default for Status {
    fn default() -> (status: Self)
        ensures
            status is Draft,
    {
        Status::Draft
    }
}

/// The instant at which a status says the writing was published (meaningful when published).
pub open spec fn published_instant(status: Status) -> int {
    match status {
        Status::Published { published, .. } => published.instant(),
        Status::Draft => 0,
    }
}

/// The last change a status records: the later of its publication and update, the update when
/// the two coincide; nothing for a draft.
pub open spec fn latest_change(status: Status) -> Option<Time> {
    match status {
        Status::Draft => None,
        Status::Published { published, updated: None } => Some(published),
        Status::Published { published, updated: Some(updated) } => if published.instant()
            <= updated.instant() {
            Some(updated)
        } else {
            Some(published)
        },
    }
}

/// The most recent change over a sequence of statuses: the latest change with the greatest
/// instant, the last such one where several share it; nothing when every status is a draft.
pub open spec fn most_recent_change(statuses: Seq<Status>) -> Option<Time>
    decreases statuses.len(),
{
    if statuses.len() == 0 {
        None
    } else {
        let before = most_recent_change(statuses.drop_last());
        match latest_change(statuses.last()) {
            None => before,
            Some(change) => match before {
                None => Some(change),
                Some(best) => if best.instant() <= change.instant() {
                    Some(change)
                } else {
                    Some(best)
                },
            },
        }
    }
}

/// Something that carries a publication status.
pub trait Dated {
    spec fn spec_status(&self) -> Status;

    fn status(&self) -> (status: &Status)
        ensures
            *status == self.spec_status(),
    ;
}

/// A reference carries the status of what it refers to.
impl<'b, T: Dated> Dated for &'b T {
    open spec fn spec_status(&self) -> Status {
        (**self).spec_status()
    }

    fn status(&self) -> (status: &Status) {
        (**self).status()
    }
}

/// Whether an item has been published.
pub open spec fn is_published<I: Dated>(item: I) -> bool {
    item.spec_status() is Published
}

/// The statuses of a sequence of items, in order.
pub open spec fn statuses<I: Dated>(items: Seq<I>) -> Seq<Status> {
    items.map_values(|item: I| item.spec_status())
}

/// Items ordered newest first by their publication instant.
pub open spec fn newest_first<I: Dated>(items: Seq<I>) -> bool {
    forall|a: int, b: int|
        0 <= a < b < items.len() ==> published_instant(#[trigger] items[b].spec_status())
            <= published_instant(#[trigger] items[a].spec_status())
}

/// The instant of publication of a status (0 for a draft).
fn publication_instant(status: &Status) -> (nanos: i128)
    ensures
        nanos == published_instant(*status),
{
    match status {
        Status::Published { published, .. } => published.nanoseconds(),
        Status::Draft => 0,
    }
}

/// Keeps published items only.
pub open spec fn published_items<I: Dated>(items: Seq<I>) -> Seq<I> {
    items.filter(|item: I| is_published(item))
}

/// Inserts a published item into a sequence ordered newest first, keeping that order.
fn insert_newest_first<I: Dated>(archived: &mut Vec<I>, item: I)
    requires
        is_published(item),
        newest_first(old(archived)@),
    ensures
        final(archived)@.to_multiset() == old(archived)@.to_multiset().insert(item),
        newest_first(final(archived)@),
        forall|k: int|
            0 <= k < final(archived)@.len() ==> (#[trigger] final(archived)@[k] == item
                || old(archived)@.contains(final(archived)@[k])),
{
    let nanos = publication_instant(item.status());
    let mut pos: usize = 0;
    while pos < archived.len() && nanos < publication_instant(archived[pos].status())
        invariant
            pos <= archived.len(),
            archived@ == old(archived)@,
            forall|k: int|
                0 <= k < pos ==> nanos < published_instant(#[trigger] archived@[k].spec_status()),
        decreases archived.len() - pos,
    {
        pos = pos + 1;
    }
    let ghost before = archived@;
    archived.insert(pos, item);
    proof {
        before.insert_ensures(pos as int, item);
        lemma_insert_to_multiset(before, pos as int, item);
        assert forall|a: int, b: int| 0 <= a < b < archived@.len() implies published_instant(
            #[trigger] archived@[b].spec_status(),
        ) <= published_instant(#[trigger] archived@[a].spec_status()) by {
            if b <= pos {
            } else if a <= pos {
                assert(archived@[b] == before[b - 1]);
                if pos < before.len() {
                    assert(published_instant(before[pos as int].spec_status()) <= nanos);
                    assert(published_instant(before[b - 1].spec_status()) <= published_instant(
                        before[pos as int].spec_status(),
                    ));
                }
            } else {
                assert(archived@[a] == before[a - 1]);
                assert(archived@[b] == before[b - 1]);
            }
        }
        assert forall|k: int| 0 <= k < archived@.len() implies (#[trigger] archived@[k] == item
            || before.contains(archived@[k])) by {
            if k < pos {
                assert(archived@[k] == before[k]);
            } else if k > pos {
                assert(archived@[k] == before[k - 1]);
            }
        }
    }
}

/// The published items, newest first: drafts are left out, and the others are ordered by the
/// instant of their publication, latest first. Items published at the same instant may come in
/// any order.
pub fn archive<I: Dated>(items: Vec<I>) -> (archived: Vec<I>)
    ensures
        archived@.to_multiset() == published_items(items@).to_multiset(),
        forall|k: int| 0 <= k < archived.len() ==> is_published(#[trigger] archived@[k]),
        newest_first(archived@),
{
    let ghost all = items@;
    let mut rest = items;
    let mut archived: Vec<I> = Vec::new();
    proof {
        assert(archived@.to_multiset() =~= vstd::multiset::Multiset::empty()) by {
            broadcast use vstd::seq_lib::group_to_multiset_ensures;
        }
        assert(archived@.to_multiset().add(published_items(rest@).to_multiset())
            =~= published_items(rest@).to_multiset());
    }
    while rest.len() > 0
        invariant
            published_items(all).to_multiset() == archived@.to_multiset().add(
                published_items(rest@).to_multiset(),
            ),
            forall|k: int| 0 <= k < archived.len() ==> is_published(#[trigger] archived@[k]),
            newest_first(archived@),
        decreases rest.len(),
    {
        let ghost before = rest@;
        let item = rest.pop().unwrap();
        proof {
            assert(before == rest@.push(item));
            rest@.lemma_filter_push(item, |item: I| is_published(item));
        }
        if matches!(item.status(), Status::Published { .. }) {
            let ghost old_archived = archived@;
            insert_newest_first(&mut archived, item);
            proof {
                broadcast use vstd::seq_lib::group_to_multiset_ensures;

                assert(published_items(before) == published_items(rest@).push(item));
                assert(archived@.to_multiset().add(published_items(rest@).to_multiset())
                    =~= old_archived.to_multiset().add(published_items(before).to_multiset()));
                assert forall|k: int| 0 <= k < archived.len() implies is_published(
                    #[trigger] archived@[k],
                ) by {
                    if archived@[k] != item {
                        let j = choose|j: int| 0 <= j < old_archived.len() && old_archived[j] == archived@[k];
                        assert(is_published(old_archived[j]));
                    }
                }
            }
        } else {
            proof {
                assert(published_items(before) == published_items(rest@));
            }
        }
    }
    proof {
        assert(published_items(rest@) =~= Seq::<I>::empty());
        assert(archived@.to_multiset().add(Seq::<I>::empty().to_multiset()) =~= archived@.to_multiset()) by {
            broadcast use vstd::seq_lib::group_to_multiset_ensures;
        }
    }
    archived
}

/// The time of an optional reference, as a value.
pub open spec fn referenced(time: Option<&Time>) -> Option<Time> {
    match time {
        Some(time) => Some(*time),
        None => None,
    }
}

/// The last change a status records, by reference into the status.
fn latest_change_of(status: &Status) -> (change: Option<&Time>)
    ensures
        referenced(change) == latest_change(*status),
{
    match status {
        Status::Draft => None,
        Status::Published { published, updated: None } => Some(published),
        Status::Published { published, updated: Some(updated) } => {
            if published.nanoseconds() <= updated.nanoseconds() {
                Some(updated)
            } else {
                Some(published)
            }
        },
    }
}

/// The most recent change among the items: for each published item the later of its
/// publication and its update, and of those the latest, by reference into the items.
pub fn most_recent<'b, I: Dated>(items: &'b Vec<I>) -> (latest: Option<&'b Time>)
    ensures
        referenced(latest) == most_recent_change(statuses(items@)),
{
    let mut latest: Option<&'b Time> = None;
    let mut i: usize = 0;
    while i < items.len()
        invariant
            i <= items.len(),
            referenced(latest) == most_recent_change(statuses(items@.take(i as int))),
        decreases items.len() - i,
    {
        let change = latest_change_of(items[i].status());
        proof {
            assert(statuses(items@.take(i + 1)).drop_last() =~= statuses(items@.take(i as int)));
            assert(statuses(items@.take(i + 1)).last() == items@[i as int].spec_status());
        }
        match change {
            None => {},
            Some(change) => {
                match latest {
                    None => {
                        latest = Some(change);
                    },
                    Some(best) => {
                        if best.nanoseconds() <= change.nanoseconds() {
                            latest = Some(change);
                        }
                    },
                }
            },
        }
        i = i + 1;
    }
    proof {
        assert(items@.take(items.len() as int) =~= items@);
    }
    latest
}

/// The most recent change among the items, as `most_recent` finds it, copied out.
pub fn last_updated<I: Dated>(items: &Vec<I>) -> (latest: Option<Time>)
    ensures
        latest == most_recent_change(statuses(items@)),
{
    match most_recent(items) {
        Some(time) => Some(time.clone()),
        None => None,
    }
}

/// References to each of the items, in order.
pub open spec fn refs_of<'b, T>(items: &'b Vec<T>) -> Seq<&'b T> {
    Seq::new(items@.len(), |i: int| &items@[i])
}

/// Collects references to each of the items, in order.
pub fn references<'b, T>(items: &'b Vec<T>) -> (refs: Vec<&'b T>)
    ensures
        refs@ == refs_of(items),
{
    let mut refs: Vec<&'b T> = Vec::new();
    for i in 0..items.len()
        invariant
            refs@ == refs_of(items).take(i as int),
    {
        refs.push(&items[i]);
        proof {
            assert(refs_of(items).take(i + 1) =~= refs_of(items).take(i as int).push(&items@[i as int]));
        }
    }
    proof {
        assert(refs_of(items).take(items.len() as int) =~= refs_of(items));
    }
    refs
}

/// Appending items never moves the most recent change back in time, and appending drafts
/// leaves it as it was.
pub proof fn lemma_most_recent_change_grows(before: Seq<Status>, added: Seq<Status>)
    ensures
        most_recent_change(before) matches Some(a) ==> (most_recent_change(before + added) matches Some(
            b,
        ) && a.instant() <= b.instant()),
        (forall|i: int| 0 <= i < added.len() ==> #[trigger] added[i] is Draft) ==> most_recent_change(
            before + added,
        ) == most_recent_change(before),
    decreases added.len(),
{
    if added.len() == 0 {
        assert(before + added =~= before);
    } else {
        let shorter = added.drop_last();
        lemma_most_recent_change_grows(before, shorter);
        assert((before + added).drop_last() =~= before + shorter);
        assert((before + added).last() == added.last());
        if forall|i: int| 0 <= i < added.len() ==> #[trigger] added[i] is Draft {
            assert forall|i: int| 0 <= i < shorter.len() implies #[trigger] shorter[i] is Draft by {
                assert(shorter[i] == added[i]);
            }
            assert(added[added.len() - 1] is Draft);
        }
    }
}

/// The most recent change is the latest change of some published item, none of the items was
/// published or updated after it, and there is none exactly when every item is a draft.
pub proof fn lemma_most_recent_change(statuses: Seq<Status>)
    ensures
        most_recent_change(statuses) is None <==> forall|i: int|
            0 <= i < statuses.len() ==> #[trigger] statuses[i] is Draft,
        most_recent_change(statuses) matches Some(latest) ==> {
            &&& exists|i: int|
                0 <= i < statuses.len() && latest_change(#[trigger] statuses[i]) == Some(latest)
            &&& forall|i: int|
                0 <= i < statuses.len() ==> match #[trigger] statuses[i] {
                    Status::Draft => true,
                    Status::Published { published, updated } => published.instant()
                        <= latest.instant() && (updated matches Some(u) ==> u.instant()
                        <= latest.instant()),
                }
        },
    decreases statuses.len(),
{
    if statuses.len() > 0 {
        let before = statuses.drop_last();
        let last = statuses.last();
        lemma_most_recent_change(before);
        lemma_latest_change(last);
        assert forall|i: int| 0 <= i < before.len() implies #[trigger] before[i] == statuses[i] by {}
        assert(statuses[statuses.len() - 1] == last);
        if let Some(latest) = most_recent_change(statuses) {
            assert forall|i: int| 0 <= i < statuses.len() implies match #[trigger] statuses[i] {
                Status::Draft => true,
                Status::Published { published, updated } => published.instant() <= latest.instant()
                    && (updated matches Some(u) ==> u.instant() <= latest.instant()),
            } by {
                if i < before.len() {
                    assert(before[i] == statuses[i]);
                }
            }
            if most_recent_change(before) == Some(latest) {
                let i = choose|i: int|
                    0 <= i < before.len() && latest_change(#[trigger] before[i]) == Some(latest);
                assert(latest_change(statuses[i]) == Some(latest));
            } else {
                assert(latest_change(statuses[statuses.len() - 1]) == Some(latest));
            }
        } else {
            assert forall|i: int| 0 <= i < statuses.len() implies #[trigger] statuses[i] is Draft by {
                if i < before.len() {
                    assert(before[i] == statuses[i]);
                }
            }
        }
    }
}

/// A status has a latest change exactly when it is published, and that change is neither
/// earlier than its publication nor than its update.
proof fn lemma_latest_change(status: Status)
    ensures
        latest_change(status) is None <==> status is Draft,
        latest_change(status) matches Some(change) ==> match status {
            Status::Draft => false,
            Status::Published { published, updated } => published.instant() <= change.instant()
                && (updated matches Some(u) ==> u.instant() <= change.instant()),
        },
{
}

/// No published item of a list was published after the list's most recent change: the
/// newest item of an archive is never newer than the feed's time of last update.
pub proof fn lemma_archive_not_after_last_update<I: Dated>(items: Seq<I>)
    ensures
        forall|i: int|
            0 <= i < items.len() && is_published(#[trigger] items[i]) ==> (most_recent_change(
                statuses(items),
            ) matches Some(latest) && published_instant(items[i].spec_status()) <= latest.instant()),
{
    lemma_most_recent_change(statuses(items));
    assert forall|i: int| 0 <= i < items.len() && is_published(#[trigger] items[i]) implies (most_recent_change(
        statuses(items),
    ) matches Some(latest) && published_instant(items[i].spec_status()) <= latest.instant()) by {
        assert(statuses(items)[i] == items[i].spec_status());
        assert(!(statuses(items)[i] is Draft));
    }
}

/// An archive holds published items only, so archiving it again keeps exactly its items.
pub proof fn lemma_archive_again<I: Dated>(archived: Seq<I>)
    requires
        forall|k: int| 0 <= k < archived.len() ==> is_published(#[trigger] archived[k]),
    ensures
        published_items(archived) == archived,
    decreases archived.len(),
{
    if archived.len() > 0 {
        let rest = archived.drop_last();
        assert forall|k: int| 0 <= k < rest.len() implies is_published(#[trigger] rest[k]) by {
            assert(rest[k] == archived[k]);
        }
        lemma_archive_again(rest);
        assert(is_published(archived[archived.len() - 1]));
        assert(rest.push(archived.last()) =~= archived);
        rest.lemma_filter_push(archived.last(), |item: I| is_published(item));
    } else {
        reveal(Seq::filter);
    }
}

/// Inserting an item into a sequence adds it to the sequence's multiset.
proof fn lemma_insert_to_multiset<A>(s: Seq<A>, pos: int, a: A)
    requires
        0 <= pos <= s.len(),
    ensures
        s.insert(pos, a).to_multiset() == s.to_multiset().insert(a),
{
    broadcast use vstd::seq_lib::group_to_multiset_ensures, vstd::seq_lib::lemma_multiset_commutative;

    let front = s.subrange(0, pos);
    let back = s.subrange(pos, s.len() as int);
    assert(s == front + back);
    assert(s.insert(pos, a) == front.push(a) + back);
}

} // verus!
