use vstd::prelude::*;
use vstd::string::StringExecFns;

use crate::markdown::Markdown;
use crate::pages::{hyphenated, release_group_url};
use crate::templates::{Dated, Status};

verus! {

/// `ureq::Error`, an error in an HTTP request; carried through, opaque here.
#[verifier::external_type_specification]
#[verifier::external_body]
pub struct ExUreqError(ureq::Error);

/// A review of a music release: its document, the release group it reviews (by MusicBrainz
/// id), that release group's title and artists, the rating and the status.
pub struct Review<'a> {
    pub content: Markdown<'a>,
    /// The MusicBrainz id of the release group, a UUID, as a 128-bit number.
    pub mbid: u128,
    pub title: String,
    pub artists: String,
    pub rating: u8,
    pub status: Status,
}

/// What a review's front matter holds.
pub struct FrontMatter {
    pub mbid: u128,
    pub rating: u8,
    pub status: Status,
}

/// One credited artist of a release group, with the phrase that joins it to the next.
pub struct ArtistCredit {
    pub name: String,
    pub joinphrase: String,
}

/// What MusicBrainz says of a release group.
pub struct ReleaseGroup {
    pub title: String,
    pub artist_credit: Vec<ArtistCredit>,
}

/// Errors in making a review of a document.
#[derive(Debug)]
pub enum FromMarkdownError {
    /// The front matter is missing or could not be read.
    Meta(toml::de::Error),
    /// MusicBrainz could not be asked, or its answer not read.
    Request(ureq::Error),
}

/// The artists of a release group as one text: each name followed by its join phrase.
pub open spec fn credited_artists(credits: Seq<ArtistCredit>) -> Seq<char>
    decreases credits.len(),
{
    if credits.len() == 0 {
        Seq::empty()
    } else {
        credited_artists(credits.drop_last()) + credits.last().name@ + credits.last().joinphrase@
    }
}

/// The artists text of credits one after another is the text of the first followed by the
/// text of the second: every credit brings its name and then its own join phrase, in order.
pub proof fn lemma_credited_artists_concatenate(first: Seq<ArtistCredit>, second: Seq<ArtistCredit>)
    ensures
        credited_artists(first + second) == credited_artists(first) + credited_artists(second),
    decreases second.len(),
{
    if second.len() == 0 {
        assert(first + second =~= first);
        assert(credited_artists(second) =~= Seq::<char>::empty());
        assert(credited_artists(first) + credited_artists(second) =~= credited_artists(first));
    } else {
        let shorter = second.drop_last();
        lemma_credited_artists_concatenate(first, shorter);
        assert((first + second).drop_last() =~= first + shorter);
        assert((first + second).last() == second.last());
        assert(credited_artists(first + second) =~= credited_artists(first) + credited_artists(
            second,
        ));
    }
}

/// A single credit gives its name followed by its join phrase, and no credits give nothing.
pub proof fn lemma_credited_artists_single(credit: ArtistCredit)
    ensures
        credited_artists(seq![credit]) == credit.name@ + credit.joinphrase@,
        credited_artists(Seq::<ArtistCredit>::empty()) == Seq::<char>::empty(),
{
    let one = seq![credit];
    assert(one.drop_last() =~= Seq::<ArtistCredit>::empty());
    assert(one.last() == credit);
    assert(credited_artists(one.drop_last()) =~= Seq::<char>::empty());
    assert(credited_artists(one) == credited_artists(one.drop_last()) + credit.name@
        + credit.joinphrase@);
    assert(credited_artists(one) =~= credit.name@ + credit.joinphrase@);
}

/// The artists of a release group as one text.
fn artists_of(credits: &Vec<ArtistCredit>) -> (artists: String)
    ensures
        artists@ == credited_artists(credits@),
{
    let mut artists = String::new();
    for i in 0..credits.len()
        invariant
            artists@ == credited_artists(credits@.take(i as int)),
    {
        artists.append(credits[i].name.as_str());
        artists.append(credits[i].joinphrase.as_str());
        proof {
            assert(credits@.take(i + 1).drop_last() =~= credits@.take(i as int));
        }
    }
    proof {
        assert(credits@.take(credits.len() as int) =~= credits@);
    }
    artists
}

impl<'a> Dated for Review<'a> {
    open spec fn spec_status(&self) -> Status {
        self.status
    }

    fn status(&self) -> (status: &Status) {
        &self.status
    }
}

impl<'a> Review<'a> {
    /// Where MusicBrainz describes the release group that a review's front matter names.
    pub fn release_group_url(front_matter: &FrontMatter) -> (url: String)
        ensures
            url@ == "https://musicbrainz.org/ws/2/release-group/"@ + hyphenated(front_matter.mbid)
                + "?inc=artists&fmt=json"@,
    {
        release_group_url(front_matter.mbid)
    }

    /// Makes a review of a document whose front matter has been taken out of it and read, and
    /// of what MusicBrainz answered for the release group it names: the document with the
    /// front matter's id, rating and status, the release group's title and its artists each
    /// followed by its join phrase; or the error that asking MusicBrainz met.
    pub fn from_content(
        content: Markdown<'a>,
        front_matter: FrontMatter,
        release_group: Result<ReleaseGroup, ureq::Error>,
    ) -> (review: Result<Self, FromMarkdownError>)
        ensures
            match release_group {
                Ok(group) => review matches Ok(r) && r.content == content && r.mbid
                    == front_matter.mbid && r.title == group.title && r.artists@
                    == credited_artists(group.artist_credit@) && r.rating == front_matter.rating
                    && r.status == front_matter.status,
                Err(error) => review matches Err(FromMarkdownError::Request(e)) && e == error,
            },
    {
        match release_group {
            Ok(group) => {
                let artists = artists_of(&group.artist_credit);
                Ok(
                    Review {
                        content,
                        mbid: front_matter.mbid,
                        title: group.title,
                        artists,
                        rating: front_matter.rating,
                        status: front_matter.status,
                    },
                )
            },
            Err(error) => Err(FromMarkdownError::Request(error)),
        }
    }
}

} // verus!
