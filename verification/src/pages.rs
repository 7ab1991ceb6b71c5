//! Where the site's pages and files go: the paths of rendered pages, the addresses of cover
//! art, and which source files are Markdown.

use vstd::prelude::*;
use vstd::string::StringExecFns;

use vstd::string::StrSliceExecFns;

use crate::text::chars_of;

verus! {

/// What `slug::slugify` turns a text into.
pub uninterp spec fn slugified(text: Seq<char>) -> Seq<char>;

pub open spec fn slug_char(c: char) -> bool {
    ('a' <= c <= 'z') || ('0' <= c <= '9') || c == '-'
}

/// A slug as `slug::slugify` documents it: only `a`-`z`, `0`-`9` and `-`, never two `-` in a
/// row, never a `-` at either end.
pub open spec fn is_slug(s: Seq<char>) -> bool {
    &&& forall|i: int| 0 <= i < s.len() ==> slug_char(#[trigger] s[i])
    &&& forall|i: int| 0 <= i < s.len() - 1 ==> !(#[trigger] s[i] == '-' && s[i + 1] == '-')
    &&& s.len() > 0 ==> s[0] != '-' && s.last() != '-'
}

/// Calls `slug::slugify`: the slug of the text, made of lower-case ASCII letters, digits and
/// single dashes, as its documentation promises.
#[verifier::external_body]
fn slugify(text: &str) -> (slug: String)
    ensures
        slug@ == slugified(text@),
        is_slug(slug@),
{
    slug::slugify(text)
}

/// The lower-case hexadecimal digit of a value below 16.
pub open spec fn hex_digit(v: int) -> char {
    if v < 10 {
        (48 + v) as char
    } else {
        (87 + v) as char
    }
}

/// The lowest `n` hexadecimal digits of a number, the most significant first.
pub open spec fn hex_digits(v: nat, n: nat) -> Seq<char>
    decreases n,
{
    if n == 0 {
        Seq::empty()
    } else {
        hex_digits(v / 16, (n - 1) as nat).push(hex_digit((v % 16) as int))
    }
}

/// A UUID in its hyphenated form: 32 lower-case hexadecimal digits in groups of 8, 4, 4, 4
/// and 12, separated by `-`.
pub open spec fn hyphenated(id: u128) -> Seq<char> {
    let d = hex_digits(id as nat, 32);
    d.subrange(0, 8) + seq!['-'] + d.subrange(8, 12) + seq!['-'] + d.subrange(12, 16) + seq!['-']
        + d.subrange(16, 20) + seq!['-'] + d.subrange(20, 32)
}

/// Calls `uuid::Uuid::from_u128` and formats the UUID with `Uuid::hyphenated`, whose
/// documentation gives this form.
#[verifier::external_body]
fn uuid_hyphenated(id: u128) -> (text: String)
    ensures
        text@ == hyphenated(id),
{
    uuid::Uuid::from_u128(id).hyphenated().to_string()
}

/// The file a page named `name` is written to inside `dir` (which ends with `/`): `name` with
/// the extension `html` in `dir`, or, when the name is empty, `dir` itself with that extension,
/// as `Path::join` and `Path::with_extension` make it of a name without a dot.
pub open spec fn page_file(dir: Seq<char>, name: Seq<char>) -> Seq<char> {
    if name.len() == 0 {
        dir.drop_last() + ".html"@
    } else {
        dir + name + ".html"@
    }
}

/// The file an article is written to: its title's slug, as an HTML page in `docs/blog/`.
pub fn article_path(title: &str) -> (path: String)
    ensures
        path@ == page_file("docs/blog/"@, slugified(title@)),
{
    let slug = slugify(title);
    proof {
        reveal_strlit("docs/blog.html");
        reveal_strlit("docs/blog/");
        reveal_strlit(".html");
        assert("docs/blog.html"@ =~= "docs/blog/"@.drop_last() + ".html"@);
    }
    if slug.as_str().is_empty() {
        "docs/blog.html".to_owned()
    } else {
        let mut path = "docs/blog/".to_owned();
        path.append(slug.as_str());
        path.append(".html");
        path
    }
}

/// The file a review is written to: the slugs of its title and its artists joined by `-`, as
/// an HTML page in `docs/reviews/`.
pub fn review_path(title: &str, artists: &str) -> (path: String)
    ensures
        path@ == page_file(
            "docs/reviews/"@,
            slugified(title@) + seq!['-'] + slugified(artists@),
        ),
{
    let mut path = "docs/reviews/".to_owned();
    path.append(slugify(title).as_str());
    path.push('-');
    path.append(slugify(artists).as_str());
    path.append(".html");
    path
}

/// Where the front cover of a release group is fetched from.
pub fn coverart_url(mbid: u128) -> (url: String)
    ensures
        url@ == "https://coverartarchive.org/release-group/"@ + hyphenated(mbid) + "/front"@,
{
    let mut url = "https://coverartarchive.org/release-group/".to_owned();
    url.append(uuid_hyphenated(mbid).as_str());
    url.append("/front");
    url
}

/// Where the cover art of a release group is kept on the site.
pub fn coverart_path(mbid: u128) -> (path: String)
    ensures
        path@ == "docs/coverart/"@ + hyphenated(mbid) + ".jpg"@,
{
    let mut path = "docs/coverart/".to_owned();
    path.append(uuid_hyphenated(mbid).as_str());
    path.append(".jpg");
    path
}

/// Where the MusicBrainz API describes a release group, with its artists, as JSON.
pub fn release_group_url(mbid: u128) -> (url: String)
    ensures
        url@ == "https://musicbrainz.org/ws/2/release-group/"@ + hyphenated(mbid)
            + "?inc=artists&fmt=json"@,
{
    let mut url = "https://musicbrainz.org/ws/2/release-group/".to_owned();
    url.append(uuid_hyphenated(mbid).as_str());
    url.append("?inc=artists&fmt=json");
    url
}

/// The last component of a `/`-separated path: what follows its last `/`.
pub open spec fn file_name(path: Seq<char>) -> Seq<char>
    decreases path.len(),
{
    if path.len() == 0 {
        path
    } else if path.last() == '/' {
        Seq::empty()
    } else {
        file_name(path.drop_last()).push(path.last())
    }
}

/// Whether a file name has the extension `md`: it ends with `.md`, and something comes before
/// that dot (a name that starts with its only dot has no extension).
pub open spec fn markdown_name(name: Seq<char>) -> bool {
    name.len() > 3 && name.subrange(name.len() - 3, name.len() as int) == ".md"@
}

/// Whether a source file is Markdown: its name (the path's last component) has the extension
/// `md`. Source files that are not are skipped.
pub fn is_markdown_source(path: &str) -> (markdown: bool)
    ensures
        markdown == markdown_name(file_name(path@)),
{
    let chars = chars_of(path);
    let n = chars.len();
    let mut start: usize = n;
    proof {
        assert(path@.subrange(0, n as int) =~= path@);
        assert(path@.subrange(n as int, n as int) =~= Seq::<char>::empty());
    }
    while start > 0 && chars[start - 1] != '/'
        invariant
            start <= n == chars@.len(),
            chars@ == path@,
            file_name(path@) == file_name(path@.subrange(0, start as int)) + path@.subrange(
                start as int,
                n as int,
            ),
        decreases start,
    {
        proof {
            let prefix = path@.subrange(0, start as int);
            assert(prefix.drop_last() =~= path@.subrange(0, start - 1));
            assert(path@.subrange(start - 1, n as int) =~= seq![prefix.last()] + path@.subrange(
                start as int,
                n as int,
            ));
            assert(file_name(prefix) == file_name(prefix.drop_last()).push(prefix.last()));
            assert(file_name(prefix.drop_last()).push(prefix.last()) + path@.subrange(
                start as int,
                n as int,
            ) =~= file_name(prefix.drop_last()) + path@.subrange(start - 1, n as int));
        }
        start = start - 1;
    }
    proof {
        let prefix = path@.subrange(0, start as int);
        assert(file_name(prefix) =~= Seq::<char>::empty());
        assert(file_name(path@) =~= path@.subrange(start as int, n as int));
    }
    let len = n - start;
    let markdown = len > 3 && chars[n - 3] == '.' && chars[n - 2] == 'm' && chars[n - 1] == 'd';
    proof {
        reveal_strlit(".md");
        let name = file_name(path@);
        assert(".md"@ =~= seq!['.', 'm', 'd']);
        if len > 3 {
            let tail = name.subrange(name.len() - 3, name.len() as int);
            assert(tail =~= seq![chars@[n - 3], chars@[n - 2], chars@[n - 1]]);
            if tail == ".md"@ {
                assert(tail[0] == '.' && tail[1] == 'm' && tail[2] == 'd');
            }
        }
    }
    markdown
}

/// Where an asset is copied to: its path with the leading `assets/` replaced by `docs/`;
/// nothing for a path outside `assets/`.
pub fn asset_destination(path: &str) -> (destination: Option<String>)
    ensures
        match destination {
            Some(d) => path@.len() >= 7 && path@.subrange(0, 7) == "assets/"@ && d@ == "docs/"@
                + path@.subrange(7, path@.len() as int),
            None => !(path@.len() >= 7 && path@.subrange(0, 7) == "assets/"@),
        },
{
    let chars = chars_of(path);
    proof {
        reveal_strlit("assets/");
    }
    let prefix = chars_of("assets/");
    let n = chars.len();
    if n < 7 {
        return None;
    }
    let mut i: usize = 0;
    while i < 7
        invariant
            i <= 7 <= n == chars@.len(),
            chars@ == path@,
            prefix@ == "assets/"@,
            prefix@.len() == 7,
            forall|j: int| 0 <= j < i ==> chars@[j] == prefix@[j],
        decreases 7 - i,
    {
        if chars[i] != prefix[i] {
            proof {
                assert(path@.subrange(0, 7)[i as int] != "assets/"@[i as int]);
            }
            return None;
        }
        i = i + 1;
    }
    proof {
        assert(path@.subrange(0, 7) =~= "assets/"@);
    }
    let mut destination = "docs/".to_owned();
    destination.append(path.substring_char(7, n));
    Some(destination)
}


/// Pages with different names never share a file: the file determines the name.
pub proof fn lemma_page_files_distinct(dir: Seq<char>, a: Seq<char>, b: Seq<char>)
    requires
        dir.len() > 0,
        page_file(dir, a) == page_file(dir, b),
    ensures
        a == b,
{
    reveal_strlit(".html");
    let fa = page_file(dir, a);
    if a.len() > 0 && b.len() > 0 {
        assert(a =~= fa.subrange(dir.len() as int, (dir.len() + a.len()) as int));
        assert(b =~= fa.subrange(dir.len() as int, (dir.len() + b.len()) as int));
    } else if a.len() == 0 && b.len() == 0 {
    } else {
        assert(page_file(dir, a).len() != page_file(dir, b).len());
    }
}

proof fn lemma_hex_digits(v: nat, n: nat)
    ensures
        hex_digits(v, n).len() == n,
        forall|i: int| 0 <= i < n ==> is_hex_digit(#[trigger] hex_digits(v, n)[i]),
    decreases n,
{
    if n > 0 {
        lemma_hex_digits(v / 16, (n - 1) as nat);
        let d = (v % 16) as int;
        assert(is_hex_digit(hex_digit(d)));
    }
}

/// The lower-case hexadecimal digits.
pub open spec fn is_hex_digit(c: char) -> bool {
    ('0' <= c <= '9') || ('a' <= c <= 'f')
}

/// A hyphenated UUID has 36 characters: `-` at positions 8, 13, 18 and 23, lower-case
/// hexadecimal digits everywhere else.
pub proof fn lemma_hyphenated_form(id: u128)
    ensures
        hyphenated(id).len() == 36,
        forall|i: int|
            0 <= i < 36 ==> if i == 8 || i == 13 || i == 18 || i == 23 {
                #[trigger] hyphenated(id)[i] == '-'
            } else {
                is_hex_digit(hyphenated(id)[i])
            },
{
    let d = hex_digits(id as nat, 32);
    lemma_hex_digits(id as nat, 32);
    let h = hyphenated(id);
    assert forall|i: int| 0 <= i < 36 implies if i == 8 || i == 13 || i == 18 || i == 23 {
        #[trigger] h[i] == '-'
    } else {
        is_hex_digit(h[i])
    } by {
        if i < 8 {
            assert(h[i] == d[i]);
        } else if 8 < i < 13 {
            assert(h[i] == d[i - 1]);
        } else if 13 < i < 18 {
            assert(h[i] == d[i - 2]);
        } else if 18 < i < 23 {
            assert(h[i] == d[i - 3]);
        } else if 23 < i {
            assert(h[i] == d[i - 4]);
        }
    }
}

} // verus!
