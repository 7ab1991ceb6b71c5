use site::markdown::Markdown;
use site::templates::blog::article::{Article, FrontMatter, FromMarkdownError};
use site::templates::blog::feed::Feed;
use site::templates::blog::Blog;
use site::templates::reviews::review::{ArtistCredit, FrontMatter as ReviewFrontMatter, ReleaseGroup, Review};
use site::templates::reviews::Reviews;
use site::templates::article::{Article as MetaArticle, Meta};
use site::templates::{archive, last_updated, Status, Time};

fn time(text: &str) -> Time {
    Time::from_zoned(text.parse::<jiff::Zoned>().unwrap())
}

fn published(at: &str) -> Status {
    Status::Published { published: time(at), updated: None }
}

fn updated(at: &str, later: &str) -> Status {
    Status::Published { published: time(at), updated: Some(time(later)) }
}

fn article<'a>(arena: &'a comrak::Arena<'a>, title: &str, status: Status) -> Article<'a> {
    let meta = FrontMatter { title: title.to_string(), description: String::new(), status };
    match Article::from_content(Markdown::new("text", arena), Ok(meta)) {
        Ok(article) => article,
        Err(_) => panic!("article"),
    }
}

#[test]
fn status_defaults_to_draft() {
    assert!(matches!(Status::default(), Status::Draft));
}

#[test]
fn time_keeps_its_instant() {
    let t = time("2024-11-30T12:00:00+00:00[UTC]");
    assert_eq!(t.nanoseconds(), 1_732_968_000_000_000_000);
    let copy = t.clone();
    assert_eq!(copy.nanoseconds(), t.nanoseconds());
    assert_eq!(copy.zoned(), t.zoned());
}

#[test]
fn archive_drops_drafts_and_sorts_newest_first() {
    let arena = comrak::Arena::new();
    let blog = Blog {
        articles: vec![
            article(&arena, "old", published("2023-01-01T00:00:00+00:00[UTC]")),
            article(&arena, "draft", Status::Draft),
            article(&arena, "new", published("2024-06-01T00:00:00+00:00[UTC]")),
            article(&arena, "middle", published("2023-06-01T00:00:00+01:00[+01:00]")),
        ],
    };
    let titles: Vec<&str> = blog.archive().iter().map(|a| a.title.as_str()).collect();
    assert_eq!(titles, vec!["new", "middle", "old"]);
}

#[test]
fn archive_of_drafts_is_empty() {
    let arena = comrak::Arena::new();
    let blog = Blog { articles: vec![article(&arena, "a", Status::Draft), article(&arena, "b", Status::Draft)] };
    assert!(blog.archive().is_empty());
    let feed = Feed { blog };
    assert!(feed.last_updated().is_none());
}

#[test]
fn archive_orders_by_instant_not_by_local_time() {
    let arena = comrak::Arena::new();
    // 12:00 at +05:00 is 07:00 UTC, earlier than 09:00 UTC.
    let items = vec![
        article(&arena, "east", published("2024-01-01T12:00:00+05:00[+05:00]")),
        article(&arena, "utc", published("2024-01-01T09:00:00+00:00[UTC]")),
    ];
    let titles: Vec<&str> = archive(items.iter().collect()).iter().map(|a| a.title.as_str()).collect();
    assert_eq!(titles, vec!["utc", "east"]);
}

#[test]
fn last_update_takes_updates_into_account() {
    let arena = comrak::Arena::new();
    let blog = Blog {
        articles: vec![
            article(&arena, "a", published("2024-01-01T00:00:00+00:00[UTC]")),
            article(&arena, "b", updated("2023-01-01T00:00:00+00:00[UTC]", "2024-05-01T00:00:00+00:00[UTC]")),
            article(&arena, "c", Status::Draft),
        ],
    };
    let latest = last_updated(&blog.articles).unwrap();
    assert_eq!(latest.nanoseconds(), time("2024-05-01T00:00:00+00:00[UTC]").nanoseconds());
    let feed = Feed { blog };
    assert_eq!(feed.last_updated().unwrap().nanoseconds(), latest.nanoseconds());
}

#[test]
fn last_update_prefers_the_later_of_equal_instants() {
    let arena = comrak::Arena::new();
    // The update and the publication coincide: the update is the change recorded.
    let articles = vec![article(
        &arena,
        "a",
        updated("2024-01-01T00:00:00+00:00[UTC]", "2024-01-01T01:00:00+01:00[+01:00]"),
    )];
    let latest = last_updated(&articles).unwrap();
    assert_eq!(latest.zoned().offset(), jiff::tz::offset(1));
}

#[test]
fn archived_articles_are_not_newer_than_the_feed() {
    let arena = comrak::Arena::new();
    let blog = Blog {
        articles: vec![
            article(&arena, "a", updated("2024-01-01T00:00:00+00:00[UTC]", "2024-02-01T00:00:00+00:00[UTC]")),
            article(&arena, "b", published("2024-01-15T00:00:00+00:00[UTC]")),
        ],
    };
    let newest = match blog.archive()[0].status {
        Status::Published { ref published, .. } => published.nanoseconds(),
        Status::Draft => panic!("draft archived"),
    };
    let feed = Feed { blog };
    assert!(newest <= feed.last_updated().unwrap().nanoseconds());
}

#[test]
fn article_from_unreadable_front_matter_is_a_meta_error() {
    let arena = comrak::Arena::new();
    let error = toml::from_str::<toml::Table>("= nonsense").unwrap_err();
    match Article::from_content(Markdown::new("text", &arena), Err(error)) {
        Err(FromMarkdownError::Meta(_)) => {}
        Ok(_) => panic!("expected an error"),
    }
}

#[test]
fn review_joins_artist_credits() {
    let arena = comrak::Arena::new();
    let front_matter = ReviewFrontMatter { mbid: 7, rating: 9, status: Status::Draft };
    assert!(Review::release_group_url(&front_matter).ends_with("00000000-0000-0000-0000-000000000007?inc=artists&fmt=json"));
    let group = ReleaseGroup {
        title: "Split".to_string(),
        artist_credit: vec![
            ArtistCredit { name: "Alpha".to_string(), joinphrase: " & ".to_string() },
            ArtistCredit { name: "Beta".to_string(), joinphrase: String::new() },
        ],
    };
    let review = match Review::from_content(Markdown::new("text", &arena), front_matter, Ok(group)) {
        Ok(review) => review,
        Err(_) => panic!("review"),
    };
    assert_eq!(review.artists, "Alpha & Beta");
    assert_eq!(review.title, "Split");
    assert_eq!((review.mbid, review.rating), (7, 9));
    let reviews = Reviews { reviews: vec![review] };
    assert!(reviews.archive().is_empty());
}

#[test]
fn review_with_no_credits_has_no_artists() {
    let arena = comrak::Arena::new();
    let front_matter = ReviewFrontMatter { mbid: 1, rating: 5, status: published("2024-01-01T00:00:00+00:00[UTC]") };
    let group = ReleaseGroup { title: "Untitled".to_string(), artist_credit: vec![] };
    let review = match Review::from_content(Markdown::new("", &arena), front_matter, Ok(group)) {
        Ok(review) => review,
        Err(_) => panic!("review"),
    };
    assert_eq!(review.artists, "");
    let reviews = Reviews { reviews: vec![review] };
    assert_eq!(reviews.archive().len(), 1);
    let feed = site::templates::reviews::feed::Feed { reviews };
    assert!(feed.last_updated().is_some());
}

#[test]
fn article_with_separate_metadata() {
    let arena = comrak::Arena::new();
    let md = Markdown::new("+++\ntitle = \"x\"\n+++\n\nfive\n", &arena);
    assert_eq!(md.front_matter().unwrap(), "title = \"x\"");
    let meta = Meta { title: "x".to_string(), description: "d".to_string(), status: published("2024-01-01T00:00:00+00:00[UTC]") };
    let article = MetaArticle::new(md, Ok(meta)).unwrap();
    assert_eq!(article.meta.title, "x");
    assert_eq!(article.reading_time(), (0, 1));
    // The front matter stays in the document.
    assert!(article.md().front_matter().is_ok());
    let error = toml::from_str::<toml::Table>("= nonsense").unwrap_err();
    assert!(MetaArticle::new(Markdown::new("", &arena), Err(error)).is_err());
}

#[test]
fn feed_lends_out_its_last_update() {
    let arena = comrak::Arena::new();
    let blog = Blog {
        articles: vec![
            article(&arena, "a", published("2024-03-01T00:00:00+00:00[UTC]")),
            article(&arena, "b", published("2024-02-01T00:00:00+00:00[UTC]")),
        ],
    };
    let feed = site::templates::feed::Feed { blog };
    assert_eq!(
        feed.last_updated().map(|time| time.nanoseconds()),
        Some(time("2024-03-01T00:00:00+00:00[UTC]").nanoseconds())
    );
}

#[test]
fn archiving_an_archive_keeps_it() {
    let arena = comrak::Arena::new();
    let items = vec![
        article(&arena, "a", published("2024-01-01T00:00:00+00:00[UTC]")),
        article(&arena, "b", Status::Draft),
        article(&arena, "c", published("2024-03-01T00:00:00+00:00[UTC]")),
    ];
    let once = archive(items.iter().collect());
    let titles: Vec<&str> = once.iter().map(|a| a.title.as_str()).collect();
    let twice = archive(once);
    let again: Vec<&str> = twice.iter().map(|a| a.title.as_str()).collect();
    assert_eq!(titles, vec!["c", "a"]);
    assert_eq!(again, titles);
}

#[test]
fn statuses_compare_by_instant() {
    let utc = published("2024-03-01T12:00:00+00:00[UTC]");
    let paris = published("2024-03-01T13:00:00+01:00[Europe/Paris]");
    assert!(utc == paris);
    assert!(utc != published("2024-03-01T12:00:01+00:00[UTC]"));
    assert!(utc != updated("2024-03-01T12:00:00+00:00[UTC]", "2024-03-02T12:00:00+00:00[UTC]"));
    assert!(Status::Draft == Status::default());
    assert!(Status::Draft != utc);
}

#[test]
fn time_keeps_the_instant_of_its_date() {
    let t = time("2024-03-01T12:00:00+00:00[UTC]");
    assert_eq!(t.nanoseconds(), 1_709_294_400_000_000_000);
}
