use std::path::Path;

use site::pages::{
    article_path,
    asset_destination,
    coverart_path,
    coverart_url,
    is_markdown_source,
    release_group_url,
    review_path,
};

const MBID: u128 = 0xa1a2a3a4b1b2c1c2d1d2d3d4d5d6d7d8;

fn std_page(dir: &str, name: &str) -> String {
    Path::new(dir).join(name).with_extension("html").to_str().unwrap().to_string()
}

#[test]
fn article_pages_are_named_by_slug() {
    assert_eq!(article_path("Over-Engineering Playlist Generation"), "docs/blog/over-engineering-playlist-generation.html");
    assert_eq!(article_path("Monadic Metaheuristics"), std_page("docs/blog/", &slug::slugify("Monadic Metaheuristics")));
}

#[test]
fn article_with_empty_slug_goes_where_path_puts_it() {
    assert_eq!(article_path("!!!"), "docs/blog.html");
    assert_eq!(article_path("!!!"), std_page("docs/blog/", ""));
}

#[test]
fn review_pages_join_title_and_artists() {
    assert_eq!(review_path("Tales of the Sands", "Myrath"), "docs/reviews/tales-of-the-sands-myrath.html");
    assert_eq!(
        review_path("Æúű", "You & Me"),
        std_page("docs/reviews/", &format!("{}-{}", slug::slugify("Æúű"), slug::slugify("You & Me")))
    );
}

#[test]
fn distinct_titles_with_distinct_slugs_get_distinct_pages() {
    assert_ne!(article_path("First post"), article_path("Second post"));
    assert_eq!(article_path("Same  title"), article_path("same title!"));
}

#[test]
fn coverart_addresses_use_the_hyphenated_id() {
    assert_eq!(coverart_url(MBID), "https://coverartarchive.org/release-group/a1a2a3a4-b1b2-c1c2-d1d2-d3d4d5d6d7d8/front");
    assert_eq!(coverart_path(MBID), "docs/coverart/a1a2a3a4-b1b2-c1c2-d1d2-d3d4d5d6d7d8.jpg");
    assert_eq!(coverart_path(0), "docs/coverart/00000000-0000-0000-0000-000000000000.jpg");
    assert_eq!(format!("{}", uuid::Uuid::from_u128(MBID)), "a1a2a3a4-b1b2-c1c2-d1d2-d3d4d5d6d7d8");
}

#[test]
fn release_group_address() {
    assert_eq!(
        release_group_url(MBID),
        "https://musicbrainz.org/ws/2/release-group/a1a2a3a4-b1b2-c1c2-d1d2-d3d4d5d6d7d8?inc=artists&fmt=json"
    );
}

#[test]
fn hyphenated_ids_have_their_form() {
    let id = coverart_url(u128::MAX);
    assert!(id.contains("ffffffff-ffff-ffff-ffff-ffffffffffff"));
}

#[test]
fn markdown_sources_are_recognised_as_path_does() {
    for path in [
        "content/blog/a.md",
        "content/blog/.md",
        "content/blog/a.mdx",
        "content/blog/readme",
        "content/blog/x.md.bak",
        "content/blog/..md",
        "a.md",
        "content/blog",
        "content/blog/notes.MD",
    ] {
        let expected = Path::new(path).extension().is_some_and(|ext| ext == "md");
        assert_eq!(is_markdown_source(path), expected, "{path}");
    }
}

#[test]
fn assets_are_copied_under_docs() {
    assert_eq!(asset_destination("assets/css/style.css").as_deref(), Some("docs/css/style.css"));
    assert_eq!(asset_destination("assets/favicon.ico").as_deref(), Some("docs/favicon.ico"));
    assert_eq!(asset_destination("other/x"), None);
    assert_eq!(asset_destination("asset"), None);
}
