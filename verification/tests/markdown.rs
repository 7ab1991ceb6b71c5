use site::markdown::latex::latex_supported;
use site::markdown::{markdown_options, minutes_to_read, trim_front_matter, Markdown, ToHtmlError};

const ARTICLE: &str = "+++\ntitle = \"Hello\"\nstatus = \"draft\"\n+++\n\nSome *text* here.\n";

#[test]
fn front_matter_is_trimmed_and_taken_once() {
    let arena = comrak::Arena::new();
    let mut md = Markdown::new(ARTICLE, &arena);
    let front_matter = md.extract_front_matter().unwrap();
    assert_eq!(front_matter, "title = \"Hello\"\nstatus = \"draft\"");
    assert!(md.extract_front_matter().is_err());
}

#[test]
fn front_matter_leaves_the_document() {
    let arena = comrak::Arena::new();
    let md = Markdown::new(ARTICLE, &arena);
    let first = md.front_matter().unwrap();
    let second = md.front_matter().unwrap();
    assert_eq!(first, second);
    assert_eq!(first, "title = \"Hello\"\nstatus = \"draft\"");
}

#[test]
fn missing_front_matter_is_an_error() {
    let arena = comrak::Arena::new();
    let mut md = Markdown::new("Just text.\n", &arena);
    let error = md.extract_front_matter().unwrap_err();
    assert!(error.to_string().contains("no front matter found"));
    assert!(md.front_matter().is_err());
}

#[test]
fn front_matter_plus_signs_and_spaces_are_trimmed() {
    let arena = comrak::Arena::new();
    let md = Markdown::new("+++\n  + a = 1 +\u{a0}\n+++\n\nbody\n", &arena);
    assert_eq!(md.front_matter().unwrap(), "a = 1");
}

#[test]
fn reading_time_counts_text_bytes() {
    let arena = comrak::Arena::new();
    // 2210 bytes of text: 2 minutes fast, 3 minutes slow (2210 / 869 = 2.54...).
    let text = "a".repeat(2210);
    let md = Markdown::new(&text, &arena);
    assert_eq!(md.text_length(), Some(2210));
    assert_eq!(md.reading_time(), (2, 3));
    assert_eq!(md.checked_reading_time(), Some((2, 3)));
}

#[test]
fn reading_time_exact_multiples() {
    let arena = comrak::Arena::new();
    let text = "b".repeat(869);
    let md = Markdown::new(&text, &arena);
    assert_eq!(md.reading_time(), (0, 1));
    let arena = comrak::Arena::new();
    let md = Markdown::new("", &arena);
    assert_eq!(md.reading_time(), (0, 0));
}

#[test]
fn reading_time_counts_bytes_not_characters() {
    let arena = comrak::Arena::new();
    // 'é' is two bytes in UTF-8.
    let md = Markdown::new("é", &arena);
    assert_eq!(md.text_length(), Some(2));
}

#[test]
fn reading_time_ignores_front_matter() {
    let arena = comrak::Arena::new();
    let mut md = Markdown::new(ARTICLE, &arena);
    let before = md.text_length();
    md.extract_front_matter().unwrap();
    assert_eq!(md.text_length(), before);
    // "Some ", "text", " here." are the text nodes.
    assert_eq!(before, Some(15));
}

#[test]
fn reading_time_fast_is_not_slower() {
    let arena = comrak::Arena::new();
    let text = "c".repeat(5000);
    let md = Markdown::new(&text, &arena);
    let (fast, slow) = md.reading_time();
    assert!(fast <= slow);
    assert_eq!((fast, slow), (4, 6));
}

#[test]
fn math_is_turned_into_mathml() {
    let arena = comrak::Arena::new();
    let mut md = Markdown::new("Inline $x^2$ and\n\n$$y$$\n", &arena);
    let before = md.text_length().unwrap();
    let render = comrak::options::Render::default();
    let plugins = comrak::options::Plugins::default();
    let html = md.to_html(render, &plugins).unwrap();
    // Without raw HTML allowed, comrak omits the MathML it now holds.
    assert!(html.contains("raw HTML omitted"));
    assert!(!html.contains("x^2"));
    let after = md.text_length().unwrap();
    let inline = latex2mathml::latex_to_mathml("x^2", latex2mathml::DisplayStyle::Inline).unwrap();
    let block = latex2mathml::latex_to_mathml("y", latex2mathml::DisplayStyle::Block).unwrap();
    assert_eq!(after, before - "x^2".len() - "y".len() + inline.len() + block.len());
}

#[test]
fn unconvertible_math_is_a_latex_error() {
    let arena = comrak::Arena::new();
    let mut md = Markdown::new("Bad $\\begin{foo}x\\end{foo}$ math\n", &arena);
    let render = comrak::options::Render::default();
    let plugins = comrak::options::Plugins::default();
    match md.to_html(render, &plugins) {
        Err(ToHtmlError::Latex(_)) => {}
        other => panic!("expected a LaTeX error, got {:?}", other.map(|_| ())),
    }
}

#[test]
fn html_without_math_renders() {
    let arena = comrak::Arena::new();
    let mut md = Markdown::new("Hello **world**\n", &arena);
    let render = comrak::options::Render::default();
    let plugins = comrak::options::Plugins::default();
    let before = md.text_length();
    assert_eq!(md.to_html(render, &plugins).unwrap(), "<p>Hello <strong>world</strong></p>\n");
    assert_eq!(md.text_length(), before);
}

#[test]
fn site_options_are_the_documented_ones() {
    let options = markdown_options();
    assert_eq!(options.extension.front_matter_delimiter.as_deref(), Some("+++"));
    assert_eq!(options.extension.header_ids.as_deref(), Some(""));
    assert!(options.extension.tagfilter && options.extension.math_dollars && options.extension.shortcodes);
    assert!(options.parse.smart);
    assert!(options.render.figure_with_caption && options.render.raw_html);
}

#[test]
fn shortcodes_count_their_emoji() {
    let arena = comrak::Arena::new();
    // ":rabbit:" becomes the 4-byte emoji.
    let md = Markdown::new(":rabbit:", &arena);
    assert_eq!(md.text_length(), Some("🐰".len()));
}

#[test]
fn front_matter_of_only_delimiters_is_empty() {
    let arena = comrak::Arena::new();
    let md = Markdown::new("+++\n + +\n+++\n\nbody\n", &arena);
    assert_eq!(md.front_matter().unwrap(), "");
}

#[test]
fn minutes_to_read_rounds_fast_down_and_slow_up() {

    assert_eq!(minutes_to_read(0), (0, 0));
    assert_eq!(minutes_to_read(1104), (0, 2));
    assert_eq!(minutes_to_read(1105), (1, 2));
    assert_eq!(minutes_to_read(1738), (1, 2));
    assert_eq!(minutes_to_read(1739), (1, 3));
}

#[test]
fn trimming_front_matter_twice_changes_nothing() {

    let once = trim_front_matter("+++\n\tkey = \"+value+\"\n+++\n");
    assert_eq!(once, "key = \"+value+\"");
    assert_eq!(trim_front_matter(&once), once);
    assert_eq!(trim_front_matter("+ + +"), "");
}

#[test]
fn missing_front_matter_message() {
    let arena = comrak::Arena::new();
    let md = Markdown::new("hello", &arena);
    assert_eq!(md.front_matter().unwrap_err().message(), "no front matter found");
}

#[test]
fn front_matter_is_not_rendered() {
    let arena = comrak::Arena::new();
    let text = ["+++", "title = 'X'", "+++", "", "hello"].join("\n");
    let mut md = Markdown::new(&text, &arena);
    let render = comrak::options::Render::default();
    let plugins = comrak::options::Plugins::default();
    assert_eq!(md.to_html(render, &plugins).unwrap(), "<p>hello</p>\n");
}

#[test]
fn dashes_are_made_typographic() {
    let arena = comrak::Arena::new();
    let mut md = Markdown::new("a --- b", &arena);
    let render = comrak::options::Render::default();
    let plugins = comrak::options::Plugins::default();
    assert_eq!(md.to_html(render, &plugins).unwrap(), "<p>a \u{2014} b</p>\n");
}

#[test]
fn rendering_twice_gives_the_same_html() {
    let arena = comrak::Arena::new();
    let mut md = Markdown::new("Inline $x^2$ and\n\n$$y$$\n\n# Title\n", &arena);
    let render = comrak::options::Render::default();
    let plugins = comrak::options::Plugins::default();
    let first = md.to_html(render, &plugins).unwrap();
    let second = md.to_html(render, &plugins).unwrap();
    assert_eq!(first, second);
}

#[test]
fn front_matter_taken_out_leaves_none() {
    let arena = comrak::Arena::new();
    let mut md = Markdown::new(ARTICLE, &arena);
    md.extract_front_matter().unwrap();
    assert_eq!(md.front_matter().unwrap_err().message(), "no front matter found");
    assert_eq!(md.extract_front_matter().unwrap_err().message(), "no front matter found");
}

#[test]
fn middle_needs_a_delimiter() {
    assert!(latex_supported("a \\middle| b"));
    assert!(latex_supported("\\left( a \\middle := b \\right)"));
    assert!(latex_supported("\\middlex"));
    assert!(latex_supported("x + y"));
    assert!(!latex_supported("\\middle x"));
    assert!(!latex_supported("a \\middle"));
    assert!(!latex_supported("\\middle| ' b"));
    assert!(!latex_supported("\\middle\\vert"));
    assert!(latex_supported("a \\middle\\langle b"));
    assert!(!latex_supported("a \\middle\\langlex b"));
    assert!(!latex_supported("a \\middle\\mid' b"));
    assert!(latex_supported("a \\middle\\times b"));
    assert!(latex_supported("a \\middle\\sum b"));
    assert!(!latex_supported("a \\middle\\sum_i b"));
    assert!(!latex_supported("a \\middle\\sum' b"));
    assert!(latex_supported("a \\\\middle x"));
    assert!(!latex_supported("a \\\\\\middle x"));
    assert!(!latex_supported("a \\middle\\alpha b"));
    assert!(latex_supported("a \\middle{|} b"));
    assert!(latex_supported("a \\middle{ \\sum } b"));
    assert!(!latex_supported("a \\middle{} b"));
    assert!(!latex_supported("a \\middle{|'} b"));
    assert!(!latex_supported("a \\middle{|}' b"));
    assert!(!latex_supported("a \\middle{| |} b"));
}

#[test]
fn supported_middle_converts() {
    for latex in [
        "\\left( a \\middle| b \\right)",
        "a \\middle/ b",
        "\\left\\{ a \\middle\\| b \\right\\}",
        "\\left\\langle a \\middle\\mid b \\right\\rangle",
        "a \\middle\\} b",
        "a \\middle\\times b",
        "a \\middle\\uparrow b",
        "a \\middle\\setminus b",
        "a \\middle\\sum b",
        "a \\middle\\int b",
        "a \\\\middle x",
        "a \\middle{|} b",
        "a \\middle{ \\sum } b",
    ] {
        assert!(latex_supported(latex));
        assert!(latex2mathml::latex_to_mathml(latex, latex2mathml::DisplayStyle::Inline).is_ok());
    }
}

#[test]
fn documents_report_their_latex() {
    let arena = comrak::Arena::new();
    let good = Markdown::new("$a \\middle| b$ and $c$\n", &arena);
    assert!(good.latex_supported());
    let bad = Markdown::new("text $a \\middle x$\n", &arena);
    assert!(!bad.latex_supported());
}
