use site::markdown::highlighter::Inkjet;

#[test]
fn code_is_wrapped_in_themed_pre_and_code_tags() {
    let inkjet = Inkjet::new("#282828".to_string(), "#ebdbb2".to_string());
    assert_eq!(
        inkjet.start(),
        "<pre style=\"background-color: #282828; color: #ebdbb2;\"><code>"
    );
    assert_eq!(inkjet.finish(), "</code></pre>");
}
