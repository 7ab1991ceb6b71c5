use site::text::{chars_of, is_white_space, utf8_length};

#[test]
fn white_space_is_unicode_white_space() {
    for code in 0..=0x10ffffu32 {
        if let Some(c) = char::from_u32(code) {
            assert_eq!(is_white_space(c), c.is_whitespace(), "{code:x}");
        }
    }
}

#[test]
fn strings_and_characters_round_trip() {
    let chars = chars_of("héllo 🐰");
    assert_eq!(chars.len(), 7);
    assert_eq!(chars.iter().collect::<String>(), "héllo 🐰");
    assert_eq!(utf8_length("héllo 🐰"), "héllo 🐰".len());
}
