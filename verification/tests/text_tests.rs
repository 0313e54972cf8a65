use hoc_long_tieng::text::{push_padded, split_on, strip_leading_dots, trim_whitespace};

#[test]
fn padding() {
    let mut s = String::new();
    push_padded(&mut s, 7, 2);
    push_padded(&mut s, 123, 2);
    push_padded(&mut s, 0, 4);
    assert_eq!(s, "071230000");
}

#[test]
fn trimming_unicode_whitespace() {
    assert_eq!(trim_whitespace(" \t12:34\u{3000}\n"), "12:34");
    assert_eq!(trim_whitespace("   "), "");
    assert_eq!(trim_whitespace("a b"), "a b");
}

#[test]
fn dropping_leading_dots() {
    assert_eq!(strip_leading_dots("..webm"), "webm");
    assert_eq!(strip_leading_dots("mp4"), "mp4");
    assert_eq!(strip_leading_dots("a.b"), "a.b");
    assert_eq!(strip_leading_dots("..."), "");
}

#[test]
fn splitting() {
    assert_eq!(split_on("1:2:3", ':'), vec!["1", "2", "3"]);
    assert_eq!(split_on("", ':'), vec![""]);
    assert_eq!(split_on("::", ':'), vec!["", "", ""]);
    assert_eq!(split_on("abc", ':'), vec!["abc"]);
}

#[test]
fn split_then_join_gives_back_the_text() {
    for text in ["00:01:02.50", "", "::", "a:b", "no separator"] {
        assert_eq!(split_on(text, ':').join(":"), text);
    }
}
