use discord_fix::text::{chars_of, replace_chars, split_words, string_of, trim_chars};

fn v(s: &str) -> Vec<char> {
    s.chars().collect()
}

#[test]
fn replace_is_left_to_right_without_overlap() {
    assert_eq!(string_of(&replace_chars(&v("aaa"), &v("aa"), &v("b"))), "ba");
    assert_eq!(string_of(&replace_chars(&v("xyz"), &v(""), &v("b"))), "xyz");
    assert_eq!(string_of(&replace_chars(&v("%A%/%A%"), &v("%A%"), &v("q"))), "q/q");
}

#[test]
fn words_and_trim() {
    let w = split_words(&v("  a\tbb \n c "));
    assert_eq!(w, vec![v("a"), v("bb"), v("c")]);
    assert_eq!(split_words(&v("   ")), Vec::<Vec<char>>::new());
    assert_eq!(trim_chars(&v("\u{3000} x y \r")), v("x y"));
    assert_eq!(trim_chars(&v("  ")), Vec::<char>::new());
    assert_eq!(chars_of("h\u{e9}"), vec!['h', '\u{e9}']);
}
