use rush::text::{is_white_space_char, same_text, split_stages, split_words};

#[test]
fn stages_split_at_every_pipe() {
    assert_eq!(split_stages("a|b||c"), vec!["a", "b", "", "c"]);
    assert_eq!(split_stages(""), vec![""]);
    assert_eq!(split_stages("ls -l | wc"), vec!["ls -l ", " wc"]);
}

#[test]
fn words_skip_runs_of_white_space() {
    assert_eq!(split_words("  a\tb  c \n"), vec!["a", "b", "c"]);
    assert_eq!(split_words("echo"), vec!["echo"]);
    assert!(split_words("   ").is_empty());
    assert!(split_words("").is_empty());
}

#[test]
fn words_split_on_unicode_white_space() {
    assert_eq!(split_words("x\u{3000}y\u{a0}z\u{2003}w"), vec!["x", "y", "z", "w"]);
    assert_eq!(split_words("caf\u{e9} na\u{ef}ve"), vec!["caf\u{e9}", "na\u{ef}ve"]);
}

#[test]
fn white_space_matches_std() {
    for c in ['\t', '\n', '\u{b}', '\u{c}', '\r', ' ', '\u{85}', '\u{a0}', '\u{1680}', '\u{2000}', '\u{200a}',
        '\u{2028}', '\u{2029}', '\u{202f}', '\u{205f}', '\u{3000}', 'a', '|', '\u{200b}', '\u{7f}', '\u{feff}']
    {
        assert_eq!(is_white_space_char(c), c.is_whitespace(), "{:?}", c);
    }
}

#[test]
fn same_text_compares_characters() {
    assert!(same_text("echo", "echo"));
    assert!(!same_text("echo", "Echo"));
    assert!(!same_text("echo", "ech"));
    assert!(same_text("", ""));
}
