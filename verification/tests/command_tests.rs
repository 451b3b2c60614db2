use bolt::command::{char_is_space, parse_ttl, split_words, trim, Command};

fn parse(s: &str) -> Command {
    Command::parse(s.to_string())
}

#[test]
fn parses_get() {
    assert!(matches!(parse("get a"), Command::Get(k) if k == "a"));
    assert!(matches!(parse("  get \t a  "), Command::Get(k) if k == "a"));
}

#[test]
fn parses_set_without_ttl() {
    assert!(matches!(parse("set a 1"), Command::Put(k, v, None) if k == "a" && v == "1"));
}

#[test]
fn parses_set_with_ttl() {
    assert!(matches!(parse("set a 1 30"), Command::Put(k, v, Some(30)) if k == "a" && v == "1"));
    assert!(matches!(parse("set a 1 +7"), Command::Put(_, _, Some(7))));
    assert!(matches!(parse("set a 1 007"), Command::Put(_, _, Some(7))));
    assert!(matches!(
        parse("set a 1 18446744073709551615"),
        Command::Put(_, _, Some(u64::MAX))
    ));
}

#[test]
fn set_with_unreadable_ttl_is_unknown() {
    assert!(matches!(parse("set a 1 soon"), Command::Unknown(t) if t == "set a 1 soon"));
    assert!(matches!(parse("set a 1 -5"), Command::Unknown(_)));
    assert!(matches!(parse("set a 1 +"), Command::Unknown(_)));
    assert!(matches!(parse("set a 1 18446744073709551616"), Command::Unknown(_)));
    assert!(matches!(parse("set a 1 1.5"), Command::Unknown(_)));
}

#[test]
fn parses_keys_delete_exit() {
    assert!(matches!(parse("keys"), Command::Keys));
    assert!(matches!(parse("delete a"), Command::Delete(k) if k == "a"));
    assert!(matches!(parse(" exit "), Command::Exit));
}

#[test]
fn blank_input_is_empty() {
    assert!(matches!(parse(""), Command::Empty));
    assert!(matches!(parse("   \t \u{3000} "), Command::Empty));
}

#[test]
fn anything_else_is_unknown_and_trimmed() {
    assert!(matches!(parse("  hello   world "), Command::Unknown(t) if t == "hello   world"));
    assert!(matches!(parse("get"), Command::Unknown(t) if t == "get"));
    assert!(matches!(parse("get a b"), Command::Unknown(t) if t == "get a b"));
    assert!(matches!(parse("keys now"), Command::Unknown(_)));
    assert!(matches!(parse("GET a"), Command::Unknown(_)));
    assert!(matches!(parse("set a"), Command::Unknown(_)));
    assert!(matches!(parse("set a 1 2 3"), Command::Unknown(_)));
}

#[test]
fn words_are_split_as_std_splits_them() {
    for s in ["", " ", "a", " a", "a ", "ab  cd\te\n", "\u{a0}x\u{2003}y\u{85}", "héllo wörld", "a\u{200b}b c"] {
        let expected: Vec<String> = s.split_whitespace().map(|w| w.to_string()).collect();
        assert_eq!(split_words(s), expected);
        assert_eq!(trim(s), s.trim());
    }
}

#[test]
fn white_space_is_what_std_calls_white_space() {
    for u in 0u32..0x3100 {
        if let Some(c) = char::from_u32(u) {
            assert_eq!(char_is_space(c), c.is_whitespace());
        }
    }
}

#[test]
fn ttl_is_read_as_std_reads_an_unsigned_number() {
    for s in ["0", "1", "42", "+42", "", "+", "-1", "4 2", "１２", "18446744073709551615", "18446744073709551616", "99999999999999999999999", "0000000000000000000000001", "1e3", "++1"] {
        assert_eq!(parse_ttl(s), s.parse::<u64>().ok());
    }
}
