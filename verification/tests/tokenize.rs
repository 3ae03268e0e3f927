use octane::text::{parse_u32, str_eq, u32_to_string};
use octane::tokenize::{parse_line, tokenize};

#[test]
fn tokens_split_on_whitespace_runs() {
    assert_eq!(tokenize("ls -la"), vec!["ls", "-la"]);
    // U+00A0 has the White_Space property and splits; U+200B does not.
    assert_eq!(tokenize("  a \t b\u{a0}c  "), vec!["a", "b", "c"]);
    assert_eq!(tokenize("a\u{200b}b"), vec!["a\u{200b}b"]);
    assert_eq!(tokenize(""), Vec::<String>::new());
    assert_eq!(tokenize("   "), Vec::<String>::new());
}

#[test]
fn trailing_ampersand_sets_background() {
    let cmd = parse_line("sleep 100 &").unwrap();
    assert!(cmd.background);
    assert_eq!(cmd.name, "sleep");
    assert_eq!(cmd.args, vec!["100"]);
}

#[test]
fn no_trailing_ampersand_is_foreground() {
    let cmd = parse_line("sleep 100").unwrap();
    assert!(!cmd.background);
    assert_eq!(cmd.name, "sleep");
    assert_eq!(cmd.args, vec!["100"]);
}

#[test]
fn ampersand_in_the_middle_stays() {
    let cmd = parse_line("a & b").unwrap();
    assert!(!cmd.background);
    assert_eq!(cmd.name, "a");
    assert_eq!(cmd.args, vec!["&", "b"]);
}

#[test]
fn glued_ampersand_is_part_of_the_token() {
    let cmd = parse_line("sleep 100&").unwrap();
    assert!(!cmd.background);
    assert_eq!(cmd.args, vec!["100&"]);
}

#[test]
fn lone_ampersand_or_blank_parses_to_nothing() {
    assert!(parse_line("&").is_none());
    assert!(parse_line("  &  ").is_none());
    assert!(parse_line("").is_none());
    assert!(parse_line(" \t ").is_none());
}

#[test]
fn parse_u32_accepts_digits_and_plus() {
    assert_eq!(parse_u32("0"), Some(0));
    assert_eq!(parse_u32("123"), Some(123));
    assert_eq!(parse_u32("+7"), Some(7));
    assert_eq!(parse_u32("4294967295"), Some(u32::MAX));
}

#[test]
fn parse_u32_rejects_everything_else() {
    assert_eq!(parse_u32(""), None);
    assert_eq!(parse_u32("+"), None);
    assert_eq!(parse_u32("-1"), None);
    assert_eq!(parse_u32("12x"), None);
    assert_eq!(parse_u32(" 12"), None);
    assert_eq!(parse_u32("4294967296"), None);
    assert_eq!(parse_u32("99999999999999999999"), None);
}

#[test]
fn u32_to_string_prints_decimal() {
    assert_eq!(u32_to_string(0), "0");
    assert_eq!(u32_to_string(42), "42");
    assert_eq!(u32_to_string(4294967295), "4294967295");
}

#[test]
fn str_eq_compares_exactly() {
    assert!(str_eq("kill", "kill"));
    assert!(!str_eq("kill", "Kill"));
    assert!(!str_eq("kill", "kil"));
    assert!(str_eq("", ""));
}
