use octane::preprocess::{expand_env_vars, preprocess, trim_line, StrMap};

fn table(pairs: &[(&str, &str)]) -> StrMap {
    let mut t = StrMap::new();
    for (k, v) in pairs {
        if !t.contains_key(k) {
            t.insert(k.to_string(), v.to_string());
        }
    }
    t
}

#[test]
fn expand_replaces_set_variable() {
    let env = table(&[("USER", "alice")]);
    assert_eq!(expand_env_vars("hello $USER!", &env), "hello alice!");
}

#[test]
fn expand_replaces_every_occurrence() {
    let env = table(&[("X", "1")]);
    assert_eq!(expand_env_vars("$X and $X and $X", &env), "1 and 1 and 1");
}

#[test]
fn expand_keeps_unset_variable() {
    let env = table(&[]);
    assert_eq!(expand_env_vars("$NOPE stays", &env), "$NOPE stays");
}

#[test]
fn expand_keeps_bare_dollar() {
    let env = table(&[("A", "x")]);
    assert_eq!(expand_env_vars("a $ b", &env), "a $ b");
    assert_eq!(expand_env_vars("$", &env), "$");
    assert_eq!(expand_env_vars("100$", &env), "100$");
}

#[test]
fn expand_name_takes_alphanumerics_and_underscore() {
    let env = table(&[("MY_VAR2", "ok"), ("MY", "wrong")]);
    assert_eq!(expand_env_vars("$MY_VAR2-tail", &env), "ok-tail");
}

#[test]
fn bare_dollar_never_matches_an_empty_key() {
    let env = table(&[("", "X")]);
    assert_eq!(expand_env_vars("$", &env), "$");
    assert_eq!(expand_env_vars("a$ b", &env), "a$ b");
}

#[test]
fn expand_empty_value() {
    let env = table(&[("EMPTY", "")]);
    assert_eq!(expand_env_vars("[$EMPTY]", &env), "[]");
}

#[test]
fn trim_strips_both_ends() {
    assert_eq!(trim_line("  ls -la \t"), "ls -la");
    assert_eq!(trim_line("   "), "");
    assert_eq!(trim_line(""), "");
    assert_eq!(trim_line("x"), "x");
}

#[test]
fn alias_matches_whole_line_only() {
    let env = table(&[]);
    let aliases = table(&[("ll", "ls -la")]);
    assert_eq!(preprocess("ll", &env, &aliases), "ls -la");
    // The alias table matches the entire line, never a prefix.
    assert_eq!(preprocess("ll -a", &env, &aliases), "ll -a");
}

#[test]
fn alias_line_behaves_like_its_target() {
    let env = table(&[]);
    let aliases = table(&[("ll", "ls -la")]);
    let via_alias = octane::tokenize::parse_line(&preprocess("ll", &env, &aliases)).unwrap();
    let direct = octane::tokenize::parse_line("ls -la").unwrap();
    assert_eq!(via_alias.name, direct.name);
    assert_eq!(via_alias.args, direct.args);
    assert_eq!(via_alias.background, direct.background);
}

#[test]
fn alias_applies_after_expansion() {
    let env = table(&[("L", "ll")]);
    let aliases = table(&[("ll", "ls -la")]);
    assert_eq!(preprocess("$L", &env, &aliases), "ls -la");
    assert_eq!(preprocess("  ll  ", &env, &aliases), "ls -la");
}

#[test]
fn preprocess_blank_line_is_empty() {
    let env = table(&[]);
    let aliases = table(&[("ll", "ls -la")]);
    assert_eq!(preprocess("   ", &env, &aliases), "");
    assert_eq!(preprocess("", &env, &aliases), "");
}

#[test]
fn strmap_get_and_contains() {
    let t = table(&[("a", "1"), ("b", "2")]);
    assert!(t.contains_key("a"));
    assert!(!t.contains_key("c"));
    assert_eq!(t.get("b").map(|s| s.as_str()), Some("2"));
    assert!(t.get("c").is_none());
}
