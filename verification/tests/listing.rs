use bwtui::{build_item, clean_string, extract_session_key, parse_items};

fn strings(lines: &[&str]) -> Vec<String> {
    lines.iter().map(|s| s.to_string()).collect()
}

#[test]
fn parse_items_collects_objects() {
    let objects = vec![
        "[",
        "  {",
        "    \"name\": \"GitHub\",",
        "    \"login\": {",
        "  },",
        "  {",
        "    \"name\": \"Mail\",",
        "  },",
        "]",
    ];
    let parsed = parse_items(objects);
    assert_eq!(parsed.len(), 2);
    assert_eq!(
        parsed[0],
        strings(&["    \"name\": \"GitHub\",", "    \"login\": {"])
    );
    // Lines gathered for earlier objects stay gathered.
    assert_eq!(
        parsed[1],
        strings(&["    \"name\": \"GitHub\",", "    \"login\": {", "    \"name\": \"Mail\","])
    );
}

#[test]
fn parse_items_ignores_lines_outside_objects() {
    let parsed = parse_items(vec!["x", "  },", "y", "  {", "z"]);
    assert_eq!(parsed.len(), 1);
    assert!(parsed[0].is_empty());
}

#[test]
fn parse_items_of_nothing_is_empty() {
    assert!(parse_items(vec![]).is_empty());
}

#[test]
fn collected_objects_grow_law() {
    let lines = vec!["  {", "a", "  },", "  {", "b", "  },", "c", "  },"];
    let parsed = parse_items(lines);
    assert_eq!(parsed.len(), 3);
    for w in parsed.windows(2) {
        assert!(w[1].starts_with(&w[0]));
    }
}

#[test]
fn build_item_reads_quoted_values() {
    let item = build_item(strings(&[
        "    \"id\": \"1\",",
        "    \"name\": \"GitHub\",",
        "      \"username\": \"octocat\",",
        "      \"password\": \" hunter2 \",",
    ]));
    assert_eq!(item.name, "GitHub");
    assert_eq!(item.user, "octocat");
    assert_eq!(item.pass, "hunter2");
}

#[test]
fn build_item_reads_unquoted_values_and_later_lines_win() {
    let item = build_item(strings(&[
        "    \"name\": \"First\",",
        "      \"username\": null,",
        "    \"name\": \"Second\",",
        "      \"password\": 42,",
    ]));
    assert_eq!(item.name, "Second");
    assert_eq!(item.user, "null");
    assert_eq!(item.pass, "42");
}

#[test]
fn build_item_of_no_fields_is_empty() {
    let item = build_item(strings(&["{", "}"]));
    assert_eq!(item.name, "");
    assert_eq!(item.user, "");
    assert_eq!(item.pass, "");
}

#[test]
fn lib_clean_string_trims() {
    assert_eq!(clean_string("  \"abc\",  ".to_string()), "\"abc\",");
    assert_eq!(clean_string("\t plain \n".to_string()), "plain");
    assert_eq!(clean_string("\"x\"".to_string()), "\"x\"");
    assert_eq!(clean_string(String::new()), "");
}

#[test]
fn session_key_from_unlock_output() {
    let output = "Your vault is now unlocked!\n\nTo unlock your vault, set your session key:\n$ export BW_SESSION=\"abc+def==\"\n> $env:BW_SESSION=\"abc+def==\"\n";
    assert_eq!(extract_session_key(output), Some("abc+def==".to_string()));
}

#[test]
fn session_key_takes_first_export_line() {
    let output = "export A=\"first\"\nexport B=\"second\"";
    assert_eq!(extract_session_key(output), Some("first".to_string()));
}

#[test]
fn session_key_missing() {
    assert_eq!(extract_session_key("Invalid master password."), None);
    assert_eq!(extract_session_key("export without quotes\nexport B=\"late\""), None);
    assert_eq!(extract_session_key(""), None);
}

#[test]
fn session_key_may_be_empty() {
    assert_eq!(extract_session_key("export X=\"\""), Some(String::new()));
    assert_eq!(extract_session_key("export X=\"unterminated"), Some("unterminated".to_string()));
}

#[test]
fn session_key_is_a_token() {
    let key = extract_session_key("$ export BW_SESSION=\"k1\"extra\"\nmore").unwrap();
    assert_eq!(key, "k1");
    assert!(!key.contains('"') && !key.contains('\n'));
}

#[test]
fn build_item_ignores_other_lines() {
    let base = [
        "    \"name\": \"GitHub\",",
        "      \"username\": \"octocat\",",
        "      \"password\": \"hunter2\",",
    ];
    let item = build_item(strings(&base));
    for k in 0..=base.len() {
        let mut lines = strings(&base);
        lines.insert(k, "    \"notes\": \"a: b\",".to_string());
        let other = build_item(lines);
        assert_eq!((other.name, other.user, other.pass), (item.name.clone(), item.user.clone(), item.pass.clone()));
    }
}
