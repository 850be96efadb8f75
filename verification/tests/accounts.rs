use bwtui::app::{clean_string, parse_items, Account, AccountError, App, CurrentScreen};

const LISTING: &str = "{\n  \"id\": \"abc-123\",\n  \"name\": \"GitHub\",\n  \"user\": \"octocat\",\n  \"pass\": \"hunter2\"\n}\n{\n  \"id\": \"def-456\",\n  \"name\": \"Empty\",\n  \"user\": null,\n  \"pass\": null\n}\n";

const PLAIN_LISTING: &str = "{\n  \"id\": \"1\",\n  \"name\": \"A\",\n  \"user\": null,\n  \"pass\": null\n}\n{\n  \"id\": \"2\",\n  \"name\": \" B \",\n  \"user\": \"\",\n  \"pass\": \"\"\n}\n";

fn unlocked_app(key: &str) -> App {
    let mut app = App::new();
    app.apply_unlock(key.to_string());
    app
}

#[test]
fn app_clean_string_values() {
    assert_eq!(clean_string(" \"abc-123\","), "abc-123");
    assert_eq!(clean_string(" \"hunter2\""), "hunter2");
    assert_eq!(clean_string("  \"  spaced  \",  "), "spaced");
    assert_eq!(clean_string(" null,"), "");
    assert_eq!(clean_string(" 42"), "");
    assert_eq!(clean_string(""), "");
    assert_eq!(clean_string("\"\","), "");
}

#[test]
fn parse_items_without_secrets_needs_no_encryption() {
    let accounts = parse_items(PLAIN_LISTING.to_string(), "key".to_string()).expect("no encryption needed");
    assert_eq!(accounts.len(), 2);
    assert_eq!(accounts[0].id, "1");
    assert_eq!(accounts[0].name, "A");
    assert_eq!(accounts[1].id, "2");
    assert_eq!(accounts[1].name, "B");
    for acc in &accounts {
        assert!(acc.user.is_empty());
        assert!(acc.pass.is_empty());
    }
}

#[test]
fn parse_items_skips_text_outside_blocks() {
    let text = "[\nnoise\n{\n  \"id\": \"7\",\n  \"name\": \"N\",\n  \"user\": null,\n  \"pass\": null,\n  \"extra\": 1\n}\ntrailing";
    let accounts = parse_items(text.to_string(), String::new()).unwrap();
    assert_eq!(accounts.len(), 1);
    assert_eq!(accounts[0].id, "7");
    assert_eq!(accounts[0].name, "N");
}

#[test]
fn parse_items_of_empty_listing() {
    assert!(parse_items(String::new(), "k".to_string()).unwrap().is_empty());
}

#[test]
fn parsed_secrets_are_encrypted_and_open_again() {
    let key = "Sess1onKey0123ab";
    let accounts = parse_items(LISTING.to_string(), key.to_string()).expect("encryption");
    assert_eq!(accounts.len(), 2);
    assert_eq!(accounts[0].id, "abc-123");
    assert_eq!(accounts[0].name, "GitHub");
    // The secrets are held encrypted, not as plaintext.
    assert!(!accounts[0].user.is_empty());
    assert_ne!(accounts[0].user, b"octocat".to_vec());
    assert_ne!(accounts[0].pass, b"hunter2".to_vec());
    assert!(accounts[1].user.is_empty());
    assert!(accounts[1].pass.is_empty());

    let mut app = unlocked_app(key);
    app.fetch_items(accounts);
    app.update_active_account(0);
    let shown = app.active_account.clone().unwrap();
    assert_eq!(shown.name, "GitHub");
    assert_eq!(shown.clone().get_user(), "octocat");
    assert_eq!(shown.get_pass(), "hunter2");
    // The list itself stays encrypted.
    assert_ne!(app.accounts[0].user, b"octocat".to_vec());

    app.update_active_account(1);
    let shown = app.active_account.clone().unwrap();
    assert_eq!(shown.clone().get_user(), "");
    assert_eq!(shown.get_pass(), "Empty pass");
}

#[test]
fn select_account_with_wrong_key_fails() {
    let accounts = parse_items(LISTING.to_string(), "right".to_string()).unwrap();
    let mut app = unlocked_app("wrong");
    app.fetch_items(accounts);
    assert_eq!(app.select_account(0), Err(AccountError::DecryptUsername));
    assert!(app.active_account.is_none());
    assert_eq!(app.select_account(5), Err(AccountError::NoSuchAccount));
    // An account without secrets opens under any key.
    assert_eq!(app.select_account(1), Ok(()));
    assert_eq!(app.active_account.unwrap().name, "Empty");
}

#[test]
fn select_account_reports_password_failure() {
    let mut app = unlocked_app("k");
    app.fetch_items(vec![Account {
        id: "1".to_string(),
        name: "n".to_string(),
        user: Vec::new(),
        pass: vec![1, 2, 3],
    }]);
    assert_eq!(app.select_account(0), Err(AccountError::DecryptPassword));
    assert_eq!(AccountError::DecryptPassword.message(), "failed to decrypt password");
}

#[test]
fn get_user_and_get_pass_decode_utf8() {
    let acc = Account {
        id: String::new(),
        name: String::new(),
        user: "ünïcode".as_bytes().to_vec(),
        pass: vec![0xff, 0xfe],
    };
    assert_eq!(acc.clone().get_user(), "ünïcode");
    assert_eq!(acc.clone().get_pass(), "Error retrieving password");
    let bad = Account { user: vec![0xc3], ..acc.clone() };
    assert_eq!(bad.get_user(), "Error retrieving username");
    let empty = Account { user: Vec::new(), pass: Vec::new(), ..acc };
    assert_eq!(empty.clone().get_user(), "");
    assert_eq!(empty.get_pass(), "");
}

#[test]
fn new_app_starts_at_login() {
    let app = App::new();
    assert_eq!(app.current_screen, CurrentScreen::Login);
    assert!(!app.unlocked);
    assert!(app.accounts.is_empty());
    assert_eq!(app.selected, 0);
    assert!(app.active_account.is_none());
    assert!(!app.pass_copied);
    assert_eq!(app.pass_input, "");
    assert_eq!(app.clean_input, "");
    assert_eq!(app.crypto_key, "");
}

#[test]
fn complete_unlock_draws_a_session_key() {
    let mut app = App::new();
    app.pass_input = "secret".to_string();
    app.clean_input = "\u{2022}".repeat(6);
    app.complete_unlock();
    assert_eq!(app.pass_input, "");
    assert_eq!(app.clean_input, "\u{2022}".repeat(6));
    assert!(app.unlocked);
    assert_eq!(app.current_screen, CurrentScreen::Main);
    assert_eq!(app.crypto_key.chars().count(), 16);
    assert!(app.crypto_key.chars().all(|c| c.is_ascii_alphanumeric()));
}

#[test]
fn apply_unlock_uses_the_given_key() {
    let mut app = App::new();
    app.pass_input = "pw".to_string();
    app.apply_unlock("fixed".to_string());
    assert_eq!(app.crypto_key, "fixed");
    assert_eq!(app.pass_input, "");
    assert!(app.unlocked);
}

#[test]
fn copy_and_clear_clipboard() {
    let mut app = unlocked_app("k");
    assert_eq!(app.copy_pass_text(), None);
    assert!(!app.pass_copied);
    app.active_account = Some(Account {
        id: "1".to_string(),
        name: "n".to_string(),
        user: b"me".to_vec(),
        pass: b"pw".to_vec(),
    });
    assert_eq!(app.copy_pass_text(), Some("pw".to_string()));
    assert!(app.pass_copied);
    app.clipboard_cleared();
    assert!(!app.pass_copied);
}

#[test]
fn fetch_items_replaces_the_list() {
    let mut app = App::new();
    app.fetch_items(parse_items(PLAIN_LISTING.to_string(), String::new()).unwrap());
    assert_eq!(app.accounts.len(), 2);
    app.fetch_items(Vec::new());
    assert!(app.accounts.is_empty());
}

#[test]
fn listing_ok_accepts_well_formed_listings() {
    assert!(bwtui::app::listing_ok(LISTING));
    assert!(bwtui::app::listing_ok(PLAIN_LISTING));
    assert!(bwtui::app::listing_ok(""));
    assert!(bwtui::app::listing_ok("no objects here"));
}

#[test]
fn listing_ok_rejects_short_objects() {
    let short = "{\n  \"id\": \"1\",\n  \"name\": \"A\",\n  \"user\": null\n}";
    assert!(!bwtui::app::listing_ok(short));
    // A closing brace outside any object closes an empty one.
    assert!(!bwtui::app::listing_ok("}"));
}

#[test]
fn listing_ok_rejects_bad_values() {
    let no_colon = "{\n  \"id\" \"1\",\n  \"name\": \"A\",\n  \"user\": null,\n  \"pass\": null\n}";
    assert!(!bwtui::app::listing_ok(no_colon));
    let unclosed = "{\n  \"id\": \"1,\n  \"name\": \"A\",\n  \"user\": null,\n  \"pass\": null\n}";
    assert!(!bwtui::app::listing_ok(unclosed));
    let colon_in_value = "{\n  \"id\": \"1\",\n  \"name\": \"https://x\",\n  \"user\": null,\n  \"pass\": null\n}";
    assert!(!bwtui::app::listing_ok(colon_in_value));
}
