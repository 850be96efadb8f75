use bwtui::app::{Account, AccountError, Action, App, CurrentScreen, KeyInput};
use bwtui::ui::{centered_rect, Area};

fn account(name: &str) -> Account {
    Account { id: name.to_string(), name: name.to_string(), user: Vec::new(), pass: Vec::new() }
}

fn main_app(names: &[&str]) -> App {
    let mut app = App::new();
    app.apply_unlock("k".to_string());
    app.fetch_items(names.iter().map(|n| account(n)).collect());
    app
}

fn masked(app: &App) -> bool {
    app.clean_input.chars().count() == app.pass_input.chars().count()
        && app.clean_input.chars().all(|c| c == '\u{2022}')
}

#[test]
fn typing_the_password_is_masked() {
    let mut app = App::new();
    for c in "pä55".chars() {
        assert_eq!(app.handle_key(KeyInput::Char(c)), Action::Nothing);
        assert!(masked(&app));
    }
    assert_eq!(app.pass_input, "pä55");
    assert_eq!(app.clean_input, "\u{2022}\u{2022}\u{2022}\u{2022}");
    assert_eq!(app.handle_key(KeyInput::Backspace), Action::Nothing);
    assert_eq!(app.pass_input, "pä5");
    assert!(masked(&app));
    for _ in 0..5 {
        app.handle_key(KeyInput::Backspace);
        assert!(masked(&app));
    }
    assert_eq!(app.pass_input, "");
}

#[test]
fn every_key_is_accepted_on_login_and_with_accounts() {
    let app = App::new();
    assert!(app.accepts_key(KeyInput::Down));
    assert!(main_app(&["a"]).accepts_key(KeyInput::Char('J')));
}

#[test]
fn login_enter_asks_to_unlock() {
    let mut app = App::new();
    app.handle_key(KeyInput::Char('x'));
    assert_eq!(app.handle_key(KeyInput::Enter), Action::Unlock);
    assert_eq!(app.pass_input, "x");
    assert_eq!(app.current_screen, CurrentScreen::Login);
    assert_eq!(app.handle_key(KeyInput::Up), Action::Nothing);
    assert_eq!(app.handle_key(KeyInput::Other), Action::Nothing);
    assert_eq!(app.pass_input, "x");
    assert_eq!(app.selected, 0);
}

#[test]
fn navigation_stays_in_the_list() {
    let mut app = main_app(&["a", "b", "c"]);
    assert_eq!(app.handle_key(KeyInput::Up), Action::Nothing);
    assert_eq!(app.selected, 0);
    app.handle_key(KeyInput::Down);
    app.handle_key(KeyInput::Char('j'));
    assert_eq!(app.selected, 2);
    app.handle_key(KeyInput::Char('J'));
    assert_eq!(app.selected, 2);
    app.handle_key(KeyInput::Char('k'));
    assert_eq!(app.selected, 1);
    app.handle_key(KeyInput::Char('K'));
    app.handle_key(KeyInput::Up);
    assert_eq!(app.selected, 0);
}

#[test]
fn navigation_in_an_empty_list() {
    let mut app = main_app(&[]);
    assert!(!app.accepts_key(KeyInput::Down));
    assert!(!app.accepts_key(KeyInput::Char('j')));
    assert!(app.accepts_key(KeyInput::Up));
    app.handle_key(KeyInput::Up);
    assert_eq!(app.selected, 0);
    assert_eq!(app.handle_key(KeyInput::Enter), Action::Failed(AccountError::NoSuchAccount));
    assert!(app.active_account.is_none());
}

#[test]
fn enter_opens_and_backspace_closes() {
    let mut app = main_app(&["a", "b"]);
    app.handle_key(KeyInput::Down);
    assert_eq!(app.handle_key(KeyInput::Enter), Action::Nothing);
    let shown = app.active_account.clone().unwrap();
    assert_eq!(shown.name, "b");
    assert_eq!(shown.pass, b"Empty pass".to_vec());
    assert_eq!(app.handle_key(KeyInput::Backspace), Action::Nothing);
    assert!(app.active_account.is_none());
    assert_eq!(app.accounts.len(), 2);
}

#[test]
fn copy_clear_and_quit_requests() {
    let mut app = main_app(&["a"]);
    assert_eq!(app.handle_key(KeyInput::Char('c')), Action::CopyPass);
    assert_eq!(app.handle_key(KeyInput::Char('C')), Action::CopyPass);
    assert_eq!(app.handle_key(KeyInput::Char('x')), Action::ClearClipboard);
    assert_eq!(app.handle_key(KeyInput::Char('X')), Action::ClearClipboard);
    assert_eq!(app.handle_key(KeyInput::Char('q')), Action::Quit { clear_clipboard: false });
    app.pass_copied = true;
    assert_eq!(app.handle_key(KeyInput::Char('Q')), Action::Quit { clear_clipboard: true });
    assert_eq!(app.handle_key(KeyInput::Char('z')), Action::Nothing);
    assert_eq!(app.handle_key(KeyInput::Other), Action::Nothing);
    assert!(app.pass_copied);
}

#[test]
fn main_screen_ignores_typing() {
    let mut app = main_app(&["a"]);
    app.handle_key(KeyInput::Char('p'));
    assert_eq!(app.pass_input, "");
}

#[test]
fn account_rows_mark_the_selection() {
    let mut app = main_app(&["a", "b"]);
    app.handle_key(KeyInput::Down);
    assert_eq!(
        app.account_rows(),
        vec![("a".to_string(), false), ("b".to_string(), true)]
    );
    assert!(main_app(&[]).account_rows().is_empty());
}

#[test]
fn detail_lines_show_the_open_account() {
    let mut app = main_app(&["a"]);
    assert_eq!(app.detail_lines(), vec!["No active account to display".to_string()]);
    app.active_account = Some(Account {
        id: "1".to_string(),
        name: "Mail".to_string(),
        user: b"me@example.org".to_vec(),
        pass: vec![0xff],
    });
    assert_eq!(
        app.detail_lines(),
        vec![
            "Name: Mail".to_string(),
            "Username: me@example.org".to_string(),
            "Password: Error retrieving password".to_string(),
        ]
    );
}

#[test]
fn centered_rect_splits_into_thirds() {
    let r = Area { x: 0, y: 0, width: 100, height: 50 };
    assert_eq!(centered_rect(20, 20, r), Area { x: 40, y: 20, width: 20, height: 10 });
    let full = centered_rect(100, 100, r);
    assert_eq!(full, r);
}

#[test]
fn centered_rect_lies_within_the_area() {
    let r = Area { x: 7, y: 3, width: 61, height: 17 };
    for p in [0u16, 1, 20, 33, 99, 100] {
        let c = centered_rect(p, 100 - p, r);
        assert!(r.x <= c.x && c.x + c.width <= r.x + r.width);
        assert!(r.y <= c.y && c.y + c.height <= r.y + r.height);
    }
}

fn cut(start: u32, len: u32, percent: u32) -> u32 {
    (100 * start + len * percent + 50) / 100
}

fn expected_part(start: u16, extent: u16, percents: [u32; 3], i: usize) -> (u16, u16) {
    let start = start as u32;
    let end = (start + extent as u32).min(0xFFFF);
    let len = end - start;
    let before: u32 = percents[..i].iter().sum();
    let a = cut(start, len, before);
    let b = cut(start, len, before + percents[i]);
    (a as u16, (b - a) as u16)
}

#[test]
fn centered_rect_matches_the_cut_formula() {
    let areas = [
        Area { x: 0, y: 0, width: 100, height: 50 },
        Area { x: 7, y: 3, width: 61, height: 17 },
        Area { x: 1, y: 2, width: 211, height: 57 },
        Area { x: 0, y: 0, width: 1, height: 1 },
        Area { x: 65530, y: 65000, width: 20, height: 999 },
    ];
    for r in areas {
        for p in [0u16, 1, 3, 20, 33, 50, 67, 99, 100] {
            let q = 100 - p;
            let side_y = ((100 - q) / 2) as u32;
            let (y, height) = expected_part(r.y, r.height, [side_y, q as u32, side_y], 1);
            let side_x = ((100 - p) / 2) as u32;
            let (x, width) = expected_part(r.x, r.width, [side_x, p as u32, side_x], 1);
            assert_eq!(centered_rect(p, q, r), Area { x, y, width, height }, "{:?} {}", r, p);
        }
    }
}
