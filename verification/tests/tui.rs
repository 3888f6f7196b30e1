use nci::score::empty_scores;
use nci::tui::{gauge_color, interpret, score_color, AppState, Key, Outcome, Tint};

fn ch(c: char) -> Key {
    Key::Char { c, control: false }
}

#[test]
fn new_state_starts_blank() {
    let s = AppState::new("");
    assert_eq!(s.scores(), &[1u8; 20][..]);
    assert_eq!(s.selected(), 0);
    assert_eq!(s.total(), 20);
    assert_eq!(s.preview_text(), "(No document loaded — use: nci manual <file.md>)");
}

#[test]
fn preview_keeps_forty_lines() {
    let doc: String = (1..=45).map(|i| format!("line {}\n", i)).collect();
    let s = AppState::new(&doc);
    let p = s.preview_text();
    assert_eq!(p.lines().count(), 40);
    assert!(p.starts_with("line 1\nline 2\n"));
    assert!(p.ends_with("line 40"));
    assert_eq!(AppState::new("a\r\nb\n").preview_text(), "a\nb");
    assert_eq!(AppState::new("a\n\nb").preview_text(), "a\n\nb");
    assert_eq!(AppState::new("a\r").preview_text(), "a\r");
}

#[test]
fn keys_move_the_highlight() {
    let mut s = AppState::new("doc");
    assert_eq!(s.handle_key(Key::Up), Outcome::Continue);
    assert_eq!(s.selected(), 0);
    s.handle_key(Key::Down);
    s.handle_key(ch('j'));
    assert_eq!(s.selected(), 2);
    s.handle_key(ch('k'));
    assert_eq!(s.selected(), 1);
    for _ in 0..30 {
        s.handle_key(Key::Down);
    }
    assert_eq!(s.selected(), 19);
}

#[test]
fn keys_change_scores_within_the_scale() {
    let mut s = AppState::new("doc");
    s.handle_key(ch('5'));
    assert_eq!(s.scores()[0], 5);
    s.handle_key(ch('+'));
    s.handle_key(Key::Right);
    assert_eq!(s.scores()[0], 5);
    s.handle_key(ch('-'));
    assert_eq!(s.scores()[0], 4);
    s.handle_key(Key::Down);
    s.handle_key(Key::Left);
    assert_eq!(s.scores()[1], 1);
    s.handle_key(Key::Right);
    assert_eq!(s.scores()[1], 2);
    s.handle_key(ch('0'));
    s.handle_key(ch('6'));
    s.handle_key(ch('x'));
    s.handle_key(Key::Other);
    assert_eq!(s.scores()[1], 2);
    s.handle_key(Key::Char { c: '3', control: true });
    assert_eq!(s.scores()[1], 3);
    assert_eq!(s.total(), 4 + 3 + 18);
}

#[test]
fn keys_that_finish() {
    let mut s = AppState::new("");
    assert_eq!(s.handle_key(ch('q')), Outcome::Finish);
    assert_eq!(s.handle_key(Key::Esc), Outcome::Finish);
    assert_eq!(s.handle_key(Key::Enter), Outcome::Finish);
    assert_eq!(s.handle_key(Key::Char { c: 'c', control: true }), Outcome::Finish);
    assert_eq!(s.handle_key(ch('c')), Outcome::Continue);
    assert_eq!(s.scores(), &[1u8; 20][..]);
}

#[test]
fn untouched_sheet_equals_empty_scores() {
    let s = AppState::new("text");
    let built = s.build_scores();
    let blank = empty_scores();
    assert_eq!(built.len(), blank.len());
    for (a, b) in built.iter().zip(blank.iter()) {
        assert_eq!((a.id, a.name.as_str(), a.score, a.reasoning.as_str()), (b.id, b.name.as_str(), b.score, b.reasoning.as_str()));
    }
}

#[test]
fn built_sheet_follows_the_screen() {
    let mut s = AppState::new("");
    s.handle_key(Key::Down);
    s.handle_key(ch('4'));
    let built = s.build_scores();
    assert_eq!(built[1].score, 4);
    assert_eq!(built[1].name, "Emotional Manipulation");
    assert_eq!(built[0].score, 1);
}

#[test]
fn short_readings_and_colours() {
    assert_eq!(interpret(20), "Low likelihood");
    assert_eq!(interpret(26), "Moderate — look deeper");
    assert_eq!(interpret(75), "Strong — manipulation likely");
    assert_eq!(interpret(100), "Overwhelming PSYOP signs");
    assert_eq!(gauge_color(25), Tint::Green);
    assert_eq!(gauge_color(50), Tint::Yellow);
    assert_eq!(gauge_color(51), Tint::LightRed);
    assert_eq!(gauge_color(76), Tint::Red);
    assert_eq!(score_color(1), Tint::Green);
    assert_eq!(score_color(2), Tint::LightGreen);
    assert_eq!(score_color(3), Tint::Yellow);
    assert_eq!(score_color(4), Tint::LightRed);
    assert_eq!(score_color(5), Tint::Red);
}

#[test]
fn screen_total_matches_sheet_total() {
    let mut s = AppState::new("");
    s.handle_key(ch('5'));
    s.handle_key(Key::Down);
    s.handle_key(ch('3'));
    let sheet = s.build_scores();
    assert_eq!(s.total(), nci::score::total_score(&sheet));
    assert_eq!(s.total(), 5 + 3 + 18);
}

#[test]
fn every_reachable_state_stays_valid() {
    let mut s = AppState::new("x");
    let keys = [Key::Down, ch('9'), ch('+'), Key::Left, Key::Left, Key::Left, Key::Up, Key::Up, ch('5'), Key::Right];
    for k in keys.iter().cycle().take(200) {
        s.handle_key(*k);
        assert!(s.selected() < 20);
        assert!(s.scores().iter().all(|v| (1..=5).contains(v)));
        assert!((20..=100).contains(&s.total()));
    }
}
