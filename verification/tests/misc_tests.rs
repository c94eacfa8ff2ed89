use asciiquarium::cli::parse_size;
use asciiquarium::input::{action_for_key, Action, Key};
use asciiquarium::text::{chars_of, parse_unsigned_chars, split_lines};

#[test]
fn parse_size_accepts_width_by_height() {
    assert_eq!(parse_size("60x30"), Some((60, 30)));
    assert_eq!(parse_size("+1x0"), Some((1, 0)));
    assert_eq!(parse_size("65535x1"), Some((65535, 1)));
}

#[test]
fn parse_size_rejects_bad_input() {
    assert_eq!(parse_size("60"), None);
    assert_eq!(parse_size("60x30x2"), None);
    assert_eq!(parse_size("x30"), None);
    assert_eq!(parse_size("65536x1"), None);
    assert_eq!(parse_size("6 0x30"), None);
    assert_eq!(parse_size("-1x30"), None);
    assert_eq!(parse_size("60X30"), None);
}

#[test]
fn keys_map_to_actions() {
    assert_eq!(action_for_key(Key::Char('q'), false), Action::Quit);
    assert_eq!(action_for_key(Key::Char('c'), true), Action::Quit);
    assert_eq!(action_for_key(Key::Char('c'), false), Action::Idle);
    assert_eq!(action_for_key(Key::Char('r'), false), Action::Redraw);
    assert_eq!(action_for_key(Key::Char('p'), false), Action::TogglePause);
    assert_eq!(action_for_key(Key::Char('f'), false), Action::SpeedUp);
    assert_eq!(action_for_key(Key::Right, false), Action::SpeedUp);
    assert_eq!(action_for_key(Key::Char('s'), false), Action::SlowDown);
    assert_eq!(action_for_key(Key::Left, true), Action::SlowDown);
    assert_eq!(action_for_key(Key::Other, false), Action::Idle);
    assert_eq!(action_for_key(Key::Char('Q'), false), Action::Idle);
}

#[test]
fn unsigned_parsing_follows_from_str() {
    let p = |s: &str, max: u32| parse_unsigned_chars(&chars_of(s), max);
    assert_eq!(p("255", 255), Some(255));
    assert_eq!(p("256", 255), None);
    assert_eq!(p("007", 255), Some(7));
    assert_eq!(p("+", 255), None);
    assert_eq!(p("", 255), None);
    assert_eq!(p("1a", 255), None);
    assert_eq!(p("99999999999999999999", 255), None);
    for s in ["0", "12", "+9", "300", "-1", " 1"] {
        assert_eq!(p(s, 255), s.parse::<u8>().ok().map(|v| v as u32), "{:?}", s);
    }
}

#[test]
fn split_lines_matches_str_lines() {
    for s in ["", "a", "a\n", "a\n\n", "\n", "a\r\nb", "a\rb\r", "x\n\ny\r\n"] {
        let got: Vec<String> = split_lines(&chars_of(s))
            .into_iter()
            .map(|l| l.into_iter().collect())
            .collect();
        let want: Vec<String> = s.lines().map(|l| l.to_string()).collect();
        assert_eq!(got, want, "{:?}", s);
    }
}
