use naru::config::Config;
use naru::selector::{InputError, Selector, Step};
use naru::tty::Tty;

fn selector(lines: &[&str]) -> Selector {
    let choices: Vec<String> = lines.iter().map(|s| s.to_string()).collect();
    let mut s = Selector::new(Tty::new(80, 24), choices, &Config::default());
    s.start(&Vec::new()).unwrap();
    s
}

fn key(bytes: &[u8]) -> [u8; 5] {
    let mut d = [0u8; 5];
    d[..bytes.len()].copy_from_slice(bytes);
    d
}

fn accepted(s: &mut Selector) -> String {
    match s.handle_input(key(b"\r")) {
        Ok(Step::Accept(c)) => c,
        other => panic!("not accepted: {:?}", other),
    }
}

fn contains(hay: &[u8], needle: &[u8]) -> bool {
    hay.windows(needle.len()).any(|w| w == needle)
}

#[test]
fn trivial_pick() {
    let mut s = selector(&["apple", "banana", "cherry"]);
    assert_eq!(accepted(&mut s), "apple");
}

#[test]
fn arrow_navigation() {
    let mut s = selector(&["apple", "banana", "cherry"]);
    assert!(matches!(s.handle_input(key(b"\x1b[B")), Ok(Step::Continue)));
    assert!(matches!(s.handle_input(key(b"\x1b[B")), Ok(Step::Continue)));
    assert_eq!(accepted(&mut s), "cherry");
}

#[test]
fn filter_and_pick() {
    let mut s = selector(&["apple", "banana", "cherry"]);
    s.handle_input(key(b"b")).unwrap();
    s.handle_input(key(b"a")).unwrap();
    assert_eq!(accepted(&mut s), "banana");
}

#[test]
fn bottom_clamp() {
    let mut s = selector(&["first", "second"]);
    for _ in 0..5 {
        s.handle_input(key(b"\x1b[B")).unwrap();
    }
    assert_eq!(accepted(&mut s), "second");
}

#[test]
fn backspace_restores_list() {
    let mut s = selector(&["apple", "banana", "cherry"]);
    for b in [b"x", b"y", b"z"] {
        s.handle_input(key(b)).unwrap();
    }
    for _ in 0..3 {
        s.handle_input(key(&[0x7f])).unwrap();
    }
    assert_eq!(accepted(&mut s), "apple");
}

#[test]
fn sgr_preservation() {
    let mut s = selector(&["\x1b[31mred\x1b[0m", "blue"]);
    let out = s.flush();
    assert!(contains(&out, b"\x1b[31;7mred\x1b[0m"));
    assert!(!contains(&out, b"\x1b[31m\x1b[7m"));
    assert_eq!(accepted(&mut s), "\x1b[31mred\x1b[0m");
}

#[test]
fn first_frame_bytes() {
    let mut s = selector(&["apple", "banana"]);
    let out = s.flush();
    let expected: &[u8] = b"\x1b[K\n\x1b[7mapple\x1b[0m\x1b[K\nbanana\x1b[K\x1b[2A\x1b[0m\x1b[1G> \x1b[K";
    assert_eq!(out, expected);
}

#[test]
fn viewport_follows_selection() {
    let choices: Vec<String> = (0..10).map(|i| format!("line{}", i)).collect();
    let conf = Config { window: naru::config::WindowConfig { height: 4 }, bindings: Vec::new() };
    let mut s = Selector::new(Tty::new(80, 24), choices, &conf);
    s.start(&Vec::new()).unwrap();
    for _ in 0..3 {
        s.handle_input(key(&[0x0e])).unwrap();
    }
    s.flush();
    s.handle_input(key(&[0x0e])).unwrap();
    let out = s.flush();
    assert!(contains(&out, b"line2\x1b[K\nline3\x1b[K\n\x1b[7mline4\x1b[0m\x1b[K\x1b[3A"));
    assert!(!contains(&out, b"line1"));
}

#[test]
fn signal_keeps_selection_and_query() {
    let mut s = selector(&["apple", "banana", "cherry"]);
    s.handle_input(key(b"a")).unwrap();
    s.handle_input(key(b"\x1b[B")).unwrap();
    s.flush();
    assert!(matches!(s.handle_input([0; 5]), Ok(Step::Continue)));
    let out = s.flush();
    assert!(out.ends_with(b"> \x1b[Ka"));
    let picked = accepted(&mut s);
    s.handle_input([0; 5]).unwrap();
    assert_eq!(accepted(&mut s), picked);
}

#[test]
fn invalid_utf8_is_an_error() {
    let mut s = selector(&["apple"]);
    assert_eq!(s.handle_input(key(&[0xff])).unwrap_err(), InputError::InvalidUtf8);
}

#[test]
fn line_feed_accepts() {
    let mut s = selector(&["apple", "banana"]);
    s.handle_input(key(b"\x1bOB")).unwrap();
    match s.handle_input(key(b"\n")) {
        Ok(Step::Accept(c)) => assert_eq!(c, "banana"),
        other => panic!("not accepted: {:?}", other),
    }
}

#[test]
fn accept_without_matches_does_nothing() {
    let mut s = selector(&["apple", "banana"]);
    s.handle_input(key(b"q")).unwrap();
    assert!(matches!(s.handle_input(key(b"\r")), Ok(Step::Continue)));
    s.handle_input(key(&[0x08])).unwrap();
    assert_eq!(accepted(&mut s), "apple");
}

#[test]
fn empty_candidate_list() {
    let mut s = selector(&[]);
    let out = s.flush();
    assert_eq!(out, b"\x1b[K\x1b[0A\x1b[0m\x1b[1G> \x1b[K".to_vec());
    assert!(matches!(s.handle_input(key(b"\r")), Ok(Step::Continue)));
}

#[test]
fn user_binding_overrides_default() {
    let mut s = Selector::new(
        Tty::new(80, 24),
        vec!["a".to_string(), "b".to_string(), "c".to_string()],
        &Config::default(),
    );
    s.start(&vec![(vec![0x0b], "select-next".to_string())]).unwrap();
    s.handle_input(key(&[0x0b])).unwrap();
    assert_eq!(accepted(&mut s), "b");
}

#[test]
fn backspace_removes_a_whole_character() {
    let mut s = selector(&["é", "e"]);
    s.handle_input(key("é".as_bytes())).unwrap();
    s.handle_input(key(&[0x7f])).unwrap();
    let out = s.flush();
    assert!(out.ends_with(b"> \x1b[K"));
    assert_eq!(accepted(&mut s), "é");
}

#[test]
fn match_highlight_is_magenta() {
    let mut s = selector(&["xbx", "yy"]);
    s.flush();
    s.handle_input(key(b"b")).unwrap();
    let out = s.flush();
    assert!(contains(&out, b"b\x1b[K\n\x1b[7mx\x1b[35mb\x1b[0m\x1b[7mx\x1b[0m\x1b[K\n\x1b[K\x1b[2A"));
}

#[test]
fn best_match_is_selected_first() {
    let mut s = selector(&["xaxb", "zzz", "ab"]);
    s.handle_input(key(b"a")).unwrap();
    s.handle_input(key(b"b")).unwrap();
    assert_eq!(accepted(&mut s), "ab");
}

#[test]
fn select_prev_stops_at_top() {
    let mut s = selector(&["apple", "banana"]);
    s.handle_input(key(b"\x1b[A")).unwrap();
    s.handle_input(key(&[0x05])).unwrap();
    assert_eq!(accepted(&mut s), "apple");
}

#[test]
fn unbound_control_key_is_ignored() {
    let mut s = selector(&["apple", "banana"]);
    s.flush();
    s.handle_input(key(&[0x02])).unwrap();
    assert!(s.flush().is_empty());
}
