use naru::ansi::find_last_sgr_byte;
use naru::input::{input_buffer, wait_outcome, Wait};
use naru::config::{parse_bindings, window_height, ConfigError, KeyError};
use naru::keys::{action_by_name, build_actions, Action};
use naru::scorer::score_candidate;
use naru::tty::Tty;

#[test]
fn sgr_run_single() {
    assert_eq!(find_last_sgr_byte(b"\x1b[31mred"), 4);
}

#[test]
fn sgr_run_several() {
    assert_eq!(find_last_sgr_byte(b"\x1b[1m\x1b[31;40mx"), 11);
}

#[test]
fn sgr_run_absent() {
    assert_eq!(find_last_sgr_byte(b"plain"), 0);
    assert_eq!(find_last_sgr_byte(b""), 0);
    assert_eq!(find_last_sgr_byte(b"\x1b["), 0);
    assert_eq!(find_last_sgr_byte(b"\x1b[;1m"), 0);
    assert_eq!(find_last_sgr_byte(b"\x1b[12"), 0);
    assert_eq!(find_last_sgr_byte(b"\x1b[1K"), 0);
}

#[test]
fn sgr_run_stops_at_broken_sequence() {
    assert_eq!(find_last_sgr_byte(b"\x1b[0m\x1b[1"), 3);
    assert_eq!(find_last_sgr_byte(b"\x1b[0mx\x1b[1m"), 3);
}

#[test]
fn bindings_parse() {
    let b = vec![("c-a".to_string(), "select-next".to_string()), ("c-z".to_string(), "backspace".to_string())];
    let r = parse_bindings(&b).unwrap();
    assert_eq!(r, vec![(vec![1u8], "select-next".to_string()), (vec![26u8], "backspace".to_string())]);
}

#[test]
fn bindings_reject_prefix() {
    let b = vec![("x-a".to_string(), "select-next".to_string())];
    match parse_bindings(&b) {
        Err(ConfigError::InvalidKey { key, reason }) => {
            assert_eq!(key, "x-a");
            assert_eq!(reason, KeyError::Prefix);
        }
        _ => panic!("accepted"),
    }
}

#[test]
fn bindings_reject_length() {
    let b = vec![("c-ab".to_string(), "select-next".to_string())];
    assert!(matches!(parse_bindings(&b), Err(ConfigError::InvalidKey { reason: KeyError::Length, .. })));
}

#[test]
fn bindings_reject_letter() {
    let b = vec![("c-A".to_string(), "select-next".to_string())];
    assert!(matches!(parse_bindings(&b), Err(ConfigError::InvalidKey { reason: KeyError::Letter, .. })));
}

#[test]
fn unknown_action_rejected() {
    let b = vec![(vec![1u8], "jump".to_string())];
    match build_actions(&b) {
        Err(ConfigError::UnknownAction(n)) => assert_eq!(n, "jump"),
        _ => panic!("accepted"),
    }
}

#[test]
fn default_and_user_bindings() {
    let b = vec![(vec![0x0eu8], "select-prev".to_string()), (vec![1u8], "backspace".to_string())];
    let t = build_actions(&b).unwrap();
    assert_eq!(t.lookup(&[0x0e]), Some(Action::SelectPrev));
    assert_eq!(t.lookup(&[1]), Some(Action::Backspace));
    assert_eq!(t.lookup(b"\x1b[A"), Some(Action::SelectPrev));
    assert_eq!(t.lookup(b"\x1bOB"), Some(Action::SelectNext));
    assert_eq!(t.lookup(&[0x7f]), Some(Action::Backspace));
    assert_eq!(t.lookup(&[0x02]), None);
}

#[test]
fn action_names() {
    assert_eq!(action_by_name(&"select-next".to_string()), Some(Action::SelectNext));
    assert_eq!(action_by_name(&"select-prev".to_string()), Some(Action::SelectPrev));
    assert_eq!(action_by_name(&"backspace".to_string()), Some(Action::Backspace));
    assert_eq!(action_by_name(&"Backspace".to_string()), None);
}

#[test]
fn height_absolute_and_relative() {
    assert_eq!(window_height(20, 50), 20);
    assert_eq!(window_height(20, 10), 10);
    assert_eq!(window_height(0, 10), 10);
    assert_eq!(window_height(-3, 10), 7);
    assert_eq!(window_height(-30, 10), 1);
}

#[test]
fn terminal_sequences() {
    let mut t = Tty::new(80, 24);
    t.sgr(12);
    t.set_invert();
    t.move_up(3);
    t.set_col(0);
    t.clearline();
    t.newline();
    t.set_no_wrap();
    t.set_wrap();
    t.print("hé");
    assert_eq!(t.flush(), b"\x1b[12m\x1b[7m\x1b[3A\x1b[1G\x1b[K\x1b[K\n\x1b[?7l\x1b[?7hh\xc3\xa9".to_vec());
    assert!(t.flush().is_empty());
}

#[test]
fn foreground_shadow() {
    let mut t = Tty::new(80, 24);
    t.set_fg(5);
    t.set_fg(5);
    t.set_normal();
    t.set_fg(5);
    assert_eq!(t.flush(), b"\x1b[35m\x1b[0m\x1b[35m".to_vec());
}

#[test]
fn scorer_ranges_are_bytes() {
    let (_, ranges) = score_candidate("b", "ébc").unwrap();
    assert_eq!(ranges, vec![(2, 1)]);
    assert!(score_candidate("", "abc").is_none());
    assert!(score_candidate("z", "abc").is_none());
}

#[test]
fn ranking_is_by_descending_score() {
    let choices: Vec<String> = ["xaxb", "ab", "zzz", "a_b", "éab"].iter().map(|s| s.to_string()).collect();
    let ms = naru::ranking::ranked_matches(&choices, &b"ab".to_vec());
    assert_eq!(ms.len(), 4);
    assert!(ms.iter().all(|m| m.index != 2));
    for w in ms.windows(2) {
        assert!(w[0].score > w[1].score || (w[0].score == w[1].score && w[0].index < w[1].index));
    }
    for m in &ms {
        for &(start, len) in &m.ranges {
            assert!(start + len <= choices[m.index].len());
        }
    }
    let accented = ms.iter().find(|m| m.index == 4).unwrap();
    assert_eq!(accented.ranges, vec![(2, 2)]);
}

#[test]
fn empty_query_ranks_nothing() {
    let choices = vec!["a".to_string()];
    assert!(naru::ranking::ranked_matches(&choices, &Vec::new()).is_empty());
}

#[test]
fn wait_outcomes() {
    assert_eq!(wait_outcome(-1, true, false), Wait::Signal);
    assert_eq!(wait_outcome(-1, false, false), Wait::Failed);
    assert_eq!(wait_outcome(1, false, true), Wait::Ready);
    assert_eq!(wait_outcome(0, false, false), Wait::Again);
}

#[test]
fn input_buffers() {
    assert_eq!(input_buffer(b"\x1b[A"), [0x1b, b'[', b'A', 0, 0]);
    assert_eq!(input_buffer(&[]), [0; 5]);
    assert_eq!(input_buffer("é!".as_bytes()), [0xc3, 0xa9, b'!', 0, 0]);
}

#[test]
fn release_sequence() {
    let mut t = Tty::new(80, 24);
    t.set_fg(3);
    t.flush();
    t.release();
    assert_eq!(t.flush(), b"\x1b[?7h\x1b[1G\x1b[K\x1b[0m".to_vec());
    t.set_fg(3);
    assert_eq!(t.flush(), b"\x1b[33m".to_vec());
}

fn entry(index: usize, score: isize) -> naru::selector::Match {
    naru::selector::Match { index, score, ranges: Vec::new() }
}

#[test]
fn insertion_keeps_ranking() {
    let mut ms = vec![entry(0, 9), entry(1, 5), entry(2, 5), entry(3, 1)];
    naru::ranking::insert_ranked(&mut ms, entry(4, 5));
    let order: Vec<usize> = ms.iter().map(|x| x.index).collect();
    assert_eq!(order, vec![0, 1, 2, 4, 3]);
    naru::ranking::insert_ranked(&mut ms, entry(5, 10));
    assert_eq!(ms[0].index, 5);
    naru::ranking::insert_ranked(&mut ms, entry(6, -3));
    assert_eq!(ms.last().unwrap().index, 6);
}
