use lotrust::commands::{lex, Token};
use lotrust::options::{check_options, Options};
use lotrust::tracking::{find_element_by_name, Segment, TrackState};

#[test]
fn breakpoint_stops_track_once() {
    let mut s = TrackState::new(5);
    s.add_breakpoint(2);
    let first = s.track().unwrap();
    assert_eq!(first, Segment { start: 0, end: 2, restart: true });
    assert_eq!(s.current, 2);
    let second = s.track().unwrap();
    assert_eq!(second, Segment { start: 2, end: 5, restart: false });
    assert_eq!(s.current, 5);
    assert_eq!(s.track(), None);
}

#[test]
fn breakpoint_at_cursor_stops_at_once() {
    let mut s = TrackState::new(3);
    s.add_breakpoint(0);
    assert_eq!(s.track(), Some(Segment { start: 0, end: 0, restart: true }));
    assert_eq!(s.breakpoints_passed, vec![0]);
    assert_eq!(s.track(), Some(Segment { start: 0, end: 3, restart: true }));
}

#[test]
fn step_applies_one_element_and_ignores_breakpoints() {
    let mut s = TrackState::new(2);
    s.add_breakpoint(1);
    assert_eq!(s.step(), Some(Segment { start: 0, end: 1, restart: true }));
    assert_eq!(s.step(), Some(Segment { start: 1, end: 2, restart: false }));
    assert_eq!(s.step(), None);
    assert_eq!(s.current, 2);
}

#[test]
fn reset_clears_breakpoints_and_cursor() {
    let mut s = TrackState::new(4);
    s.add_breakpoint(1);
    s.track();
    s.reset();
    assert_eq!(s.current, 0);
    assert!(s.breakpoints.is_empty());
    assert!(s.breakpoints_passed.is_empty());
    assert_eq!(s.track(), Some(Segment { start: 0, end: 4, restart: true }));
}

#[test]
fn empty_lattice_is_already_complete() {
    let mut s = TrackState::new(0);
    assert_eq!(s.track(), None);
    assert_eq!(s.step(), None);
}

#[test]
fn first_element_with_the_name_is_found() {
    let names = vec!["q".to_string(), "d".to_string(), "q".to_string()];
    assert_eq!(find_element_by_name(&names, &"q".to_string()), Some(0));
    assert_eq!(find_element_by_name(&names, &"d".to_string()), Some(1));
    assert_eq!(find_element_by_name(&names, &"x".to_string()), None);
}

#[test]
fn options_need_input_and_named_files() {
    let mut o = Options::default();
    assert!(!check_options(&o));
    o.input_filename = "lat.lotr".to_string();
    assert!(check_options(&o));
    o.save_file = true;
    assert!(!check_options(&o));
    o.save_filename = "out".to_string();
    assert!(check_options(&o));
    o.beam_defined = true;
    assert!(!check_options(&o));
    o.beam_filename = "b.lotr".to_string();
    assert!(check_options(&o));
}

#[test]
fn command_words() {
    assert_eq!(lex(&"quit".to_string()), Token::Exit);
    assert_eq!(lex(&"exit".to_string()), Token::Exit);
    assert_eq!(lex(&"break".to_string()), Token::AddBreakPoint);
    assert_eq!(lex(&"load_lattice".to_string()), Token::LoadLattice);
    assert_eq!(lex(&"Track".to_string()), Token::Error);
}
