use roads::geo::OsmType;
use roads::simplify::Point;
use roads::state::{Key, OptionKey, ParamValue, State, UiAction, WidgetId};
use roads::util::WrappingList;
use roads::{DotsSpinner, NominatimEntry};

fn some_entry(name: &str) -> NominatimEntry {
    NominatimEntry {
        place_id: 7,
        osm_type: OsmType::Relation,
        osm_id: 62422,
        display_name: String::from(name),
        importance: String::from("0.9"),
        boundingbox: [
            String::from("48.1"),
            String::from("48.2"),
            String::from("11.5"),
            String::from("11.6"),
        ],
        category: String::from("city"),
    }
}

fn type_word(st: &mut State, word: &str) {
    for c in word.chars() {
        let a = st.dispatch_key(Key::Char(c));
        assert!(matches!(a, UiAction::Nothing));
    }
}

#[test]
fn wrapping_list_selects_zero_when_nonempty() {
    let l: WrappingList<i32> = WrappingList::new(vec![10, 20, 30]);
    assert_eq!(l.selected_ix(), Some(0));
    assert_eq!(l.selected(), Some(&10));
    let e: WrappingList<i32> = WrappingList::new(vec![]);
    assert_eq!(e.selected_ix(), None);
    assert_eq!(e.selected(), None);
}

#[test]
fn wrapping_list_up_and_down_wrap_around() {
    let mut l: WrappingList<i32> = WrappingList::new(vec![10, 20, 30]);
    l.up();
    assert_eq!(l.selected_ix(), Some(2));
    l.down();
    assert_eq!(l.selected_ix(), Some(0));
    l.down();
    l.down();
    l.down();
    assert_eq!(l.selected_ix(), Some(0));
    l.up();
    l.up();
    l.up();
    assert_eq!(l.selected_ix(), Some(0));
}

#[test]
fn wrapping_list_moves_are_no_ops_when_empty() {
    let mut e: WrappingList<i32> = WrappingList::new(vec![]);
    e.up();
    e.down();
    assert_eq!(e.selected_ix(), None);
}

#[test]
fn spinner_advances_only_after_the_period() {
    let mut s = DotsSpinner::new();
    assert_eq!(s.pattern(), '\u{280b}');
    s.tick_at(1_000);
    assert_eq!(s.pattern(), '\u{280b}');
    s.tick_at(1_079);
    assert_eq!(s.pattern(), '\u{280b}');
    s.tick_at(1_080);
    assert_eq!(s.pattern(), '\u{2819}');
    let mut t = 1_080u64;
    for _ in 0..9 {
        t += 80;
        s.tick_at(t);
    }
    assert_eq!(s.pattern(), '\u{280b}');
}

#[test]
fn spinner_wall_clock_tick_stays_in_cycle() {
    let mut s = DotsSpinner::new();
    s.tick();
    s.tick();
    let glyphs = ['\u{280b}', '\u{2819}', '\u{2839}', '\u{2838}', '\u{283c}', '\u{2834}',
        '\u{2826}', '\u{2827}', '\u{2807}', '\u{280f}'];
    assert!(glyphs.contains(&s.pattern()));
}

#[test]
fn initial_state_defaults() {
    let st = State::new();
    assert!(matches!(st.focus, WidgetId::Search));
    assert_eq!(st.max_option_key_len(), 16);
    match st.param(OptionKey::Width) {
        Some(ParamValue::Real(m)) => assert_eq!(*m, 1_920_000),
        _ => panic!("width default"),
    }
    match st.param(OptionKey::Height) {
        Some(ParamValue::Real(m)) => assert_eq!(*m, 1_080_000),
        _ => panic!("height default"),
    }
    match st.param(OptionKey::LineWidth) {
        Some(ParamValue::Real(m)) => assert_eq!(*m, 300),
        _ => panic!("line width default"),
    }
    match st.param(OptionKey::BackgroundColor) {
        Some(ParamValue::Text(s)) => assert_eq!(s, "none"),
        _ => panic!("background default"),
    }
    match st.param(OptionKey::OpenOnSave) {
        Some(ParamValue::Flag(b)) => assert!(*b),
        _ => panic!("open default"),
    }
}

#[test]
fn enter_on_empty_search_does_nothing() {
    let mut st = State::new();
    let a = st.dispatch_key(Key::Enter);
    assert!(matches!(a, UiAction::Nothing));
    assert!(matches!(st.focus, WidgetId::Search));
    assert!(!st.worker_busy());
    assert_eq!(st.places.len(), 0);
}

#[test]
fn search_starts_a_fetch_and_busy_ignores_keys() {
    let mut st = State::new();
    type_word(&mut st, "ulm");
    match st.dispatch_key(Key::Enter) {
        UiAction::StartSearch(q) => assert_eq!(q, "ulm"),
        _ => panic!("expected a search"),
    }
    assert!(st.worker_busy());
    assert!(matches!(st.dispatch_key(Key::Tab), UiAction::Nothing));
    assert!(matches!(st.dispatch_key(Key::Char('x')), UiAction::Nothing));
    assert_eq!(st.user_city, "ulm");
    assert!(matches!(st.dispatch_key(Key::Esc), UiAction::Exit));
}

#[test]
fn completed_search_focuses_the_places() {
    let mut st = State::new();
    type_word(&mut st, "ulm");
    st.dispatch_key(Key::Enter);
    st.complete_search(vec![some_entry("Ulm"), some_entry("Neu-Ulm")]);
    assert!(matches!(st.focus, WidgetId::Places));
    assert!(!st.worker_busy());
    assert_eq!(st.places.len(), 2);
    assert_eq!(st.places.selected_ix(), Some(0));
    let a = st.dispatch_key(Key::Char('j'));
    assert!(matches!(a, UiAction::Nothing));
    assert_eq!(st.places.selected_ix(), Some(1));
    match st.dispatch_key(Key::Enter) {
        UiAction::StartRoads(e) => assert_eq!(e.display_name, "Neu-Ulm"),
        _ => panic!("expected a road fetch"),
    }
    assert!(st.worker_busy());
}

#[test]
fn editing_the_search_clears_the_places() {
    let mut st = State::new();
    st.complete_search(vec![some_entry("Ulm")]);
    assert_eq!(st.places.len(), 1);
    st.dispatch_key(Key::BackTab);
    assert!(matches!(st.focus, WidgetId::Search));
    st.dispatch_key(Key::Char('u'));
    assert_eq!(st.places.len(), 0);
    assert_eq!(st.user_city, "u");
    st.dispatch_key(Key::Backspace);
    assert_eq!(st.user_city, "");
}

#[test]
fn tab_cycles_the_panels() {
    let mut st = State::new();
    st.dispatch_key(Key::Tab);
    assert!(matches!(st.focus, WidgetId::Places));
    st.dispatch_key(Key::Tab);
    assert!(matches!(st.focus, WidgetId::Options));
    st.dispatch_key(Key::Tab);
    assert!(matches!(st.focus, WidgetId::Help));
    st.dispatch_key(Key::Tab);
    assert!(matches!(st.focus, WidgetId::Search));
    st.dispatch_key(Key::BackTab);
    assert!(matches!(st.focus, WidgetId::Help));
}

#[test]
fn option_edit_commits_a_valid_buffer() {
    let mut st = State::new();
    st.dispatch_key(Key::Tab);
    st.dispatch_key(Key::Tab);
    assert!(matches!(st.focus, WidgetId::Options));
    st.dispatch_key(Key::Enter);
    assert!(matches!(st.focus, WidgetId::ParamEdit));
    // The buffer opens with the rendered value "1920".
    for _ in 0..4 {
        st.dispatch_key(Key::Backspace);
    }
    type_word(&mut st, "800.5");
    st.dispatch_key(Key::Enter);
    assert!(matches!(st.focus, WidgetId::Options));
    match st.param(OptionKey::Width) {
        Some(ParamValue::Real(m)) => assert_eq!(*m, 800_500),
        _ => panic!("width after edit"),
    }
}

#[test]
fn option_edit_keeps_invalid_buffers_open() {
    let mut st = State::new();
    st.dispatch_key(Key::Tab);
    st.dispatch_key(Key::Tab);
    st.dispatch_key(Key::Enter);
    type_word(&mut st, "x");
    // "1920x" does not parse as a real; Enter must not commit.
    st.dispatch_key(Key::Enter);
    assert!(matches!(st.focus, WidgetId::ParamEdit));
    st.dispatch_key(Key::Esc);
    assert!(matches!(st.focus, WidgetId::Options));
    match st.param(OptionKey::Width) {
        Some(ParamValue::Real(m)) => assert_eq!(*m, 1_920_000),
        _ => panic!("width unchanged"),
    }
}

#[test]
fn flag_option_accepts_only_the_bool_words() {
    let mut st = State::new();
    st.dispatch_key(Key::Tab);
    st.dispatch_key(Key::Tab);
    for _ in 0..4 {
        st.dispatch_key(Key::Down);
    }
    assert_eq!(st.params.selected_ix(), Some(4));
    st.dispatch_key(Key::Enter);
    for _ in 0..4 {
        st.dispatch_key(Key::Backspace);
    }
    type_word(&mut st, "false");
    st.dispatch_key(Key::Enter);
    assert!(matches!(st.focus, WidgetId::Options));
    match st.param(OptionKey::OpenOnSave) {
        Some(ParamValue::Flag(b)) => assert!(!*b),
        _ => panic!("flag after edit"),
    }
}

#[test]
fn editor_ignores_exit_keys() {
    let mut st = State::new();
    st.dispatch_key(Key::Tab);
    st.dispatch_key(Key::Tab);
    st.dispatch_key(Key::Enter);
    assert!(matches!(st.dispatch_key(Key::CtrlC), UiAction::Nothing));
    assert!(matches!(st.focus, WidgetId::ParamEdit));
}

#[test]
fn error_acknowledged_with_enter() {
    let mut st = State::new();
    st.fail_worker(String::from("network down"));
    assert!(matches!(st.focus, WidgetId::Error));
    assert!(matches!(st.dispatch_key(Key::Char('x')), UiAction::Nothing));
    assert!(matches!(st.focus, WidgetId::Error));
    st.dispatch_key(Key::Enter);
    assert!(matches!(st.focus, WidgetId::Search));
    assert!(!st.worker_busy());
}

#[test]
fn completed_roads_write_a_document() {
    let mut st = State::new();
    type_word(&mut st, "ulm");
    let paths = vec![vec![
        Point { x: 0, y: 0 },
        Point { x: 100, y: 0 },
        Point { x: 100, y: 100 },
    ]];
    let job = st.complete_roads(paths).expect("a drawing");
    assert_eq!(job.path, "ulm.svg");
    assert!(job.open);
    assert!(job.content.contains("<polyline"));
    assert!(!st.worker_busy());
}

#[test]
fn completed_roads_without_geometry_write_nothing() {
    let mut st = State::new();
    let job = st.complete_roads(vec![vec![], vec![]]);
    assert!(job.is_none());
    assert!(!st.worker_busy());
}

#[test]
fn option_lines_align_the_values() {
    let st = State::new();
    let width = st.max_option_key_len();
    let entries = st.params.iter();
    let lines: Vec<String> = entries
        .iter()
        .map(|e| roads::state::option_line(e, width))
        .collect();
    assert_eq!(lines[0], "Width:            1920");
    assert_eq!(lines[1], "Height:           1080");
    assert_eq!(lines[2], "Line width:       0.3");
    assert_eq!(lines[3], "Background color: none");
    assert_eq!(lines[4], "Open on save:     true");
}
