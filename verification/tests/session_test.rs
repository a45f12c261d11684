use thwack::session::{
    visible_paths_length, RenderOp, Session, SessionAction, SessionEvent, SessionState,
};
use thwack::starting_point::StartingPoint;
use thwack::status_line::StatusLine;

const ROOT: &str = "/home/user/app";

fn walked_paths() -> Vec<String> {
    vec![
        ".browserslistrc",
        ".config/bar.toml",
        ".config/ok.toml",
        ".editorconfig",
        "lib/bar.js",
        "lib/index.js",
    ]
    .iter()
    .map(|r| format!("{}/{}", ROOT, r))
    .collect()
}

fn new_session(initial_query: &str, mode: StatusLine) -> Session {
    Session::new(StartingPoint::new(String::from(ROOT)), initial_query, mode)
}

#[test]
fn quit_before_any_other_key_invokes_nothing() {
    let mut session = new_session("", StatusLine::Absolute);
    assert_eq!(session.state, SessionState::QueryChanged);
    let action = session.handle_event(SessionEvent::Quit);
    assert!(matches!(action, SessionAction::Exit));
    assert_eq!(session.state, SessionState::QueryChanged);
    assert_eq!(session.candidates.paths.len(), 0);
}

#[test]
fn initial_tick_triggers_search() {
    let mut session = new_session("", StatusLine::Absolute);
    let action = session.handle_event(SessionEvent::Tick);
    assert!(matches!(action, SessionAction::Search));
    let paths = walked_paths();
    session.apply_paths(10, &paths);
    assert_eq!(session.state, SessionState::PathsChanged);
    assert!(session.needs_render());
    session.set_rendered();
    assert_eq!(session.state, SessionState::Ready);
    let action = session.handle_event(SessionEvent::Tick);
    assert!(matches!(action, SessionAction::Idle));
}

#[test]
fn typing_marks_query_changed_and_debounces() {
    let mut session = new_session("", StatusLine::Absolute);
    let action = session.handle_event(SessionEvent::Grapheme(String::from("b")));
    assert!(matches!(action, SessionAction::Idle));
    assert_eq!(session.state, SessionState::QueryChanged);
    assert!(session.needs_render());
    // the keystroke is rendered right away; the pending search survives
    session.set_rendered();
    assert!(!session.needs_render());
    assert_eq!(session.state, SessionState::QueryChanged);
    let action = session.handle_event(SessionEvent::Grapheme(String::from("a")));
    assert!(matches!(action, SessionAction::Idle));
    assert_eq!(session.query.value, vec!["b", "a"]);
    session.set_rendered();
    let action = session.handle_event(SessionEvent::Tick);
    assert!(matches!(action, SessionAction::Search));
}

#[test]
fn render_does_not_swallow_the_pending_search() {
    // selection moves and renders between a keystroke and the poll
    // timeout must not lose the debounced re-search
    let paths = walked_paths();
    let mut session = new_session("", StatusLine::Absolute);
    session.handle_event(SessionEvent::Tick);
    session.apply_paths(10, &paths);
    session.set_rendered();
    session.handle_event(SessionEvent::Grapheme(String::from("b")));
    session.set_rendered();
    session.handle_event(SessionEvent::Down);
    session.set_rendered();
    session.handle_event(SessionEvent::Left);
    session.set_rendered();
    let action = session.handle_event(SessionEvent::Tick);
    assert!(matches!(action, SessionAction::Search));
    session.apply_paths(10, &paths);
    session.set_rendered();
    let action = session.handle_event(SessionEvent::Tick);
    assert!(matches!(action, SessionAction::Idle));
}

#[test]
fn backspace_pops_and_marks_query_changed() {
    let mut session = new_session("ab", StatusLine::Absolute);
    let action = session.handle_event(SessionEvent::Backspace);
    assert!(matches!(action, SessionAction::Idle));
    assert_eq!(session.query.value, vec!["a"]);
    assert_eq!(session.state, SessionState::QueryChanged);
}

#[test]
fn enter_invokes_selected_path_per_status_mode() {
    let mut session = new_session("bar", StatusLine::Relative);
    let paths = walked_paths();
    session.apply_paths(10, &paths);
    let action = session.handle_event(SessionEvent::Enter);
    match action {
        SessionAction::Invoke(p) => assert_eq!(p, ".config/bar.toml"),
        _ => panic!("expected an invocation"),
    }

    let mut session = new_session("bar", StatusLine::Absolute);
    session.apply_paths(10, &paths);
    let action = session.handle_event(SessionEvent::Enter);
    match action {
        SessionAction::Invoke(p) => assert_eq!(p, "/home/user/app/.config/bar.toml"),
        _ => panic!("expected an invocation"),
    }
}

#[test]
fn enter_without_selection_does_nothing() {
    let mut session = new_session("nomatchxyz🎂", StatusLine::Absolute);
    let paths = walked_paths();
    session.apply_paths(10, &paths);
    let action = session.handle_event(SessionEvent::Enter);
    assert!(matches!(action, SessionAction::Idle));
}

#[test]
fn copy_actions_hand_over_the_selected_path() {
    let paths = walked_paths();
    let mut session = new_session("bar", StatusLine::Absolute);
    session.apply_paths(10, &paths);
    match session.handle_event(SessionEvent::CopyAbsolute) {
        SessionAction::CopyAndExit(Some(p)) => assert_eq!(p, "/home/user/app/.config/bar.toml"),
        _ => panic!("expected a copy"),
    }
    match session.handle_event(SessionEvent::CopyRelative) {
        SessionAction::CopyAndExit(Some(p)) => assert_eq!(p, ".config/bar.toml"),
        _ => panic!("expected a copy"),
    }

    let mut empty = new_session("nomatchxyz🎂", StatusLine::Absolute);
    empty.apply_paths(10, &paths);
    assert!(matches!(
        empty.handle_event(SessionEvent::CopyAbsolute),
        SessionAction::CopyAndExit(None)
    ));
}

#[test]
fn selection_moves_mark_selection_changed() {
    let paths = walked_paths();
    let mut session = new_session("", StatusLine::Absolute);
    session.apply_paths(10, &paths);
    session.set_rendered();
    let action = session.handle_event(SessionEvent::Down);
    assert!(matches!(action, SessionAction::Idle));
    assert_eq!(session.state, SessionState::SelectionChanged);
    assert_eq!(session.candidates.selected, Some(1));
    session.handle_event(SessionEvent::Up);
    assert_eq!(session.candidates.selected, Some(0));
}

#[test]
fn resize_triggers_rebuild() {
    let mut session = new_session("", StatusLine::Absolute);
    let action = session.handle_event(SessionEvent::Resize);
    assert!(matches!(action, SessionAction::Search));
}

#[test]
fn render_plan_shape() {
    let paths = walked_paths();
    let mut session = new_session("bar", StatusLine::Relative);
    session.apply_paths(5, &paths);
    let ops = session.render_ops(100, 30);
    assert!(matches!(ops[0], RenderOp::ClearAll));
    assert!(matches!(ops[1], RenderOp::MoveTo(0, 0)));
    match &ops[2] {
        RenderOp::Print(s) => assert_eq!(s, "Search: "),
        _ => panic!("expected the prompt"),
    }
    match &ops[3] {
        RenderOp::Print(s) => assert_eq!(s, "bar"),
        _ => panic!("expected the query text"),
    }
    assert!(matches!(ops[4], RenderOp::MoveTo(0, 1)));
    match &ops[5] {
        RenderOp::Print(s) => assert_eq!(s, "> "),
        _ => panic!("expected the selection marker"),
    }
    let texts: Vec<String> = ops
        .iter()
        .filter_map(|o| match o {
            RenderOp::Print(s) => Some(s.clone()),
            _ => None,
        })
        .collect();
    // the status line shows the relative path padded to the full width
    assert!(texts.iter().any(|t| t.starts_with(".config/bar.toml")));
    // the help line is shown at 100 columns
    assert!(texts.iter().any(|t| t == "<Up>/<Ctrl-p>:"));
    // the selected row is rendered with its matched run in one bold chunk
    assert!(texts.iter().any(|t| t == "bar"));
}

#[test]
fn render_plan_hides_help_and_status_when_asked() {
    let paths = walked_paths();
    let mut session = new_session("bar", StatusLine::Hidden);
    session.apply_paths(5, &paths);
    let ops = session.render_ops(80, 30);
    let texts: Vec<String> = ops
        .iter()
        .filter_map(|o| match o {
            RenderOp::Print(s) => Some(s.clone()),
            _ => None,
        })
        .collect();
    assert!(!texts.iter().any(|t| t == "<Up>/<Ctrl-p>:"));
    assert!(!texts.iter().any(|t| t.starts_with("No matching")));
}

#[test]
fn render_status_reports_no_matching_files() {
    let paths = walked_paths();
    let mut session = new_session("nomatchxyz🎂", StatusLine::Absolute);
    session.apply_paths(5, &paths);
    let ops = session.render_ops(120, 30);
    let texts: Vec<String> = ops
        .iter()
        .filter_map(|o| match o {
            RenderOp::Print(s) => Some(s.clone()),
            _ => None,
        })
        .collect();
    assert!(texts.iter().any(|t| t.starts_with("No matching files found.")));
}

#[test]
fn visible_rows_leave_room_for_the_chrome() {
    assert_eq!(visible_paths_length(20, StatusLine::Hidden), 18);
    assert_eq!(visible_paths_length(20, StatusLine::Absolute), 17);
    assert_eq!(visible_paths_length(20, StatusLine::Relative), 17);
    assert_eq!(visible_paths_length(2, StatusLine::Absolute), 0);
    assert_eq!(visible_paths_length(1, StatusLine::Hidden), 0);
    assert_eq!(visible_paths_length(0, StatusLine::Hidden), 0);
}

#[test]
fn test_screen() {
    // the original drives the screen with this exact key sequence against
    // a 98x20 terminal; here the same events run through the session
    let paths = walked_paths();
    let mut session = new_session("", StatusLine::Absolute);
    let visible = visible_paths_length(20, StatusLine::Absolute);

    let mut step = |session: &mut Session, ev: SessionEvent| {
        let action = session.handle_event(ev);
        if matches!(action, SessionAction::Search) {
            session.apply_paths(visible, &paths);
        }
        if session.needs_render() {
            let _ = session.render_ops(98, 20);
            session.set_rendered();
        }
        action
    };

    step(&mut session, SessionEvent::Tick);
    step(&mut session, SessionEvent::Grapheme(String::from("a")));
    step(&mut session, SessionEvent::Grapheme(String::from("b")));
    step(&mut session, SessionEvent::Grapheme(String::from("c")));
    step(&mut session, SessionEvent::Grapheme(String::from("😇")));
    assert_eq!(session.query.value, vec!["a", "b", "c", "😇"]);
    let action = step(&mut session, SessionEvent::Tick);
    assert!(matches!(action, SessionAction::Search));
    for _ in 0..6 {
        step(&mut session, SessionEvent::Left);
    }
    assert_eq!(session.query.idx, 0);
    for _ in 0..7 {
        step(&mut session, SessionEvent::Right);
    }
    assert_eq!(session.query.idx, 4);
    step(&mut session, SessionEvent::Backspace);
    step(&mut session, SessionEvent::Backspace);
    step(&mut session, SessionEvent::Backspace);
    assert_eq!(session.query.value, vec!["a"]);
    let action = step(&mut session, SessionEvent::Tick);
    assert!(matches!(action, SessionAction::Search));
    step(&mut session, SessionEvent::Up);
    step(&mut session, SessionEvent::Up);
    step(&mut session, SessionEvent::Down);
    step(&mut session, SessionEvent::Down);
    step(&mut session, SessionEvent::Resize);
    let action = step(&mut session, SessionEvent::Quit);
    assert!(matches!(action, SessionAction::Exit));
}
