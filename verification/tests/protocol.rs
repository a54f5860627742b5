use tmux_ai_titles::control::{handle_line, handle_request, CommandState, CycleStart};
use tmux_ai_titles::control::RegenerateScope;
use tmux_ai_titles::messages::{
    pane_text, regenerate_text, start_text, stop_text, window_text, StartInfo,
};
use tmux_ai_titles::protocol::{response_of, ParseError, Request};

fn strings(list: &[&str]) -> Vec<String> {
    list.iter().map(|s| s.to_string()).collect()
}

fn targets_of(line: &str) -> Vec<String> {
    match Request::from_str(line) {
        Ok(Request::Regenerate(targets)) => targets,
        _ => panic!("not a regeneration request"),
    }
}

fn pending(state: &mut CommandState) -> Option<Vec<String>> {
    match state.begin_cycle() {
        CycleStart::Poll(Some(RegenerateScope::Specific(ids))) => Some(ids.to_vec()),
        CycleStart::Poll(Some(RegenerateScope::All)) => Some(strings(&["all"])),
        CycleStart::Poll(None) => None,
        CycleStart::Stop => panic!("stopped"),
    }
}

#[test]
fn commands_are_the_first_word() {
    assert!(matches!(Request::from_str("stop"), Ok(Request::Stop)));
    assert!(matches!(Request::from_str("  status\n"), Ok(Request::Status)));
    assert!(matches!(Request::from_str("stop at once"), Ok(Request::Stop)));
    assert_eq!(targets_of("regenerate"), strings(&[]));
    assert_eq!(targets_of("regenerate %16  %17 @3"), strings(&["%16", "%17", "@3"]));
}

#[test]
fn what_is_no_command_is_refused() {
    assert!(matches!(Request::from_str(""), Err(ParseError::Empty)));
    assert!(matches!(Request::from_str(" \t\n"), Err(ParseError::Empty)));
    match Request::from_str("Stop now") {
        Err(ParseError::Unknown(c)) => assert_eq!(c, "Stop"),
        _ => panic!("not refused"),
    }
}

#[test]
fn requests_have_one_text() {
    assert_eq!(Request::Stop.to_string(), "stop");
    assert_eq!(Request::Status.to_string(), "status");
    assert_eq!(Request::Regenerate(vec![]).to_string(), "regenerate");
    assert_eq!(
        Request::Regenerate(strings(&["%1", "@2"])).to_string(),
        "regenerate %1 @2"
    );
    assert_eq!(Request::Stop.to_line(), "stop\n");
}

#[test]
fn requests_survive_the_wire() {
    let request = Request::Regenerate(strings(&["%1", "@2"]));
    assert_eq!(targets_of(&request.to_line()), strings(&["%1", "@2"]));
    assert!(matches!(Request::from_str(&Request::Stop.to_line()), Ok(Request::Stop)));
    assert!(matches!(Request::from_str(&Request::Status.to_line()), Ok(Request::Status)));
}

#[test]
fn targets_with_spaces_arrive_as_words() {
    let request = Request::Regenerate(strings(&["a b", ""]));
    assert_eq!(targets_of(&request.to_string()), strings(&["a", "b"]));
}

#[test]
fn answers_say_what_happens() {
    let mut state = CommandState::new();
    assert_eq!(handle_line("regenerate %1 %2\n", &mut state, 7), "ok regenerating 2 target(s)");
    assert_eq!(handle_line("regenerate\n", &mut state, 7), "ok regenerating all");
    assert_eq!(handle_line("status\n", &mut state, 4711), "ok pid=4711 running");
    assert_eq!(handle_line("stop\n", &mut state, 7), "ok stopping");
    assert!(matches!(state.begin_cycle(), CycleStart::Stop));
}

#[test]
fn refusals_change_nothing() {
    let mut state = CommandState::new();
    assert_eq!(handle_line("\n", &mut state, 7), "err empty command");
    assert_eq!(handle_line("halt now\n", &mut state, 7), "err unknown command: halt");
    assert!(state.is_idle());
}

#[test]
fn answers_reach_the_client_as_they_are() {
    let mut state = CommandState::new();
    for line in ["stop", "status", "regenerate", "regenerate a", "", "what is this"] {
        let answer = handle_line(line, &mut state, 1);
        assert!(!answer.contains('\n'));
        assert_eq!(response_of(&format!("{answer}\n")), answer);
        let known = Request::from_str(line).is_ok();
        assert_eq!(answer.starts_with("ok "), known);
        assert_eq!(answer.starts_with("err "), !known);
    }
}

#[test]
fn specific_requests_merge() {
    let mut state = CommandState::new();
    handle_request(Request::Regenerate(strings(&["%1", "%2"])), &mut state, 1);
    handle_request(Request::Regenerate(strings(&["%2", "@3"])), &mut state, 1);
    assert_eq!(pending(&mut state), Some(strings(&["%1", "%2", "@3"])));
    assert_eq!(pending(&mut state), None);
}

#[test]
fn all_wins_in_either_order() {
    let mut state = CommandState::new();
    state.request_regenerate(&vec![]);
    state.request_regenerate(&strings(&["%1"]));
    assert_eq!(pending(&mut state), Some(strings(&["all"])));
    state.request_regenerate(&strings(&["%1"]));
    state.request_regenerate(&vec![]);
    assert_eq!(pending(&mut state), Some(strings(&["all"])));
}

#[test]
fn a_stop_comes_before_what_is_pending() {
    let mut state = CommandState::new();
    assert!(state.is_idle());
    state.request_stop();
    state.request_regenerate(&vec![]);
    assert!(!state.is_idle());
    assert!(matches!(state.begin_cycle(), CycleStart::Stop));
    assert!(matches!(state.begin_cycle(), CycleStart::Stop));
}

#[test]
fn the_order_of_requests_is_free() {
    let (mut one, mut two) = (CommandState::new(), CommandState::new());
    one.request_regenerate(&strings(&["%1"]));
    one.request_regenerate(&strings(&["@2"]));
    two.request_regenerate(&strings(&["@2"]));
    two.request_regenerate(&strings(&["%1"]));
    let (mut a, mut b) = (pending(&mut one).unwrap(), pending(&mut two).unwrap());
    a.sort();
    b.sort();
    assert_eq!(a, b);
    assert_eq!(a, strings(&["%1", "@2"]));
}

#[test]
fn a_sent_request_takes_effect() {
    let mut state = CommandState::new();
    let request = Request::Regenerate(strings(&["%1", "@2"]));
    assert_eq!(handle_line(&request.to_line(), &mut state, 1), "ok regenerating 2 target(s)");
    assert_eq!(pending(&mut state), Some(strings(&["%1", "@2"])));
}

#[test]
fn the_daemon_reports_its_work() {
    let info = StartInfo {
        pid: 7,
        socket: "/s".to_string(),
        model: "haiku".to_string(),
        poll_secs: 5,
        delay_secs: 300,
        capture_lines: 250,
        hash_lines: 50,
    };
    assert_eq!(
        start_text(&info),
        "tmux-ai-titles: starting (pid=7, socket=/s, model=haiku, poll=5s, regen_delay=300s, capture=250, hash=50)"
    );
    assert_eq!(stop_text(), "tmux-ai-titles: stop requested, shutting down");
    assert_eq!(
        regenerate_text(&RegenerateScope::All),
        "tmux-ai-titles: regenerate requested for all panes/windows"
    );
    let mut state = CommandState::new();
    state.request_regenerate(&strings(&["%1", "@2", "%1"]));
    match state.begin_cycle() {
        CycleStart::Poll(Some(scope)) => assert_eq!(
            regenerate_text(&scope),
            "tmux-ai-titles: regenerate requested for %1 @2"
        ),
        _ => panic!("nothing pending"),
    }
    assert_eq!(pane_text("%1", "Rust Build"), "pane %1 -> Rust Build");
    assert_eq!(window_text("@1", "Rust"), "window @1 -> Rust");
}
