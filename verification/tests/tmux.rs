use std::collections::hash_map::DefaultHasher;
use std::hash::{Hash, Hasher};
use tmux_ai_titles::generation::{
    finish_pane, known_title, model_args, pane_input, pane_model_args, pane_title_prompt,
    previous_title, spinner_shown, spinner_title, title_in_window, title_of_answer,
    title_of_output, window_model_args, WINDOW_TITLE_PROMPT,
};
use tmux_ai_titles::hash::{hash_buffer, hash_str};
use tmux_ai_titles::ids::IdMap;
use tmux_ai_titles::socket::{
    bind_failure, command_report, next_bind_action, socket_path, status_report, BindAction,
    BindEvent,
};
use tmux_ai_titles::tmux;

#[test]
fn panes_are_listed_in_order() {
    let out = b"%0\t@0\tvim\t/home/a\n%1\t@0\tbash\t/tmp/with\ttab\nnot a pane\n%2\t@1\r\n%3\t\tzsh\n";
    let panes = tmux::list_panes(out);
    let seen: Vec<(&str, &str, &str, &str)> = panes
        .iter()
        .map(|p| (p.pane_id.as_str(), p.window_id.as_str(), p.command.as_str(), p.cwd.as_str()))
        .collect();
    assert_eq!(
        seen,
        vec![
            ("%0", "@0", "vim", "/home/a"),
            ("%1", "@0", "bash", "/tmp/with\ttab"),
            ("%2", "@1", "", ""),
            ("%3", "", "zsh", ""),
        ]
    );
    assert!(tmux::list_panes(b"").is_empty());
    assert!(tmux::parse_pane("no tab").is_none());
}

#[test]
fn bytes_that_are_no_text_are_replaced() {
    let panes = tmux::list_panes(b"%0\t@0\t\xff\t/\n");
    assert_eq!(panes[0].command, "\u{fffd}");
    assert_eq!(tmux::get_pane_title(Some(" caf\u{e9} \n".as_bytes())), "caf\u{e9}");
    assert_eq!(tmux::get_pane_title(None), "");
}

#[test]
fn empty_and_failed_captures_are_none() {
    assert_eq!(tmux::capture_pane(true, b" ls \n\n"), Some(" ls \n\n".to_string()));
    assert_eq!(tmux::capture_pane(true, b" \n\t\n"), None);
    assert_eq!(tmux::capture_pane(false, b"ls\n"), None);
}

#[test]
fn tmux_is_asked_in_its_own_words() {
    assert_eq!(
        tmux::list_panes_args().join(" "),
        "list-panes -a -F #{pane_id}\t#{window_id}\t#{pane_current_command}\t#{pane_current_path}"
    );
    assert_eq!(tmux::capture_pane_args("%3", 250).join(" "), "capture-pane -t %3 -p -S -250");
    assert_eq!(tmux::capture_pane_args("%3", 0).join(" "), "capture-pane -t %3 -p -S 0");
    assert_eq!(
        tmux::capture_pane_args("%3", usize::MAX).join(" "),
        format!("capture-pane -t %3 -p -S {}", -(usize::MAX as i64))
    );
    assert_eq!(tmux::set_pane_title_args("%3", "a b").join("|"), "select-pane|-t|%3|-T|a b");
    assert_eq!(tmux::set_window_title_args("@1", "a b").join("|"), "rename-window|-t|@1|a b");
    assert_eq!(
        tmux::get_pane_title_args("%3").join(" "),
        "display-message -t %3 -p #{pane_title}"
    );
}

#[test]
fn hashes_are_those_of_the_standard_hasher() {
    let mut hasher = DefaultHasher::new();
    "some text".hash(&mut hasher);
    assert_eq!(hash_str("some text"), hasher.finish());

    let buffer = "one\ntwo\r\nthree\n";
    for count in [0, 1, 2, 3, 50] {
        let lines: Vec<&str> = buffer.lines().rev().take(count).collect();
        let mut hasher = DefaultHasher::new();
        lines.hash(&mut hasher);
        assert_eq!(hash_buffer(buffer, count), hasher.finish());
    }
}

#[test]
fn only_the_last_lines_are_hashed() {
    assert_eq!(hash_buffer("a\nb\nc\n", 2), hash_buffer("x\ny\nb\nc\n", 2));
    assert_ne!(hash_buffer("a\nb\nc\n", 3), hash_buffer("x\nb\nc\n", 3));
    assert_ne!(hash_buffer("ab\nc", 2), hash_buffer("a\nbc", 2));
    assert_ne!(hash_str("a"), hash_str("b"));
}

#[test]
fn the_model_sees_what_is_known() {
    assert_eq!(pane_input("", "", "", "$ ls"), "```\n$ ls\n```");
    assert_eq!(
        pane_input("Old", "vim", "/src", "text\n"),
        "Previous title (for context only, may be outdated): Old\nRunning command: vim\nWorking directory: /src\n\n```\ntext\n\n```"
    );
    assert_eq!(
        pane_input("", "", "/src", "x"),
        "Working directory: /src\n\n```\nx\n```"
    );
}

#[test]
fn the_model_is_asked_for_the_right_title() {
    assert_eq!(model_args("haiku", "why").join("|"), "-p|--model|haiku|why");
    let pane = "Generate a 4-5 word title for a tmux pane based on the terminal output, running command, and working directory provided below. The title should describe the most recent overarching task or activity. Weight the END of the output most heavily \u{2014} that is the most recent activity. Earlier history may contain unrelated commands; ignore those unless they fit the current theme. Always prioritize terminal output content over the working directory. Only fall back to the directory name if the output is truly empty. The output may contain TUI formatting (unicode symbols, box-drawing characters) from tools like Some Tool, vim, or other terminal apps \u{2014} look past the formatting to understand the task being performed. Never use generic titles like \"Shell in X\" when there is meaningful output to describe. Never use words like \"idle\", \"awaiting\", or \"waiting\". Output ONLY the 4-5 word title. No quotes, no punctuation, no explanation.";
    let window = "Generate a 1-2 word tmux window title from these pane descriptions. The title should capture the project or theme \u{2014} e.g. a window with panes doing Rust builds, editing source, and running tests might be titled \"Rust Dev\". Each entry includes the pane title and its working directory for context. Output ONLY the title. No quotes, no punctuation, no explanation.";
    assert_eq!(pane_title_prompt("Some Tool"), pane);
    assert_eq!(WINDOW_TITLE_PROMPT, window);
    assert_eq!(pane_model_args("haiku", "Some Tool"), vec!["-p", "--model", "haiku", pane]);
    assert_eq!(window_model_args("haiku"), vec!["-p", "--model", "haiku", window]);
}

#[test]
fn answers_are_trimmed_and_empty_ones_dropped() {
    assert_eq!(title_of_answer(true, " Rust Dev\n"), Some("Rust Dev".to_string()));
    assert_eq!(title_of_answer(true, " \n"), None);
    assert_eq!(title_of_answer(false, "Rust Dev"), None);
    assert_eq!(title_of_output(true, b"\tTests \n"), Some("Tests".to_string()));
    assert_eq!(title_of_output(true, b""), None);
}

#[test]
fn the_spinner_keeps_the_title() {
    assert_eq!(spinner_title(0, ""), "\u{280b}");
    assert_eq!(spinner_title(9, "Old"), "\u{2813} Old");
    assert_eq!(spinner_title(10, "Old"), "\u{280b} Old");
    let frames: Vec<String> = (0..10).map(|i| spinner_title(i, "")).collect();
    assert_eq!(frames.concat(), "⠋⠙⠚⠞⠖⠦⠴⠲⠳⠓");
}

#[test]
fn titles_are_kept_and_shown_as_wanted() {
    let mut titles: IdMap<String> = IdMap::new();
    assert_eq!(known_title(&titles, "%1"), "");
    let shown = finish_pane(&mut titles, "%1", "Old", Some("New".to_string()), true);
    assert_eq!(shown, Some("New".to_string()));
    let other = Some("Other".to_string());
    assert_eq!(finish_pane(&mut titles, "%2", "Old", other, false), None);
    assert_eq!(known_title(&titles, "%1"), "New");
    assert_eq!(known_title(&titles, "%2"), "Other");
    assert_eq!(previous_title(true, "Shown", &titles, "%1"), "Shown");
    assert_eq!(previous_title(false, "Shown", &titles, "%1"), "New");
    assert_eq!(previous_title(false, "Shown", &titles, "%9"), "");
    assert_eq!(title_in_window(&titles, "%1", "Shown"), "New");
    assert_eq!(title_in_window(&titles, "%9", "Shown"), "Shown");
}

#[test]
fn a_failed_generation_brings_the_title_back() {
    let mut titles: IdMap<String> = IdMap::new();
    assert_eq!(spinner_shown(true, 0, "Old"), Some("\u{280b} Old".to_string()));
    assert_eq!(finish_pane(&mut titles, "%1", "Old", None, true), Some("Old".to_string()));
    assert_eq!(finish_pane(&mut titles, "%1", "", None, true), Some(String::new()));
    assert_eq!(finish_pane(&mut titles, "%1", "Old", None, false), None);
    assert!(titles.keys().is_empty());
}

#[test]
fn without_pane_titles_nothing_is_shown() {
    let mut titles: IdMap<String> = IdMap::new();
    assert_eq!(spinner_shown(false, 0, "Old"), None);
    assert_eq!(finish_pane(&mut titles, "%1", "Old", Some("New".to_string()), false), None);
    assert_eq!(title_in_window(&titles, "%1", "Old"), "New");
}

#[test]
fn the_socket_lies_in_the_runtime_directory() {
    assert_eq!(socket_path(Some("/run/user/1".to_string())), "/run/user/1/tmux-ai-titles.sock");
    assert_eq!(socket_path(None), "/tmp/tmux-ai-titles.sock");
    for dir in ["", "/", "/run/", "a"] {
        let expected = std::path::PathBuf::from(dir).join("tmux-ai-titles.sock");
        assert_eq!(socket_path(Some(dir.to_string())), expected.to_str().unwrap());
    }
}

fn run(events: &[BindEvent]) -> BindAction {
    let mut action = BindAction::Bind;
    for event in events {
        action = next_bind_action(action, *event);
    }
    action
}

#[test]
fn a_socket_that_answers_is_left_alone() {
    assert!(run(&[BindEvent::Done]) == BindAction::Listen);
    assert!(run(&[BindEvent::Failed]) == BindAction::FailBind);
    assert!(run(&[BindEvent::InUse]) == BindAction::Probe);
    assert!(run(&[BindEvent::InUse, BindEvent::Done]) == BindAction::FailBind);
    assert!(run(&[BindEvent::InUse, BindEvent::Failed]) == BindAction::Unlink);
}

#[test]
fn a_stale_socket_is_replaced() {
    let stale = [BindEvent::InUse, BindEvent::Failed, BindEvent::Done];
    assert!(run(&stale) == BindAction::Rebind);
    assert!(next_bind_action(run(&stale), BindEvent::Done) == BindAction::Listen);
    assert!(next_bind_action(run(&stale), BindEvent::InUse) == BindAction::FailBind);
    let kept = [BindEvent::InUse, BindEvent::Failed, BindEvent::Failed];
    assert!(run(&kept) == BindAction::FailUnlink);
}

#[test]
fn reports_name_the_outcome() {
    let ok = command_report(Ok("ok stopping"));
    assert_eq!(ok.text, "tmux-ai-titles: ok stopping");
    assert!(!ok.to_stdout && !ok.failed);
    let down = command_report(Err("refused"));
    assert_eq!(down.text, "tmux-ai-titles: daemon is not running (refused)");
    assert!(!down.to_stdout && down.failed);
    let up = status_report(Ok("ok pid=1 running"));
    assert_eq!(up.text, "tmux-ai-titles: ok pid=1 running");
    assert!(up.to_stdout && !up.failed);
    let none = status_report(Err("refused"));
    assert_eq!(none.text, "tmux-ai-titles: not running");
    assert!(none.to_stdout && none.failed);
    assert_eq!(
        bind_failure("/s", true, "e").text,
        "tmux-ai-titles: already running (socket /s is in use)"
    );
    let failed = bind_failure("/s", false, "denied");
    assert_eq!(failed.text, "tmux-ai-titles: failed to bind socket /s: denied");
    assert!(failed.failed && !failed.to_stdout);
}
