use tmux_ai_titles::control::{CommandState, CycleStart, RegenerateScope};
use tmux_ai_titles::daemon::Daemon;
use tmux_ai_titles::ids::{IdMap, IdSet};
use tmux_ai_titles::time::{Duration, Instant};
use tmux_ai_titles::tmux::{parse_panes, PaneInfo};
use tmux_ai_titles::tracker::ChangeTracker;
use tmux_ai_titles::windows::{list_windows, window_texts};

fn at(secs: i64) -> Instant {
    Instant::new(secs, 0)
}

fn delay() -> Duration {
    Duration::from_secs(300)
}

fn look(daemon: &mut Daemon, id: &str, buffer: &str, now: i64) -> bool {
    daemon.visit_pane(id, &Some(buffer.to_string()), 50, at(now), delay())
}

fn strings(list: &[&str]) -> Vec<String> {
    list.iter().map(|s| s.to_string()).collect()
}

fn three_panes() -> Vec<PaneInfo> {
    parse_panes("%1\t@1\tvim\t/a\n%2\t@2\tsh\t/b\n%3\t@1\tsh\t/c\n")
}

fn only(ids: &[&str]) -> RegenerateScope {
    let mut state = CommandState::new();
    state.request_regenerate(&strings(ids));
    match state.begin_cycle() {
        CycleStart::Poll(Some(scope)) => scope,
        _ => panic!("nothing pending"),
    }
}

#[test]
fn a_tracker_waits_out_the_delay() {
    let mut t = ChangeTracker::new(1, at(0));
    assert!(t.should_generate(at(0), delay()));
    t.mark_generated(at(0));
    assert!(!t.should_generate(at(1000), delay()));
    t.update_hash(1, at(1000));
    assert!(!t.should_generate(at(2000), delay()));
    t.update_hash(2, at(2000));
    assert!(!t.should_generate(at(2299), delay()));
    assert!(t.should_generate(at(2300), delay()));
    t.update_hash(3, at(2290));
    assert!(!t.should_generate(at(2300), delay()));
    assert!(t.should_generate(at(2590), delay()));
    t.mark_generated(at(2590));
    assert!(!t.should_generate(at(9000), delay()));
    t.request_title();
    assert!(t.should_generate(at(9000), delay()));
}

#[test]
fn a_new_pane_gets_a_title_at_once() {
    let mut daemon = Daemon::new();
    assert!(look(&mut daemon, "%1", "a", 0));
    assert!(!look(&mut daemon, "%1", "a", 5));
    daemon.reap("%1");
    assert!(!look(&mut daemon, "%1", "a", 10));
}

#[test]
fn an_empty_pane_is_passed_over() {
    let mut daemon = Daemon::new();
    assert!(!daemon.visit_pane("%1", &None, 50, at(0), delay()));
    assert!(look(&mut daemon, "%1", "a", 5));
}

#[test]
fn a_change_is_titled_after_the_delay() {
    let mut daemon = Daemon::new();
    assert!(look(&mut daemon, "%1", "a", 0));
    daemon.reap("%1");
    assert!(!look(&mut daemon, "%1", "b", 10));
    assert!(!look(&mut daemon, "%1", "b", 309));
    assert!(look(&mut daemon, "%1", "b", 310));
}

#[test]
fn a_title_in_the_making_is_not_started_twice() {
    let mut daemon = Daemon::new();
    assert!(look(&mut daemon, "%1", "a", 0));
    assert!(!look(&mut daemon, "%1", "b", 10));
    assert!(!look(&mut daemon, "%1", "b", 400));
    daemon.reap("%1");
    assert!(look(&mut daemon, "%1", "b", 400));
}

#[test]
fn a_regeneration_reaches_what_it_names() {
    let mut daemon = Daemon::new();
    assert!(look(&mut daemon, "%1", "a", 0));
    assert!(look(&mut daemon, "%2", "a", 0));
    daemon.reap("%1");
    daemon.reap("%2");
    daemon.regenerate(&only(&["%2"]));
    assert!(!look(&mut daemon, "%1", "a", 5));
    assert!(look(&mut daemon, "%2", "a", 5));
    daemon.reap("%2");
    daemon.regenerate(&RegenerateScope::All);
    assert!(look(&mut daemon, "%1", "a", 10));
    assert!(look(&mut daemon, "%2", "a", 10));
}

#[test]
fn a_closed_pane_is_forgotten() {
    let mut daemon = Daemon::new();
    let mut titles: IdMap<String> = IdMap::new();
    titles.insert("%1", "One".to_string());
    titles.insert("%9", "Nine".to_string());
    assert!(look(&mut daemon, "%1", "a", 0));
    assert!(look(&mut daemon, "%9", "a", 0));
    daemon.reap("%1");
    daemon.reap("%9");
    daemon.forget_closed(&three_panes(), &mut titles);
    assert!(!look(&mut daemon, "%1", "a", 5));
    assert!(look(&mut daemon, "%9", "a", 5));
    assert_eq!(titles.keys(), strings(&["%1"]));
}

#[test]
fn windows_get_the_titles_of_their_panes() {
    let mut daemon = Daemon::new();
    let panes = three_panes();
    let titles = strings(&["Editing", "Shell", "Logs"]);
    let jobs = daemon.visit_windows(&panes, &titles, at(0), delay());
    let seen: Vec<(&str, &str)> =
        jobs.iter().map(|j| (j.window_id.as_str(), j.input.as_str())).collect();
    assert_eq!(
        seen,
        vec![
            ("@1", "1. Editing (cwd: /a)\n2. Logs (cwd: /c)"),
            ("@2", "1. Shell (cwd: /b)"),
        ]
    );
    assert!(daemon.visit_windows(&panes, &titles, at(5), delay()).is_empty());
}

#[test]
fn a_window_waits_for_its_panes() {
    let mut daemon = Daemon::new();
    let panes = three_panes();
    assert!(look(&mut daemon, "%1", "a", 0));
    let jobs = daemon.visit_windows(&panes, &strings(&["Old", "", "Logs"]), at(0), delay());
    assert_eq!(jobs.len(), 1);
    assert_eq!(jobs[0].window_id, "@1");
    assert_eq!(jobs[0].input, "1. Logs (cwd: /c)");
    let jobs = daemon.visit_windows(&panes, &strings(&["Old", "Shell", "Logs"]), at(5), delay());
    assert_eq!(jobs.len(), 1);
    assert_eq!(jobs[0].window_id, "@2");
}

#[test]
fn a_window_follows_its_titles_and_directories() {
    let mut daemon = Daemon::new();
    let panes = parse_panes("%1\t@1\tvim\t/a\n");
    assert_eq!(daemon.visit_windows(&panes, &strings(&["A"]), at(0), delay()).len(), 1);
    daemon.reap("@1");
    let moved = parse_panes("%1\t@1\tvim\t/b\n");
    assert!(daemon.visit_windows(&moved, &strings(&["A"]), at(10), delay()).is_empty());
    assert_eq!(daemon.visit_windows(&moved, &strings(&["A"]), at(310), delay()).len(), 1);
}

#[test]
fn a_window_in_the_making_is_not_started_twice() {
    let mut daemon = Daemon::new();
    let panes = parse_panes("%1\t@1\tvim\t/a\n");
    assert_eq!(daemon.visit_windows(&panes, &strings(&["A"]), at(0), delay()).len(), 1);
    daemon.regenerate(&RegenerateScope::All);
    assert!(daemon.visit_windows(&panes, &strings(&["A"]), at(5), delay()).is_empty());
    daemon.reap("@1");
    assert_eq!(daemon.visit_windows(&panes, &strings(&["A"]), at(10), delay()).len(), 1);
}

#[test]
fn windows_are_listed_once() {
    assert_eq!(list_windows(&three_panes()), strings(&["@1", "@2"]));
    assert!(list_windows(&vec![]).is_empty());
}

#[test]
fn a_window_is_summed_up_by_all_its_panes() {
    let titles = strings(&["Editing", "Shell", ""]);
    let busy = vec![true, false, false];
    let one = window_texts(&three_panes(), &titles, &busy, "@1");
    assert_eq!(one.summary, "Editing /a,  /c");
    assert!(one.input.is_none());
    let two = window_texts(&three_panes(), &titles, &busy, "@2");
    assert_eq!(two.summary, "Shell /b");
    assert_eq!(two.input, Some("1. Shell (cwd: /b)".to_string()));
}

#[test]
fn id_sets_keep_first_order() {
    let mut ids = IdSet::new();
    assert!(ids.insert("b") && ids.insert("a") && !ids.insert("b"));
    assert_eq!(ids.to_vec(), strings(&["b", "a"]));
    ids.remove("b");
    ids.remove("x");
    assert!(!ids.contains("b") && ids.contains("a"));
    assert_eq!(ids.to_vec(), strings(&["a"]));
}

#[test]
fn id_maps_replace_values() {
    let mut map: IdMap<u8> = IdMap::new();
    map.insert("a", 1);
    map.insert("b", 2);
    map.insert("a", 3);
    assert_eq!(map.get("a"), Some(&3));
    assert_eq!(map.get("b"), Some(&2));
    assert_eq!(map.get("c"), None);
    assert_eq!(map.keys(), strings(&["a", "b"]));
}

#[test]
fn the_order_of_windows_is_free() {
    let forward = parse_panes("%1\t@1\tsh\t/a\n%2\t@2\tsh\t/b\n");
    let backward = parse_panes("%2\t@2\tsh\t/b\n%1\t@1\tsh\t/a\n");
    let (mut one, mut two) = (Daemon::new(), Daemon::new());
    let a = one.visit_windows(&forward, &strings(&["A", "B"]), at(0), delay());
    let b = two.visit_windows(&backward, &strings(&["B", "A"]), at(0), delay());
    assert_eq!((a.len(), b.len()), (2, 2));
    assert_eq!((&a[0].window_id, &a[0].input), (&b[1].window_id, &b[1].input));
    assert_eq!((&a[1].window_id, &a[1].input), (&b[0].window_id, &b[0].input));
}

#[test]
fn without_window_titles_none_is_made() {
    let mut daemon = Daemon::new();
    let panes = three_panes();
    let titles = strings(&["A", "B", "C"]);
    assert!(daemon.visit_windows_if(false, &panes, &vec![], at(0), delay()).is_empty());
    assert!(daemon.visit_windows_if(false, &panes, &titles, at(0), delay()).is_empty());
    assert_eq!(daemon.visit_windows_if(true, &panes, &titles, at(0), delay()).len(), 2);
}
