//! The control socket: where it lies, how the daemon comes by it, and what a client reports.
use vstd::prelude::*;

verus! {

/// The socket's name in its directory.
pub open spec fn socket_name() -> Seq<char> {
    "tmux-ai-titles.sock"@
}

/// The path of the socket in the runtime directory, or in `/tmp` where there is none.
pub open spec fn socket_path_text(runtime_dir: Option<Seq<char>>) -> Seq<char> {
    match runtime_dir {
        Some(dir) => if dir.len() == 0 || dir.last() == '/' {
            dir + socket_name()
        } else {
            dir + "/"@ + socket_name()
        },
        None => "/tmp/"@ + socket_name(),
    }
}

/// The path of the socket, given the runtime directory of the environment.
pub fn socket_path(runtime_dir: Option<String>) -> (res: String)
    ensures
        res@ == socket_path_text(
            match runtime_dir {
                Some(dir) => Some(dir@),
                None => None,
            },
        ),
{
    let mut out = match runtime_dir {
        Some(dir) => {
            let len: usize = dir.as_str().unicode_len();
            let mut path = dir;
            if len > 0 && path.as_str().get_char(len - 1) != '/' {
                path.append("/");
            }
            path
        },
        None => "/tmp/".to_owned(),
    };
    out.append("tmux-ai-titles.sock");
    out
}

/// What the daemon does next to come by its socket.
#[derive(Clone, Copy, Debug, PartialEq, Eq, Structural)]
pub enum BindAction {
    /// Bind the path.
    Bind,
    /// Connect to the path, to see whether another daemon listens there.
    Probe,
    /// Unlink the path, which nothing answers on.
    Unlink,
    /// Bind the path again.
    Rebind,
    /// Listen on the socket that was bound.
    Listen,
    /// Give up with the error of the last attempt to bind.
    FailBind,
    /// Give up with the error of the unlinking.
    FailUnlink,
}

/// What came of an action.
#[derive(Clone, Copy, Debug, PartialEq, Eq, Structural)]
pub enum BindEvent {
    /// It succeeded.
    Done,
    /// The path is in use.
    InUse,
    /// It failed in another way.
    Failed,
}

/// The action that follows `action` when `event` came of it.
pub open spec fn bind_step(action: BindAction, event: BindEvent) -> BindAction {
    match action {
        BindAction::Bind => match event {
            BindEvent::Done => BindAction::Listen,
            BindEvent::InUse => BindAction::Probe,
            BindEvent::Failed => BindAction::FailBind,
        },
        BindAction::Probe => if event == BindEvent::Done {
            BindAction::FailBind
        } else {
            BindAction::Unlink
        },
        BindAction::Unlink => if event == BindEvent::Done {
            BindAction::Rebind
        } else {
            BindAction::FailUnlink
        },
        BindAction::Rebind => if event == BindEvent::Done {
            BindAction::Listen
        } else {
            BindAction::FailBind
        },
        _ => action,
    }
}

/// The action that follows `action` when `event` came of it. Binding comes first.
pub fn next_bind_action(action: BindAction, event: BindEvent) -> (res: BindAction)
    ensures
        res == bind_step(action, event),
{
    match action {
        BindAction::Bind => match event {
            BindEvent::Done => BindAction::Listen,
            BindEvent::InUse => BindAction::Probe,
            BindEvent::Failed => BindAction::FailBind,
        },
        BindAction::Probe => match event {
            BindEvent::Done => BindAction::FailBind,
            _ => BindAction::Unlink,
        },
        BindAction::Unlink => match event {
            BindEvent::Done => BindAction::Rebind,
            _ => BindAction::FailUnlink,
        },
        BindAction::Rebind => match event {
            BindEvent::Done => BindAction::Listen,
            _ => BindAction::FailBind,
        },
        other => other,
    }
}

/// The action after `events` came of the actions one after another, the first of which binds.
pub open spec fn bind_run(events: Seq<BindEvent>) -> BindAction
    decreases events.len(),
{
    if events.len() == 0 {
        BindAction::Bind
    } else {
        bind_step(bind_run(events.drop_last()), events.last())
    }
}

/// Whether nothing more is done.
pub open spec fn is_settled(action: BindAction) -> bool {
    action is Listen || action is FailBind || action is FailUnlink
}

proof fn lemma_bind_run(events: Seq<BindEvent>)
    ensures
        bind_run(events) is Bind ==> events.len() == 0,
        bind_run(events) is Probe ==> events == seq![BindEvent::InUse],
        bind_run(events) is Unlink ==> events.len() == 2 && events[0] == BindEvent::InUse
            && events[1] != BindEvent::Done,
        bind_run(events) is Rebind ==> events.len() == 3 && events[0] == BindEvent::InUse
            && events[1] != BindEvent::Done && events[2] == BindEvent::Done,
        events.len() >= 4 ==> is_settled(bind_run(events)),
    decreases events.len(),
{
    if events.len() > 0 {
        let front = events.drop_last();
        lemma_bind_run(front);
        if bind_run(events) is Probe {
            assert(bind_run(front) is Bind);
            assert(events =~= seq![BindEvent::InUse]);
        }
        if bind_run(events) is Unlink {
            assert(bind_run(front) is Probe);
            assert(front[0] == events[0]);
        }
        if bind_run(events) is Rebind {
            assert(bind_run(front) is Unlink);
            assert(front[0] == events[0] && front[1] == events[1]);
        }
    }
}

/// A socket is unlinked only after the path was in use and nothing answered on it: the socket of
/// a daemon that answers is never taken away.
pub proof fn law_unlinks_only_what_nothing_answers(events: Seq<BindEvent>)
    requires
        bind_run(events) is Unlink,
    ensures
        events.len() == 2,
        events[0] == BindEvent::InUse,
        events[1] != BindEvent::Done,
{
    lemma_bind_run(events);
}

/// Where another daemon answers, the start fails with the error of the bind, whatever follows.
pub proof fn law_one_daemon_at_a_time(events: Seq<BindEvent>)
    requires
        events.len() >= 2,
        events[0] == BindEvent::InUse,
        events[1] == BindEvent::Done,
    ensures
        bind_run(events) is FailBind,
    decreases events.len(),
{
    reveal_with_fuel(bind_run, 3);
    if events.len() == 2 {
        assert(events.drop_last().drop_last().len() == 0);
        assert(events.drop_last().last() == events[0]);
    } else {
        let front = events.drop_last();
        assert(front[0] == events[0] && front[1] == events[1]);
        law_one_daemon_at_a_time(front);
    }
}

/// Coming by the socket takes at most four actions.
pub proof fn law_bind_settles(events: Seq<BindEvent>)
    requires
        events.len() >= 4,
    ensures
        is_settled(bind_run(events)),
{
    lemma_bind_run(events);
}

/// What the program says, where, and whether it failed.
pub struct Report {
    pub text: String,
    pub to_stdout: bool,
    pub failed: bool,
}

/// What the program says, over texts.
pub struct ReportModel {
    pub text: Seq<char>,
    pub to_stdout: bool,
    pub failed: bool,
}

impl View for Report {
    type V = ReportModel;

    open spec fn view(&self) -> ReportModel {
        ReportModel { text: self.text@, to_stdout: self.to_stdout, failed: self.failed }
    }
}

/// What a client says once it has sent a command: the daemon's response, or that there is none
/// and why.
pub fn command_report(response: Result<&str, &str>) -> (res: Report)
    ensures
        res@ == match response {
            Ok(text) => (ReportModel {
                text: "tmux-ai-titles: "@ + text@,
                to_stdout: false,
                failed: false,
            }),
            Err(error) => (ReportModel {
                text: "tmux-ai-titles: daemon is not running ("@ + error@ + ")"@,
                to_stdout: false,
                failed: true,
            }),
        },
{
    match response {
        Ok(text) => {
            let mut out = "tmux-ai-titles: ".to_owned();
            out.append(text);
            Report { text: out, to_stdout: false, failed: false }
        },
        Err(error) => {
            let mut out = "tmux-ai-titles: daemon is not running (".to_owned();
            out.append(error);
            out.append(")");
            Report { text: out, to_stdout: false, failed: true }
        },
    }
}

/// What a client says once it has asked for the status.
pub fn status_report(response: Result<&str, &str>) -> (res: Report)
    ensures
        res@ == match response {
            Ok(text) => (ReportModel {
                text: "tmux-ai-titles: "@ + text@,
                to_stdout: true,
                failed: false,
            }),
            Err(_) => (ReportModel {
                text: "tmux-ai-titles: not running"@,
                to_stdout: true,
                failed: true,
            }),
        },
{
    match response {
        Ok(text) => {
            let mut out = "tmux-ai-titles: ".to_owned();
            out.append(text);
            Report { text: out, to_stdout: true, failed: false }
        },
        Err(_) => Report {
            text: "tmux-ai-titles: not running".to_owned(),
            to_stdout: true,
            failed: true,
        },
    }
}

/// What the daemon says when it could not come by its socket.
pub fn bind_failure(path: &str, in_use: bool, error: &str) -> (res: Report)
    ensures
        res@ == (ReportModel {
            text: if in_use {
                "tmux-ai-titles: already running (socket "@ + path@ + " is in use)"@
            } else {
                "tmux-ai-titles: failed to bind socket "@ + path@ + ": "@ + error@
            },
            to_stdout: false,
            failed: true,
        }),
{
    let text = if in_use {
        let mut out = "tmux-ai-titles: already running (socket ".to_owned();
        out.append(path);
        out.append(" is in use)");
        out
    } else {
        let mut out = "tmux-ai-titles: failed to bind socket ".to_owned();
        out.append(path);
        out.append(": ");
        out.append(error);
        out
    };
    Report { text, to_stdout: false, failed: true }
}

/// The socket lies in the runtime directory under its name, with a single slash between them
/// unless the directory brings its own or is empty; without a runtime directory it lies in `/tmp`.
pub proof fn law_socket_lies_in_its_directory(dir: Seq<char>)
    ensures
        ({
            let name = "tmux-ai-titles.sock"@;
            let path = socket_path_text(Some(dir));
            &&& dir.is_prefix_of(path)
            &&& path.len() >= name.len()
            &&& path.skip(path.len() - name.len()) == name
            &&& dir.len() > 0 ==> path[path.len() - name.len() - 1] == '/'
            &&& path.len() == dir.len() + name.len() + if dir.len() > 0 && dir.last() != '/' {
                1int
            } else {
                0int
            }
            &&& socket_path_text(None) == socket_path_text(Some("/tmp"@))
        }),
{
    reveal_strlit("/");
    reveal_strlit("/tmp");
    reveal_strlit("/tmp/");
    let name = "tmux-ai-titles.sock"@;
    let path = socket_path_text(Some(dir));
    assert(path.skip(path.len() - name.len()) =~= name);
    assert(path.subrange(0, dir.len() as int) =~= dir);
    assert("/tmp"@ + "/"@ =~= "/tmp/"@);
    assert("/tmp"@ + "/"@ + name =~= "/tmp/"@ + name);
    assert("/tmp"@.last() == 'p');
}

/// A path that can be bound is listened on at once; a socket that nothing answers on is replaced,
/// and then listened on; what fails in between ends the attempt with its own error.
pub proof fn law_stale_socket_is_replaced(probe: BindEvent, event: BindEvent)
    requires
        probe != BindEvent::Done,
        event != BindEvent::Done,
    ensures
        bind_run(seq![BindEvent::Done]) is Listen,
        bind_run(seq![BindEvent::Failed]) is FailBind,
        bind_run(seq![BindEvent::InUse]) is Probe,
        bind_run(seq![BindEvent::InUse, probe]) is Unlink,
        bind_run(seq![BindEvent::InUse, probe, event]) is FailUnlink,
        bind_run(seq![BindEvent::InUse, probe, BindEvent::Done]) is Rebind,
        bind_run(seq![BindEvent::InUse, probe, BindEvent::Done, BindEvent::Done]) is Listen,
        bind_run(seq![BindEvent::InUse, probe, BindEvent::Done, event]) is FailBind,
{
    reveal_with_fuel(bind_run, 5);
    let one = seq![BindEvent::InUse];
    let two = seq![BindEvent::InUse, probe];
    let three = seq![BindEvent::InUse, probe, BindEvent::Done];
    assert(seq![BindEvent::Done].drop_last() =~= Seq::empty());
    assert(seq![BindEvent::Failed].drop_last() =~= Seq::empty());
    assert(one.drop_last() =~= Seq::empty());
    assert(two.drop_last() =~= one);
    assert(seq![BindEvent::InUse, probe, event].drop_last() =~= two);
    assert(three.drop_last() =~= two);
    assert(seq![BindEvent::InUse, probe, BindEvent::Done, BindEvent::Done].drop_last() =~= three);
    assert(seq![BindEvent::InUse, probe, BindEvent::Done, event].drop_last() =~= three);
}

/// What is settled stays as it is.
pub proof fn law_settled_stays(action: BindAction, event: BindEvent)
    requires
        is_settled(action),
    ensures
        bind_step(action, event) == action,
{
}

/// What follows each action: only a path in use is probed, only one that does not answer is
/// unlinked, only an unlinked one is bound again, and only a bound one is listened on.
pub proof fn law_each_action_has_its_successor(event: BindEvent)
    ensures
        bind_step(BindAction::Bind, event) is Listen <==> event == BindEvent::Done,
        bind_step(BindAction::Bind, event) is Probe <==> event == BindEvent::InUse,
        bind_step(BindAction::Bind, event) is FailBind <==> event == BindEvent::Failed,
        bind_step(BindAction::Probe, event) is FailBind <==> event == BindEvent::Done,
        bind_step(BindAction::Probe, event) is Unlink <==> event != BindEvent::Done,
        bind_step(BindAction::Unlink, event) is Rebind <==> event == BindEvent::Done,
        bind_step(BindAction::Unlink, event) is FailUnlink <==> event != BindEvent::Done,
        bind_step(BindAction::Rebind, event) is Listen <==> event == BindEvent::Done,
        bind_step(BindAction::Rebind, event) is FailBind <==> event != BindEvent::Done,
        bind_step(BindAction::Listen, event) is Listen,
        bind_step(BindAction::FailBind, event) is FailBind,
        bind_step(BindAction::FailUnlink, event) is FailUnlink,
{
}

/// A report stands for its text, where it goes and whether the program failed.
pub proof fn law_report_stands_for_itself(report: Report)
    ensures
        report@.text == report.text@,
        report@.to_stdout == report.to_stdout,
        report@.failed == report.failed,
{
}

} // verus!
