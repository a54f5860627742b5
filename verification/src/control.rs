//! What the daemon was asked to do, and how it answers over the control socket.
use crate::ids::IdSet;
use crate::protocol::{
    encoded, law_request_round_trip, parsed, ParseError, ParseErrorModel, Request, RequestModel,
};
use crate::text::{
    decimal, decimal_value, is_space, is_word, law_decimal_reads_back, law_words_are_maximal_runs,
    lemma_word_len_bounds, push_decimal, texts, trim, trim_end, trim_start, trim_text, word_len,
    words,
};
use vstd::prelude::*;

verus! {

/// Pending regeneration scope. All subsumes Specific: if both are requested before the main loop
/// consumes the request, All wins.
pub enum RegenerateScope {
    All,
    Specific(IdSet),
}

/// A regeneration scope over texts.
pub enum ScopeModel {
    All,
    Specific(Set<Seq<char>>),
}

impl View for RegenerateScope {
    type V = ScopeModel;

    open spec fn view(&self) -> ScopeModel {
        match self {
            RegenerateScope::All => ScopeModel::All,
            RegenerateScope::Specific(ids) => ScopeModel::Specific(ids@),
        }
    }
}

impl RegenerateScope {
    /// The ids form a set.
    pub open spec fn wf(self) -> bool {
        self matches RegenerateScope::Specific(ids) ==> ids.wf()
    }
}

impl ScopeModel {
    /// Whether the scope takes in the pane or window `id`.
    pub open spec fn covers(self, id: Seq<char>) -> bool {
        match self {
            ScopeModel::All => true,
            ScopeModel::Specific(ids) => ids.contains(id),
        }
    }
}

/// Whether a pending request, if there is one, takes in `id`.
pub open spec fn pending_covers(pending: Option<ScopeModel>, id: Seq<char>) -> bool {
    match pending {
        Some(scope) => scope.covers(id),
        None => false,
    }
}

/// What is pending once a regeneration of `targets` was asked for; no targets stand for all.
pub open spec fn merged(pending: Option<ScopeModel>, targets: Seq<Seq<char>>) -> ScopeModel {
    if targets.len() == 0 {
        ScopeModel::All
    } else {
        match pending {
            Some(ScopeModel::All) => ScopeModel::All,
            Some(ScopeModel::Specific(ids)) => ScopeModel::Specific(ids.union(targets.to_set())),
            None => ScopeModel::Specific(targets.to_set()),
        }
    }
}

/// What the main loop was asked to do and has not done yet.
pub struct CommandState {
    should_stop: bool,
    pending_regenerate: Option<RegenerateScope>,
}

/// What the main loop was asked to do, over texts.
pub struct CommandModel {
    pub should_stop: bool,
    pub pending: Option<ScopeModel>,
}

impl View for CommandState {
    type V = CommandModel;

    closed spec fn view(&self) -> CommandModel {
        CommandModel {
            should_stop: self.should_stop,
            pending: match self.pending_regenerate {
                Some(scope) => Some(scope@),
                None => None,
            },
        }
    }
}

impl CommandModel {
    /// The state once a stop was asked for.
    pub open spec fn stopped(self) -> CommandModel {
        CommandModel { should_stop: true, ..self }
    }

    /// The state once a regeneration of `targets` was asked for.
    pub open spec fn regenerating(self, targets: Seq<Seq<char>>) -> CommandModel {
        CommandModel { pending: Some(merged(self.pending, targets)), ..self }
    }

    /// The state once `request` was handled.
    pub open spec fn handled(self, request: RequestModel) -> CommandModel {
        match request {
            RequestModel::Stop => self.stopped(),
            RequestModel::Regenerate(targets) => self.regenerating(targets),
            RequestModel::Status => self,
        }
    }

    /// The state once `line` was received.
    pub open spec fn received(self, line: Seq<char>) -> CommandModel {
        match parsed(line) {
            Ok(request) => self.handled(request),
            Err(_) => self,
        }
    }
}

/// How a polling cycle begins.
pub enum CycleStart {
    /// The daemon was asked to stop.
    Stop,
    /// The cycle runs, after the regeneration that was asked for, if there is one.
    Poll(Option<RegenerateScope>),
}

impl CommandState {
    /// The pending ids form a set.
    pub closed spec fn wf(self) -> bool {
        self.pending_regenerate matches Some(scope) ==> scope.wf()
    }

    /// The state in which nothing was asked for.
    pub fn new() -> (res: Self)
        ensures
            res.wf(),
            res@ == (CommandModel { should_stop: false, pending: None }),
    {
        CommandState { should_stop: false, pending_regenerate: None }
    }

    /// Asks the main loop to stop.
    pub fn request_stop(&mut self)
        requires
            old(self).wf(),
        ensures
            final(self).wf(),
            final(self)@ == old(self)@.stopped(),
    {
        self.should_stop = true;
    }

    /// Asks for new titles of `targets`, or of everything where there are none.
    pub fn request_regenerate(&mut self, targets: &Vec<String>)
        requires
            old(self).wf(),
        ensures
            final(self).wf(),
            final(self)@ == old(self)@.regenerating(texts(targets@)),
    {
        if targets.len() == 0 {
            self.pending_regenerate = Some(RegenerateScope::All);
        } else {
            match self.pending_regenerate.take() {
                Some(RegenerateScope::All) => {
                    self.pending_regenerate = Some(RegenerateScope::All);
                },
                Some(RegenerateScope::Specific(existing)) => {
                    let ids = extended(existing, targets);
                    self.pending_regenerate = Some(RegenerateScope::Specific(ids));
                },
                None => {
                    let ids = extended(IdSet::new(), targets);
                    assert(ids@ =~= texts(targets@).to_set());
                    self.pending_regenerate = Some(RegenerateScope::Specific(ids));
                },
            }
        }
    }

    /// Whether the main loop may sleep: nothing was asked of it.
    pub fn is_idle(&self) -> (res: bool)
        ensures
            res == (!self@.should_stop && self@.pending is None),
    {
        !self.should_stop && self.pending_regenerate.is_none()
    }

    /// Begins a polling cycle: unless the daemon is to stop, takes the pending regeneration.
    pub fn begin_cycle(&mut self) -> (res: CycleStart)
        requires
            old(self).wf(),
        ensures
            final(self).wf(),
            match res {
                CycleStart::Stop => old(self)@.should_stop && *final(self) == *old(self),
                CycleStart::Poll(scope) => {
                    &&& !old(self)@.should_stop
                    &&& final(self)@ == (CommandModel { pending: None, ..old(self)@ })
                    &&& match scope {
                        Some(s) => s.wf() && old(self)@.pending == Some(s@),
                        None => old(self)@.pending is None,
                    }
                },
            },
    {
        if self.should_stop {
            CycleStart::Stop
        } else {
            CycleStart::Poll(self.pending_regenerate.take())
        }
    }
}

/// `ids` with `targets` added.
fn extended(ids: IdSet, targets: &Vec<String>) -> (res: IdSet)
    requires
        ids.wf(),
    ensures
        res.wf(),
        res@ == ids@.union(texts(targets@).to_set()),
{
    let mut all = ids;
    let mut i: usize = 0;
    assert(texts(targets@).take(0).to_set() =~= Set::<Seq<char>>::empty());
    assert(ids@.union(Set::<Seq<char>>::empty()) =~= ids@);
    while i < targets.len()
        invariant
            i <= targets@.len(),
            all.wf(),
            all@ == ids@.union(texts(targets@).take(i as int).to_set()),
        decreases targets@.len() - i,
    {
        let _ = all.insert(targets[i].as_str());
        proof {
            let front = texts(targets@).take(i as int);
            let t = targets@[i as int]@;
            assert(texts(targets@).take(i + 1) =~= front.push(t));
            front.lemma_push_to_set_commute(t);
            assert(all@ =~= ids@.union(texts(targets@).take(i + 1).to_set()));
        }
        i = i + 1;
    }
    assert(texts(targets@).take(i as int) =~= texts(targets@));
    all
}

/// The answer of the process `pid` to a request.
pub open spec fn answer(request: RequestModel, pid: u32) -> Seq<char> {
    match request {
        RequestModel::Stop => "ok stopping"@,
        RequestModel::Regenerate(targets) => if targets.len() == 0 {
            "ok regenerating all"@
        } else {
            "ok regenerating "@ + decimal(targets.len()) + " target(s)"@
        },
        RequestModel::Status => "ok pid="@ + decimal(pid as nat) + " running"@,
    }
}

/// The answer to a line that is not a request.
pub open spec fn refusal(error: ParseErrorModel) -> Seq<char> {
    match error {
        ParseErrorModel::Empty => "err empty command"@,
        ParseErrorModel::Unknown(command) => "err unknown command: "@ + command,
    }
}

/// The answer of the process `pid` to a line.
pub open spec fn reply(line: Seq<char>, pid: u32) -> Seq<char> {
    match parsed(line) {
        Ok(request) => answer(request, pid),
        Err(error) => refusal(error),
    }
}

/// Handles a request to the process `pid` and gives the answer.
pub fn handle_request(request: Request, state: &mut CommandState, pid: u32) -> (res: String)
    requires
        old(state).wf(),
    ensures
        final(state).wf(),
        final(state)@ == old(state)@.handled(request@),
        res@ == answer(request@, pid),
{
    match request {
        Request::Stop => {
            state.request_stop();
            "ok stopping".to_owned()
        },
        Request::Regenerate(targets) => {
            let n: usize = targets.len();
            state.request_regenerate(&targets);
            if n == 0 {
                "ok regenerating all".to_owned()
            } else {
                let mut out = "ok regenerating ".to_owned();
                push_decimal(&mut out, n as u64);
                out.append(" target(s)");
                out
            }
        },
        Request::Status => {
            let mut out = "ok pid=".to_owned();
            push_decimal(&mut out, pid as u64);
            out.append(" running");
            out
        },
    }
}

/// Handles a line that the process `pid` received and gives the answer.
pub fn handle_line(line: &str, state: &mut CommandState, pid: u32) -> (res: String)
    requires
        old(state).wf(),
    ensures
        final(state).wf(),
        final(state)@ == old(state)@.received(trim(line@)),
        res@ == reply(trim(line@), pid),
{
    match Request::from_str(trim_text(line).as_str()) {
        Ok(request) => handle_request(request, state, pid),
        Err(ParseError::Empty) => "err empty command".to_owned(),
        Err(ParseError::Unknown(command)) => {
            let mut out = "err unknown command: ".to_owned();
            out.append(command.as_str());
            out
        },
    }
}

/// A regeneration request takes in its targets, or everything where it names none, and all that
/// was pending before: no request that waits is lost.
pub proof fn law_merge_takes_in_both(
    pending: Option<ScopeModel>,
    targets: Seq<Seq<char>>,
    id: Seq<char>,
)
    ensures
        merged(pending, targets).covers(id) <==> targets.len() == 0 || targets.contains(id)
            || pending_covers(pending, id),
{
}

/// All wins: once everything is pending, and whenever everything is asked for, everything stays
/// pending.
pub proof fn law_all_wins(pending: Option<ScopeModel>, targets: Seq<Seq<char>>)
    ensures
        merged(Some(ScopeModel::All), targets) == ScopeModel::All,
        merged(pending, Seq::empty()) == ScopeModel::All,
{
}

/// The order of two regeneration requests does not matter.
pub proof fn law_merge_order_is_free(
    pending: Option<ScopeModel>,
    a: Seq<Seq<char>>,
    b: Seq<Seq<char>>,
)
    ensures
        merged(Some(merged(pending, a)), b) == merged(Some(merged(pending, b)), a),
{
    let (sa, sb) = (a.to_set(), b.to_set());
    assert(sa.union(sb) =~= sb.union(sa));
    if let Some(ScopeModel::Specific(ids)) = pending {
        assert(ids.union(sa).union(sb) =~= ids.union(sb).union(sa));
    }
}

/// A stop that was asked for stays asked for, whatever comes in after it.
pub proof fn law_stop_is_kept(state: CommandModel, line: Seq<char>)
    ensures
        state.should_stop ==> state.received(line).should_stop,
        state.stopped().received(line).should_stop,
{
}

/// A request that a client sends takes effect and is answered as itself, wherever each target is
/// a word; what it names is pending from then on.
pub proof fn law_sent_request_takes_effect(state: CommandModel, request: RequestModel, pid: u32)
    requires
        request matches RequestModel::Regenerate(targets) ==> forall|i: int|
            0 <= i < targets.len() ==> is_word(#[trigger] targets[i]),
    ensures
        state.received(trim(encoded(request).push('\n'))) == state.handled(request),
        reply(trim(encoded(request).push('\n')), pid) == answer(request, pid),
        request is Stop ==> state.handled(request).should_stop,
        request matches RequestModel::Regenerate(targets) ==> forall|id: Seq<char>|
            targets.len() == 0 || targets.contains(id) ==> #[trigger] pending_covers(
                state.handled(request).pending,
                id,
            ),
{
    law_request_round_trip(request);
}

/// A line that is not a request changes nothing.
pub proof fn law_refusal_changes_nothing(state: CommandModel, line: Seq<char>)
    requires
        parsed(line) is Err,
    ensures
        state.received(line) == state,
{
}

/// Asking for the status changes nothing.
pub proof fn law_status_changes_nothing(state: CommandModel)
    ensures
        state.handled(RequestModel::Status) == state,
{
}

/// Whether `s` reads the same from its line, trimmed, and fits one line.
spec fn is_one_line(s: Seq<char>) -> bool {
    &&& s.len() > 0
    &&& !is_space(s[0])
    &&& !is_space(s.last())
    &&& forall|i: int| 0 <= i < s.len() ==> #[trigger] s[i] != '\n'
}

proof fn lemma_words_are_words(s: Seq<char>)
    ensures
        forall|i: int| 0 <= i < words(s).len() ==> is_word(#[trigger] words(s)[i]),
    decreases s.len(),
{
    if s.len() == 0 {
        assert(words(s).len() == 0);
    } else if is_space(s[0]) {
        lemma_words_are_words(s.drop_first());
        assert(words(s) == words(s.drop_first()));
    } else {
        lemma_word_len_bounds(s);
        let n = word_len(s) as int;
        let w = s.take(n);
        lemma_words_are_words(s.skip(n));
        assert(is_word(w)) by {
            assert forall|i: int| 0 <= i < w.len() implies !is_space(#[trigger] w[i]) by {
                assert(w[i] == s[i]);
            }
        }
        assert forall|i: int| 0 <= i < words(s).len() implies is_word(#[trigger] words(s)[i]) by {
            if i > 0 {
                assert(words(s)[i] == words(s.skip(n))[i - 1]);
            }
        }
    }
}

proof fn lemma_joined_line(front: Seq<char>, middle: Seq<char>, back: Seq<char>)
    requires
        front.len() > 0,
        !is_space(front[0]),
        middle.len() > 0,
        back.len() == 0 ==> !is_space(middle.last()),
        back.len() > 0 ==> !is_space(back.last()),
        forall|i: int| 0 <= i < front.len() ==> #[trigger] front[i] != '\n',
        forall|i: int| 0 <= i < middle.len() ==> #[trigger] middle[i] != '\n',
        forall|i: int| 0 <= i < back.len() ==> #[trigger] back[i] != '\n',
    ensures
        is_one_line(front + middle + back),
        (front + middle + back)[0] == front[0],
{
}

proof fn lemma_reply(line: Seq<char>, pid: u32)
    ensures
        is_one_line(reply(line, pid)),
        reply(line, pid)[0] == if parsed(line) is Ok {
            'o'
        } else {
            'e'
        },
{
    reveal_strlit("ok stopping");
    reveal_strlit("ok regenerating all");
    reveal_strlit("ok regenerating ");
    reveal_strlit(" target(s)");
    reveal_strlit("ok pid=");
    reveal_strlit(" running");
    reveal_strlit("err empty command");
    reveal_strlit("err unknown command: ");
    match parsed(line) {
        Ok(RequestModel::Stop) => {},
        Ok(RequestModel::Regenerate(targets)) => {
            if targets.len() > 0 {
                law_decimal_reads_back(targets.len());
                lemma_joined_line("ok regenerating "@, decimal(targets.len()), " target(s)"@);
            }
        },
        Ok(RequestModel::Status) => {
            law_decimal_reads_back(pid as nat);
            lemma_joined_line("ok pid="@, decimal(pid as nat), " running"@);
        },
        Err(ParseErrorModel::Empty) => {},
        Err(ParseErrorModel::Unknown(command)) => {
            lemma_words_are_words(line);
            assert(is_word(words(line)[0]));
            let front = "err unknown command: "@;
            assert(front + command + Seq::<char>::empty() =~= front + command);
            lemma_joined_line(front, command, Seq::empty());
        },
    }
}

proof fn lemma_trimmed_line(s: Seq<char>)
    requires
        is_one_line(s),
    ensures
        trim(s.push('\n')) == s,
{
    let line = s.push('\n');
    assert(line[0] == s[0]);
    assert(trim_start(line) == line);
    assert(line.drop_last() =~= s);
    assert(trim_end(s) == s);
}

/// Every answer is one line, which starts with `ok` exactly where the line was a request and
/// with `err` where it was not, and the client reads it back as it was written.
pub proof fn law_answer_is_one_line(line: Seq<char>, pid: u32)
    ensures
        forall|i: int| 0 <= i < reply(line, pid).len() ==> #[trigger] reply(line, pid)[i] != '\n',
        parsed(line) is Ok <==> "ok "@.is_prefix_of(reply(line, pid)),
        parsed(line) is Err <==> "err "@.is_prefix_of(reply(line, pid)),
        trim(reply(line, pid).push('\n')) == reply(line, pid),
{
    lemma_reply(line, pid);
    lemma_trimmed_line(reply(line, pid));
    reveal_strlit("ok ");
    reveal_strlit("err ");
    reveal_strlit("ok stopping");
    reveal_strlit("ok regenerating all");
    reveal_strlit("ok regenerating ");
    reveal_strlit("ok pid=");
    reveal_strlit("err empty command");
    reveal_strlit("err unknown command: ");
    let r = reply(line, pid);
    if parsed(line) is Ok {
        assert(r[1] == 'k' && r[2] == ' ');
        assert("ok "@ =~= r.subrange(0, 3));
    } else {
        assert(r[1] == 'r' && r[2] == 'r' && r[3] == ' ');
        assert("err "@ =~= r.subrange(0, 4));
    }
    assert("ok "@[0] == 'o' && "err "@[0] == 'e');
    assert("ok "@.is_prefix_of(r) ==> r[0] == 'o') by {
        if "ok "@.is_prefix_of(r) {
            assert(r.subrange(0, 3)[0] == r[0]);
        }
    }
    assert("err "@.is_prefix_of(r) ==> r[0] == 'e') by {
        if "err "@.is_prefix_of(r) {
            assert(r.subrange(0, 4)[0] == r[0]);
        }
    }
}

/// A request changes only what it asks for: a stop leaves what is pending, and a regeneration
/// leaves whether to stop.
pub proof fn law_requests_keep_apart(state: CommandModel, targets: Seq<Seq<char>>)
    ensures
        state.handled(RequestModel::Stop).should_stop,
        state.handled(RequestModel::Stop).pending == state.pending,
        state.handled(RequestModel::Regenerate(targets)).should_stop == state.should_stop,
        state.handled(RequestModel::Regenerate(targets)).pending is Some,
{
}

/// The answer to a regeneration of targets tells how many there are, and the answer to a status
/// request tells the process.
pub proof fn law_answer_tells_the_number(targets: Seq<Seq<char>>, pid: u32)
    ensures
        targets.len() > 0 ==> ({
            let ws = words(answer(RequestModel::Regenerate(targets), pid));
            ws.len() == 4 && decimal_value(ws[2]) == targets.len()
        }),
        ({
            let ws = words(answer(RequestModel::Status, pid));
            ws.len() == 3 && decimal_value(ws[1].skip(4)) == pid
        }),
{
    reveal_strlit("ok regenerating ");
    reveal_strlit(" target(s)");
    reveal_strlit("ok pid=");
    reveal_strlit(" running");
    let ok = seq!['o', 'k'];
    let verb = seq!['r', 'e', 'g', 'e', 'n', 'e', 'r', 'a', 't', 'i', 'n', 'g'];
    let noun = seq!['t', 'a', 'r', 'g', 'e', 't', '(', 's', ')'];
    let n = decimal(targets.len());
    law_decimal_reads_back(targets.len());
    let tail = n + seq![' '] + noun;
    let mid = verb + seq![' '] + tail;
    law_words_are_maximal_runs(noun, ' ', Seq::empty());
    law_words_are_maximal_runs(n, ' ', noun);
    law_words_are_maximal_runs(verb, ' ', tail);
    law_words_are_maximal_runs(ok, ' ', mid);
    assert("ok regenerating "@ + n + " target(s)"@ =~= ok + seq![' '] + mid);
    assert(words(ok + seq![' '] + mid) =~= seq![ok, verb, n, noun]);
    let p = decimal(pid as nat);
    law_decimal_reads_back(pid as nat);
    let who = seq!['p', 'i', 'd', '='] + p;
    let state = seq!['r', 'u', 'n', 'n', 'i', 'n', 'g'];
    assert forall|i: int| 0 <= i < who.len() implies !is_space(#[trigger] who[i]) by {
        if i >= 4 {
            assert(who[i] == p[i - 4]);
        }
    }
    law_words_are_maximal_runs(state, ' ', Seq::empty());
    law_words_are_maximal_runs(who, ' ', state);
    law_words_are_maximal_runs(ok, ' ', who + seq![' '] + state);
    assert("ok pid="@ + p + " running"@ =~= ok + seq![' '] + (who + seq![' '] + state));
    assert(words(ok + seq![' '] + (who + seq![' '] + state)) =~= seq![ok, who, state]);
    assert(who.skip(4) =~= p);
}

/// The answer to an unknown command names that command, whole, as its last word.
pub proof fn law_refusal_names_the_command(line: Seq<char>, pid: u32)
    requires
        parsed(line) matches Err(ParseErrorModel::Unknown(_)),
    ensures
        words(line).len() > 0,
        words(reply(line, pid)).len() == 4,
        words(reply(line, pid))[3] == words(line)[0],
{
    reveal_strlit("err unknown command: ");
    lemma_words_are_words(line);
    let command = words(line)[0];
    assert(is_word(command));
    let err = seq!['e', 'r', 'r'];
    let unknown = seq!['u', 'n', 'k', 'n', 'o', 'w', 'n'];
    let label = seq!['c', 'o', 'm', 'm', 'a', 'n', 'd', ':'];
    law_words_are_maximal_runs(command, ' ', Seq::empty());
    law_words_are_maximal_runs(label, ' ', command);
    law_words_are_maximal_runs(unknown, ' ', label + seq![' '] + command);
    let tail = unknown + seq![' '] + (label + seq![' '] + command);
    law_words_are_maximal_runs(err, ' ', tail);
    assert("err unknown command: "@ + command =~= err + seq![' '] + tail);
    assert(words(err + seq![' '] + tail) =~= seq![err, unknown, label, command]);
}

/// A scope takes in everything or exactly its ids; where nothing is pending, nothing is taken in.
pub proof fn law_scope_takes_in_its_ids(set: IdSet, ids: Set<Seq<char>>, id: Seq<char>)
    ensures
        ScopeModel::All.covers(id),
        ScopeModel::Specific(ids).covers(id) <==> ids.contains(id),
        pending_covers(Some(ScopeModel::All), id),
        pending_covers(Some(ScopeModel::Specific(ids)), id) <==> ids.contains(id),
        !pending_covers(None, id),
        RegenerateScope::All@ == ScopeModel::All,
        RegenerateScope::Specific(set)@ == ScopeModel::Specific(set@),
{
}

/// Every line has its answer and its effect, by its words: the first names the request, and for a
/// regeneration the others are what is to be regenerated, on top of what is pending.
pub proof fn law_line_has_its_answer_and_effect(
    state: CommandModel,
    line: Seq<char>,
    pid: u32,
    id: Seq<char>,
)
    ensures
        ({
            let ws = words(line);
            let text = reply(line, pid);
            let after = state.received(line);
            if ws.len() == 0 {
                text == "err empty command"@ && after == state
            } else if ws[0] == "stop"@ {
                text == "ok stopping"@ && after.should_stop && after.pending == state.pending
            } else if ws[0] == "status"@ {
                text == "ok pid="@ + decimal(pid as nat) + " running"@ && after == state
            } else if ws[0] == "regenerate"@ && ws.len() == 1 {
                &&& text == "ok regenerating all"@
                &&& after.should_stop == state.should_stop
                &&& after.pending == Some(ScopeModel::All)
            } else if ws[0] == "regenerate"@ {
                &&& text == "ok regenerating "@ + decimal((ws.len() - 1) as nat) + " target(s)"@
                &&& after.should_stop == state.should_stop
                &&& pending_covers(after.pending, id) <==> pending_covers(state.pending, id)
                    || exists|k: int| 1 <= k < ws.len() && #[trigger] ws[k] == id
                &&& state.pending is None ==> !(after.pending == Some(ScopeModel::All))
                &&& state.pending == Some(ScopeModel::All) ==> after.pending == state.pending
            } else {
                text == "err unknown command: "@ + ws[0] && after == state
            }
        }),
{
    let ws = words(line);
    if ws.len() > 0 {
        let targets = ws.drop_first();
        assert("stop"@ != "status"@ && "stop"@ != "regenerate"@ && "status"@ != "regenerate"@) by {
            reveal_strlit("stop");
            reveal_strlit("status");
            reveal_strlit("regenerate");
            assert("stop"@.len() == 4 && "status"@.len() == 6 && "regenerate"@.len() == 10);
        }
        law_merge_takes_in_both(state.pending, targets, id);
        if targets.contains(id) {
            let k = targets.index_of(id);
            assert(ws[k + 1] == id);
        }
        if exists|k: int| 1 <= k < ws.len() && #[trigger] ws[k] == id {
            let k = choose|k: int| 1 <= k < ws.len() && #[trigger] ws[k] == id;
            assert(targets[k - 1] == id);
        }
    }
}

} // verus!
