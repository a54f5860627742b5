//! The wire protocol of the control socket: one request line, one response line.
use crate::text::{
    is_space, is_word, join, join_texts, law_join_splits_anywhere, law_words_are_maximal_runs,
    lemma_words_apart, lemma_words_first, same_text, split_words, texts, trim, trim_end,
    trim_start, trim_text, words,
};
use vstd::prelude::*;

verus! {

/// Wire protocol messages exchanged over the control socket. The daemon receives these; the
/// client encodes them.
pub enum Request {
    Stop,
    Regenerate(Vec<String>),
    Status,
}

/// A request whose targets are texts.
pub enum RequestModel {
    Stop,
    Regenerate(Seq<Seq<char>>),
    Status,
}

impl View for Request {
    type V = RequestModel;

    open spec fn view(&self) -> RequestModel {
        match self {
            Request::Stop => RequestModel::Stop,
            Request::Regenerate(targets) => RequestModel::Regenerate(texts(targets@)),
            Request::Status => RequestModel::Status,
        }
    }
}

/// Why a line is not a request.
pub enum ParseError {
    Empty,
    Unknown(String),
}

/// Why a line is not a request, with the unknown command as a text.
pub enum ParseErrorModel {
    Empty,
    Unknown(Seq<char>),
}

impl View for ParseError {
    type V = ParseErrorModel;

    open spec fn view(&self) -> ParseErrorModel {
        match self {
            ParseError::Empty => ParseErrorModel::Empty,
            ParseError::Unknown(command) => ParseErrorModel::Unknown(command@),
        }
    }
}

/// The request that `line` makes: its first word is the command, and the words behind
/// `regenerate` are the targets. Words behind another command are passed over.
pub open spec fn parsed(line: Seq<char>) -> Result<RequestModel, ParseErrorModel> {
    let ws = words(line);
    if ws.len() == 0 {
        Err(ParseErrorModel::Empty)
    } else if ws[0] == "stop"@ {
        Ok(RequestModel::Stop)
    } else if ws[0] == "status"@ {
        Ok(RequestModel::Status)
    } else if ws[0] == "regenerate"@ {
        Ok(RequestModel::Regenerate(ws.drop_first()))
    } else {
        Err(ParseErrorModel::Unknown(ws[0]))
    }
}

/// The text of a request.
pub open spec fn encoded(request: RequestModel) -> Seq<char> {
    match request {
        RequestModel::Stop => "stop"@,
        RequestModel::Status => "status"@,
        RequestModel::Regenerate(targets) => if targets.len() == 0 {
            "regenerate"@
        } else {
            "regenerate "@ + join(targets, " "@)
        },
    }
}

impl Request {
    /// The request that `line` makes.
    pub fn from_str(line: &str) -> (res: Result<Request, ParseError>)
        ensures
            match res {
                Ok(request) => parsed(line@) == Ok::<RequestModel, ParseErrorModel>(request@),
                Err(error) => parsed(line@) == Err::<RequestModel, ParseErrorModel>(error@),
            },
    {
        let mut parts = split_words(line);
        if parts.len() == 0 {
            return Err(ParseError::Empty);
        }
        let ghost all = texts(parts@);
        let command = parts.remove(0);
        assert(texts(parts@) =~= all.drop_first());
        if same_text(command.as_str(), "stop") {
            Ok(Request::Stop)
        } else if same_text(command.as_str(), "status") {
            Ok(Request::Status)
        } else if same_text(command.as_str(), "regenerate") {
            Ok(Request::Regenerate(parts))
        } else {
            Err(ParseError::Unknown(command))
        }
    }

    /// The text of the request.
    pub fn to_string(&self) -> (res: String)
        ensures
            res@ == encoded(self@),
    {
        match self {
            Request::Stop => "stop".to_owned(),
            Request::Status => "status".to_owned(),
            Request::Regenerate(targets) => {
                if targets.len() == 0 {
                    "regenerate".to_owned()
                } else {
                    let mut out = "regenerate ".to_owned();
                    out.append(join_texts(targets, " ").as_str());
                    out
                }
            },
        }
    }

    /// What a client sends: the request's text and a line break.
    pub fn to_line(&self) -> (res: String)
        ensures
            res@ == encoded(self@).push('\n'),
    {
        let mut out = self.to_string();
        out.push('\n');
        out
    }
}

/// The response that a line from the daemon carries.
pub fn response_of(line: &str) -> (res: String)
    ensures
        res@ == trim(line@),
{
    trim_text(line)
}

/// The words of each text, one text after another.
pub open spec fn words_of_all(list: Seq<Seq<char>>) -> Seq<Seq<char>>
    decreases list.len(),
{
    if list.len() == 0 {
        Seq::empty()
    } else {
        words_of_all(list.drop_last()) + words(list.last())
    }
}

proof fn lemma_words_of_join(list: Seq<Seq<char>>)
    ensures
        words(join(list, " "@)) == words_of_all(list),
    decreases list.len(),
{
    reveal_strlit(" ");
    assert(" "@ =~= seq![' ']);
    if list.len() == 0 {
    } else if list.len() == 1 {
        assert(words_of_all(list.drop_last()) =~= Seq::empty());
        assert(words_of_all(list) =~= words(list[0]));
    } else {
        lemma_words_of_join(list.drop_last());
        lemma_words_apart(join(list.drop_last(), " "@), ' ', list.last());
    }
}

proof fn lemma_words_of_words(list: Seq<Seq<char>>)
    requires
        forall|i: int| 0 <= i < list.len() ==> is_word(#[trigger] list[i]),
    ensures
        words_of_all(list) == list,
    decreases list.len(),
{
    if list.len() > 0 {
        lemma_words_of_words(list.drop_last());
        assert(is_word(list[list.len() - 1]));
        assert(list.last() + Seq::<char>::empty() =~= list.last());
        lemma_words_first(list.last(), Seq::empty());
        assert(words(list.last()) =~= seq![list.last()]);
        assert(words_of_all(list) =~= list);
    } else {
        assert(words_of_all(list) =~= list);
    }
}

proof fn lemma_words_trim_start(s: Seq<char>)
    ensures
        words(trim_start(s)) == words(s),
    decreases s.len(),
{
    if s.len() > 0 && is_space(s[0]) {
        lemma_words_trim_start(s.drop_first());
    }
}

proof fn lemma_words_trim_end(s: Seq<char>)
    ensures
        words(trim_end(s)) == words(s),
    decreases s.len(),
{
    if s.len() > 0 && is_space(s.last()) {
        lemma_words_trim_end(s.drop_last());
        lemma_words_apart(s.drop_last(), s.last(), Seq::empty());
        assert(s.drop_last() + seq![s.last()] + Seq::<char>::empty() =~= s);
        assert(words(s) =~= words(s.drop_last()));
    }
}

/// White space around a line does not change the request that it makes.
pub proof fn law_surrounding_space_is_ignored(line: Seq<char>)
    ensures
        parsed(trim(line)) == parsed(line),
        parsed(line.push('\n')) == parsed(line),
{
    lemma_words_trim_start(line);
    lemma_words_trim_end(trim_start(line));
    let nl = line.push('\n');
    assert(nl.drop_last() =~= line);
    assert(words(nl) == words(line)) by {
        lemma_words_apart(line, '\n', Seq::empty());
        assert(line + seq!['\n'] + Seq::<char>::empty() =~= nl);
        assert(words(line) + words(Seq::<char>::empty()) =~= words(line));
    }
}

/// Whatever the targets, the daemon reads a regeneration request whose targets are the words of
/// the targets that the client gave.
pub proof fn law_targets_arrive_as_words(targets: Seq<Seq<char>>)
    ensures
        parsed(encoded(RequestModel::Regenerate(targets))) == Ok::<RequestModel, ParseErrorModel>(
            RequestModel::Regenerate(words_of_all(targets)),
        ),
{
    reveal_strlit("stop");
    reveal_strlit("status");
    reveal_strlit("regenerate");
    reveal_strlit("regenerate ");
    let command = "regenerate"@;
    assert(is_word(command));
    let list = join(targets, " "@);
    if targets.len() == 0 {
        assert(command + Seq::<char>::empty() =~= command);
        lemma_words_first(command, Seq::empty());
        assert(words(command).drop_first() =~= words_of_all(targets));
    } else {
        assert("regenerate "@ + list =~= command + seq![' '] + list);
        lemma_words_apart(command, ' ', list);
        assert(command + Seq::<char>::empty() =~= command);
        lemma_words_first(command, Seq::empty());
        lemma_words_of_join(targets);
        let ws = words("regenerate "@ + list);
        assert(ws.drop_first() =~= words_of_all(targets));
        assert(ws[0] == command);
    }
    assert(command != "stop"@ && command != "status"@) by {
        assert(command.len() == 10 && "stop"@.len() == 4 && "status"@.len() == 6);
    }
}

/// What the client sends, the daemon reads back as the same request, from the text alone and from
/// the trimmed line, wherever each target is a word.
pub proof fn law_request_round_trip(request: RequestModel)
    requires
        request matches RequestModel::Regenerate(targets) ==> forall|i: int|
            0 <= i < targets.len() ==> is_word(#[trigger] targets[i]),
    ensures
        parsed(encoded(request)) == Ok::<RequestModel, ParseErrorModel>(request),
        parsed(trim(encoded(request).push('\n'))) == Ok::<RequestModel, ParseErrorModel>(request),
{
    law_surrounding_space_is_ignored(encoded(request).push('\n'));
    law_surrounding_space_is_ignored(encoded(request));
    match request {
        RequestModel::Regenerate(targets) => {
            law_targets_arrive_as_words(targets);
            lemma_words_of_words(targets);
        },
        RequestModel::Stop => {
            reveal_strlit("stop");
            assert("stop"@ + Seq::<char>::empty() =~= "stop"@);
            lemma_words_first("stop"@, Seq::empty());
        },
        RequestModel::Status => {
            reveal_strlit("status");
            reveal_strlit("stop");
            assert("status"@ + Seq::<char>::empty() =~= "status"@);
            lemma_words_first("status"@, Seq::empty());
            assert("status"@.len() == 6 && "stop"@.len() == 4);
        },
    }
}

/// The first word of a line decides what it is: a command, whatever white space stands around it,
/// or an unknown word, which is named whole. The words behind it are the targets, all of them, and
/// count only for a regeneration. A line without a word is empty.
pub proof fn law_first_word_decides(
    before: Seq<char>,
    command: Seq<char>,
    space: char,
    rest: Seq<char>,
)
    requires
        forall|i: int| 0 <= i < before.len() ==> is_space(#[trigger] before[i]),
        command.len() > 0,
        forall|i: int| 0 <= i < command.len() ==> !is_space(#[trigger] command[i]),
        is_space(space),
    ensures
        parsed(before) == Err::<RequestModel, ParseErrorModel>(ParseErrorModel::Empty),
        ({
            let bare = parsed(before + command);
            let full = parsed(before + (command + seq![space] + rest));
            &&& command == "stop"@ ==> bare == Ok::<RequestModel, ParseErrorModel>(
                RequestModel::Stop,
            ) && full == bare
            &&& command == "status"@ ==> bare == Ok::<RequestModel, ParseErrorModel>(
                RequestModel::Status,
            ) && full == bare
            &&& command == "regenerate"@ ==> bare == Ok::<RequestModel, ParseErrorModel>(
                RequestModel::Regenerate(Seq::empty()),
            ) && full == Ok::<RequestModel, ParseErrorModel>(
                RequestModel::Regenerate(words(rest)),
            )
            &&& command != "stop"@ && command != "status"@ && command != "regenerate"@ ==> bare
                == Err::<RequestModel, ParseErrorModel>(ParseErrorModel::Unknown(command)) && full
                == bare
        }),
    decreases before.len(),
{
    law_words_are_maximal_runs(command, space, rest);
    assert("stop"@ != "status"@ && "stop"@ != "regenerate"@ && "status"@ != "regenerate"@) by {
        reveal_strlit("stop");
        reveal_strlit("status");
        reveal_strlit("regenerate");
        assert("stop"@.len() == 4 && "status"@.len() == 6 && "regenerate"@.len() == 10);
    }
    if before.len() == 0 {
        assert(before =~= Seq::empty());
        assert(before + command =~= command);
        assert(before + (command + seq![space] + rest) =~= command + seq![space] + rest);
        assert(words(command).drop_first() =~= Seq::empty());
        let ws = words(command + seq![space] + rest);
        assert(ws.drop_first() =~= words(rest));
        assert(ws[0] == command);
    } else {
        let inner = before.drop_first();
        assert forall|i: int| 0 <= i < inner.len() implies is_space(#[trigger] inner[i]) by {
            assert(inner[i] == before[i + 1]);
        }
        law_first_word_decides(inner, command, space, rest);
        let tail = command + seq![space] + rest;
        assert(is_space(before[0]));
        law_words_are_maximal_runs(command, before[0], inner);
        law_words_are_maximal_runs(command, before[0], inner + command);
        law_words_are_maximal_runs(command, before[0], inner + tail);
        assert(before =~= seq![before[0]] + inner);
        assert(before + command =~= seq![before[0]] + (inner + command));
        assert(before + tail =~= seq![before[0]] + (inner + tail));
    }
}

/// The text of a regeneration request grows by a space and the target for each target, from the
/// bare command on.
pub proof fn law_each_target_is_encoded(targets: Seq<Seq<char>>, target: Seq<char>)
    ensures
        encoded(RequestModel::Regenerate(Seq::empty())) == "regenerate"@,
        encoded(RequestModel::Regenerate(targets.push(target))) == encoded(
            RequestModel::Regenerate(targets),
        ) + seq![' '] + target,
        encoded(RequestModel::Stop) == "stop"@,
        encoded(RequestModel::Status) == "status"@,
{
    reveal_strlit(" ");
    reveal_strlit("regenerate");
    reveal_strlit("regenerate ");
    assert(" "@ =~= seq![' ']);
    assert("regenerate "@ =~= "regenerate"@ + seq![' ']);
    let more = targets.push(target);
    assert(more =~= targets + seq![target]);
    law_join_splits_anywhere(targets, seq![target], " "@);
    law_join_splits_anywhere(seq![target], seq![target], " "@);
    if targets.len() == 0 {
        assert(more =~= seq![target]);
    }
    assert(encoded(RequestModel::Regenerate(more)) =~= encoded(RequestModel::Regenerate(targets))
        + seq![' '] + target);
}

/// A request and an error stand for what they hold: each for itself, with its own texts.
pub proof fn law_requests_stand_for_themselves(targets: Vec<String>, command: String, i: int)
    ensures
        Request::Stop@ == RequestModel::Stop,
        Request::Status@ == RequestModel::Status,
        Request::Regenerate(targets)@ matches RequestModel::Regenerate(list) && list.len()
            == targets@.len() && (0 <= i < targets@.len() ==> list[i] == targets@[i]@),
        ParseError::Empty@ == ParseErrorModel::Empty,
        ParseError::Unknown(command)@ == ParseErrorModel::Unknown(command@),
{
}

} // verus!
