//! Title generation: what the model is asked, how a title in the making is shown, and what is done
//! with the answer.
use crate::ids::IdMap;
use crate::text::{
    is_space, law_trim_empties_only_white_space, law_trim_takes_only_what_is_around, lemma_occurs,
    lossy, lossy_text, occurs, texts, trim, trim_text,
};
use vstd::prelude::*;
use vstd::utf8::{decode_utf8, valid_utf8};

verus! {

/// What the model is asked for a pane's title, up to the name of the tool that it may see at work
/// in a pane.
pub const PANE_PROMPT_HEAD: &'static str = "\
Generate a 4-5 word title for a tmux pane based on the terminal output, running command, \
and working directory provided below. The title should describe the most recent overarching \
task or activity. Weight the END of the output most heavily — that is the most recent \
activity. Earlier history may contain unrelated commands; ignore those unless they fit \
the current theme. Always prioritize terminal output content over the working directory. \
Only fall back to the directory name if the output is truly empty. \
The output may contain TUI formatting (unicode symbols, box-drawing characters) from tools \
like ";

/// What the model is asked for a pane's title, behind the name of the tool.
pub const PANE_PROMPT_TAIL: &'static str = "\
, vim, or other terminal apps — look past the formatting to understand \
the task being performed. \
Never use generic titles like \"Shell in X\" when there is meaningful output to describe. \
Never use words like \"idle\", \"awaiting\", or \"waiting\". \
Output ONLY the 4-5 word title. No quotes, no punctuation, no explanation.";

/// What the model is asked for a window's title.
pub const WINDOW_TITLE_PROMPT: &'static str = "\
Generate a 1-2 word tmux window title from these pane descriptions. \
The title should capture the project or theme — e.g. a window with panes doing \
Rust builds, editing source, and running tests might be titled \"Rust Dev\". \
Each entry includes the pane title and its working directory for context. \
Output ONLY the title. No quotes, no punctuation, no explanation.";

/// What the model is asked for a pane's title, where `tool_name` is the name of the tool that is
/// asked.
pub open spec fn pane_prompt(tool_name: Seq<char>) -> Seq<char> {
    PANE_PROMPT_HEAD@ + tool_name + PANE_PROMPT_TAIL@
}

/// What the model is asked for a pane's title, where `tool_name` is the name of the tool that is
/// asked.
pub fn pane_title_prompt(tool_name: &str) -> (res: String)
    ensures
        res@ == pane_prompt(tool_name@),
{
    let mut out = PANE_PROMPT_HEAD.to_owned();
    out.append(tool_name);
    out.append(PANE_PROMPT_TAIL);
    out
}

/// The number of frames of the spinner.
pub const SPINNER_LEN: usize = 10;

/// How long each frame of the spinner is shown, in milliseconds.
pub const SPINNER_MILLIS: u64 = 80;

/// The frames of the spinner.
pub open spec fn spinner_frames() -> Seq<Seq<char>> {
    seq!["⠋"@, "⠙"@, "⠚"@, "⠞"@, "⠖"@, "⠦"@, "⠴"@, "⠲"@, "⠳"@, "⠓"@]
}

/// The frame that is shown after `frame` others.
pub fn spinner_frame(frame: usize) -> (res: &'static str)
    ensures
        res@ == spinner_frames()[frame as int % SPINNER_LEN as int],
{
    match frame % SPINNER_LEN {
        0 => "⠋",
        1 => "⠙",
        2 => "⠚",
        3 => "⠞",
        4 => "⠖",
        5 => "⠦",
        6 => "⠴",
        7 => "⠲",
        8 => "⠳",
        _ => "⠓",
    }
}

/// The text of a string, if there is one.
pub open spec fn text_of(s: Option<String>) -> Option<Seq<char>> {
    match s {
        Some(t) => Some(t@),
        None => None,
    }
}

/// A frame of the spinner before the title that it stands in for, if there is one.
pub open spec fn spinning(frame: Seq<char>, title: Seq<char>) -> Seq<char> {
    if title.len() == 0 {
        frame
    } else {
        frame + " "@ + title
    }
}

/// The title to show while a new one is generated, after `frame` others, in place of `title`.
pub fn spinner_title(frame: usize, title: &str) -> (res: String)
    ensures
        res@ == spinning(spinner_frames()[frame as int % SPINNER_LEN as int], title@),
{
    let mut out = spinner_frame(frame).to_owned();
    if !title.is_empty() {
        out.append(" ");
        out.append(title);
    }
    out
}

/// What to show after `frame` others while a new title is generated in place of `title`: nothing
/// unless pane titles are set.
pub open spec fn spinner_to_show(set_title: bool, frame: nat, title: Seq<char>) -> Option<
    Seq<char>,
> {
    if set_title {
        Some(spinning(spinner_frames()[frame as int % SPINNER_LEN as int], title))
    } else {
        None
    }
}

/// What to show after `frame` others while a new title is generated in place of `title`: nothing
/// unless pane titles are set.
pub fn spinner_shown(set_title: bool, frame: usize, title: &str) -> (res: Option<String>)
    ensures
        text_of(res) == spinner_to_show(set_title, frame as nat, title@),
{
    if set_title {
        Some(spinner_title(frame, title))
    } else {
        None
    }
}

/// What is said of the surroundings of a pane: each known thing on a line of its own.
pub open spec fn context(title: Seq<char>, command: Seq<char>, cwd: Seq<char>) -> Seq<char> {
    labelled("Previous title (for context only, may be outdated): "@, title) + labelled(
        "Running command: "@,
        command,
    ) + labelled("Working directory: "@, cwd)
}

/// A line with `text` behind `label`; nothing where the text is empty.
pub open spec fn labelled(label: Seq<char>, text: Seq<char>) -> Seq<char> {
    if text.len() == 0 {
        Seq::empty()
    } else {
        label + text + "\n"@
    }
}

/// What the model is given for a pane: its surroundings, an empty line, and the fenced buffer.
pub open spec fn pane_input_text(
    title: Seq<char>,
    command: Seq<char>,
    cwd: Seq<char>,
    buffer: Seq<char>,
) -> Seq<char> {
    let around = context(title, command, cwd);
    let fenced = "```\n"@ + buffer + "\n```"@;
    if around.len() == 0 {
        fenced
    } else {
        around + "\n"@ + fenced
    }
}

/// Appends a line with `text` behind `label`, unless the text is empty.
fn push_labelled(out: &mut String, label: &str, text: &str)
    ensures
        final(out)@ == old(out)@ + labelled(label@, text@),
{
    if !text.is_empty() {
        out.append(label);
        out.append(text);
        out.append("\n");
    }
    assert(out@ =~= old(out)@ + labelled(label@, text@));
}

/// What the model is given for a pane.
pub fn pane_input(title: &str, command: &str, cwd: &str, buffer: &str) -> (res: String)
    ensures
        res@ == pane_input_text(title@, command@, cwd@, buffer@),
{
    let mut out = String::new();
    push_labelled(&mut out, "Previous title (for context only, may be outdated): ", title);
    push_labelled(&mut out, "Running command: ", command);
    push_labelled(&mut out, "Working directory: ", cwd);
    assert(out@ =~= context(title@, command@, cwd@));
    if !out.as_str().is_empty() {
        out.append("\n");
    }
    out.append("```\n");
    out.append(buffer);
    out.append("\n```");
    assert(out@ =~= pane_input_text(title@, command@, cwd@, buffer@));
    out
}

/// The arguments with which the model's command line tool is asked `prompt`.
pub fn model_args(model: &str, prompt: &str) -> (res: Vec<String>)
    ensures
        texts(res@) == seq!["-p"@, "--model"@, model@, prompt@],
{
    let res = vec!["-p".to_owned(), "--model".to_owned(), model.to_owned(), prompt.to_owned()];
    assert(texts(res@) =~= seq!["-p"@, "--model"@, model@, prompt@]);
    res
}

/// The arguments with which the tool is asked for a pane's title.
pub fn pane_model_args(model: &str, tool_name: &str) -> (res: Vec<String>)
    ensures
        texts(res@) == seq!["-p"@, "--model"@, model@, pane_prompt(tool_name@)],
{
    let prompt = pane_title_prompt(tool_name);
    model_args(model, prompt.as_str())
}

/// The arguments with which the tool is asked for a window's title.
pub fn window_model_args(model: &str) -> (res: Vec<String>)
    ensures
        texts(res@) == seq!["-p"@, "--model"@, model@, WINDOW_TITLE_PROMPT@],
{
    model_args(model, WINDOW_TITLE_PROMPT)
}

/// The title in an answer, if the tool succeeded and said anything.
pub open spec fn title_of(success: bool, answer: Seq<char>) -> Option<Seq<char>> {
    if success && trim(answer).len() > 0 {
        Some(trim(answer))
    } else {
        None
    }
}

/// The title in an answer, if the tool succeeded and said anything.
pub fn title_of_answer(success: bool, answer: &str) -> (res: Option<String>)
    ensures
        match res {
            Some(title) => title_of(success, answer@) == Some(title@),
            None => title_of(success, answer@) is None,
        },
{
    let title = trim_text(answer);
    if success && !title.as_str().is_empty() {
        Some(title)
    } else {
        None
    }
}

/// The title that the tool printed on its standard output, if it succeeded and said anything.
pub fn title_of_output(success: bool, stdout: &[u8]) -> (res: Option<String>)
    ensures
        match res {
            Some(title) => title_of(success, lossy(stdout@)) == Some(title@),
            None => title_of(success, lossy(stdout@)) is None,
        },
        valid_utf8(stdout@) ==> lossy(stdout@) == decode_utf8(stdout@),
{
    let answer = lossy_text(stdout);
    title_of_answer(success, answer.as_str())
}

/// The title that was generated for `pane_id`; empty where there is none.
pub fn known_title(titles: &IdMap<String>, pane_id: &str) -> (res: String)
    requires
        titles.wf(),
    ensures
        res@ == if titles@.contains_key(pane_id@) {
            titles@[pane_id@]@
        } else {
            Seq::empty()
        },
{
    match titles.get(pane_id) {
        Some(title) => title.clone(),
        None => String::new(),
    }
}

/// The title that a generation takes as the previous one: where pane titles are set, the one that
/// tmux shows; otherwise the one that was generated last.
pub fn previous_title(
    set_title: bool,
    shown: &str,
    titles: &IdMap<String>,
    pane_id: &str,
) -> (res: String)
    requires
        titles.wf(),
    ensures
        res@ == if set_title {
            shown@
        } else if titles@.contains_key(pane_id@) {
            titles@[pane_id@]@
        } else {
            Seq::empty()
        },
{
    if set_title {
        shown.to_owned()
    } else {
        known_title(titles, pane_id)
    }
}

/// The title that a pane counts with in its window: the one that was generated for it, else the
/// one that tmux shows.
pub fn title_in_window(titles: &IdMap<String>, pane_id: &str, shown: &str) -> (res: String)
    requires
        titles.wf(),
    ensures
        res@ == if titles@.contains_key(pane_id@) {
            titles@[pane_id@]@
        } else {
            shown@
        },
{
    match titles.get(pane_id) {
        Some(title) => title.clone(),
        None => shown.to_owned(),
    }
}

/// What to show once a generation in place of `current` has ended: the new title, or `current`
/// where there is none; nothing unless pane titles are set.
pub open spec fn title_to_show(
    set_title: bool,
    current: Seq<char>,
    title: Option<Seq<char>>,
) -> Option<Seq<char>> {
    if !set_title {
        None
    } else {
        match title {
            Some(t) => Some(t),
            None => Some(current),
        }
    }
}

/// The generated titles once a generation for `pane_id` has ended.
pub open spec fn titles_after(
    titles: Map<Seq<char>, String>,
    pane_id: Seq<char>,
    title: Option<String>,
) -> Map<Seq<char>, String> {
    match title {
        Some(t) => titles.insert(pane_id, t),
        None => titles,
    }
}

/// Ends the generation of a pane's title in place of `current`: a new title is kept. The result
/// is the title to show, so that no frame of the spinner is left.
pub fn finish_pane(
    titles: &mut IdMap<String>,
    pane_id: &str,
    current: &str,
    title: Option<String>,
    set_title: bool,
) -> (res: Option<String>)
    requires
        old(titles).wf(),
    ensures
        final(titles).wf(),
        final(titles)@ == titles_after(old(titles)@, pane_id@, title),
        text_of(res) == title_to_show(set_title, current@, text_of(title)),
{
    let shown = if set_title {
        match &title {
            Some(t) => Some(t.clone()),
            None => Some(current.to_owned()),
        }
    } else {
        None
    };
    if let Some(t) = title {
        titles.insert(pane_id, t);
    }
    shown
}

/// The spinner leaves the existing title as it was: a generation that gives no title ends with
/// the title from before it, and every frame in between ends with that title.
pub proof fn law_spinner_preserves_the_title(current: Seq<char>, frame: nat)
    ensures
        title_to_show(true, current, None) == Some(current),
        current.len() > 0 ==> (" "@ + current).is_suffix_of(
            spinner_to_show(true, frame, current)->0,
        ),
{
    if current.len() > 0 {
        let mark = spinner_frames()[frame as int % SPINNER_LEN as int];
        let tail = " "@ + current;
        assert(mark + " "@ + current =~= mark + tail);
        assert((mark + tail).subrange(mark.len() as int, (mark + tail).len() as int) =~= tail);
    }
}

/// Without pane titles nothing is ever shown in a pane, neither a frame of the spinner nor a
/// title, and still every title that is generated is kept, for the window to be titled by.
pub proof fn law_without_pane_titles_they_are_only_kept(
    titles: Map<Seq<char>, String>,
    pane_id: Seq<char>,
    current: Seq<char>,
    frame: nat,
    title: Option<String>,
)
    ensures
        spinner_to_show(false, frame, current) is None,
        title_to_show(false, current, text_of(title)) is None,
        title matches Some(t) ==> titles_after(titles, pane_id, title).contains_key(pane_id)
            && titles_after(titles, pane_id, title)[pane_id] == t,
{
}

/// A new title is shown whole where pane titles are set and kept whole in any case; what was kept
/// for other panes stays, and a generation without a title changes nothing that is kept.
pub proof fn law_new_title_is_shown_and_kept(
    titles: Map<Seq<char>, String>,
    pane_id: Seq<char>,
    other: Seq<char>,
    current: Seq<char>,
    title: String,
)
    requires
        other != pane_id,
    ensures
        title_to_show(true, current, text_of(Some(title))) == Some(title@),
        titles_after(titles, pane_id, Some(title)).contains_key(pane_id),
        titles_after(titles, pane_id, Some(title))[pane_id] == title,
        titles_after(titles, pane_id, Some(title)).contains_key(other) == titles.contains_key(
            other,
        ),
        titles.contains_key(other) ==> titles_after(titles, pane_id, Some(title))[other]
            == titles[other],
        titles_after(titles, pane_id, None) == titles,
{
}

/// The title is the whole of what a successful answer says, without the white space around it; an
/// answer of white space alone, and one of a tool that failed, holds none.
pub proof fn law_title_is_the_whole_answer(
    before: Seq<char>,
    title: Seq<char>,
    behind: Seq<char>,
    other: Seq<char>,
)
    requires
        forall|i: int| 0 <= i < before.len() ==> is_space(#[trigger] before[i]),
        forall|i: int| 0 <= i < behind.len() ==> is_space(#[trigger] behind[i]),
        title.len() > 0,
        !is_space(title[0]),
        !is_space(title.last()),
    ensures
        title_of(true, before + title + behind) == Some(title),
        title_of(true, before) is None,
        title_of(false, other) is None,
{
    law_trim_takes_only_what_is_around(before, title, behind);
    law_trim_empties_only_white_space(before);
}

/// What the model is given for a pane ends with the fenced buffer, whole. Before it stand, each on
/// a line of its own, the previous title, the command and the directory: each of them wherever it
/// is not empty, whatever the others are, and nothing else but an empty line behind them.
pub proof fn law_pane_input_names_all_that_is_known(
    title: Seq<char>,
    command: Seq<char>,
    cwd: Seq<char>,
    buffer: Seq<char>,
)
    ensures
        ({
            let input = pane_input_text(title, command, cwd, buffer);
            let fenced = "```\n"@ + buffer + "\n```"@;
            let head = input.take(input.len() - fenced.len());
            let title_line = "Previous title (for context only, may be outdated): "@ + title
                + "\n"@;
            let command_line = "Running command: "@ + command + "\n"@;
            let cwd_line = "Working directory: "@ + cwd + "\n"@;
            let title_len: int = if title.len() > 0 { title_line.len() as int } else { 0 };
            let command_len: int = if command.len() > 0 { command_line.len() as int } else { 0 };
            let cwd_len: int = if cwd.len() > 0 { cwd_line.len() as int } else { 0 };
            let known = title_len + command_len + cwd_len;
            &&& input.len() >= fenced.len()
            &&& input == head + fenced
            &&& title.len() > 0 ==> title_line.is_prefix_of(head)
            &&& command.len() > 0 ==> occurs(head, command_line) && head.subrange(
                title_len,
                title_len + command_len,
            ) == command_line
            &&& cwd.len() > 0 ==> occurs(head, cwd_line) && head.subrange(
                title_len + command_len,
                known,
            ) == cwd_line
            &&& head.len() == if known == 0 {
                0
            } else {
                known + 1
            }
            &&& known > 0 ==> head.last() == '\n'
        }),
{
    reveal_strlit("\n");
    let input = pane_input_text(title, command, cwd, buffer);
    let fenced = "```\n"@ + buffer + "\n```"@;
    let head = input.take(input.len() - fenced.len());
    let t = labelled("Previous title (for context only, may be outdated): "@, title);
    let c = labelled("Running command: "@, command);
    let d = labelled("Working directory: "@, cwd);
    let around = context(title, command, cwd);
    let gap = if around.len() == 0 { Seq::<char>::empty() } else { "\n"@ };
    assert(around =~= t + c + d);
    assert(input =~= around + gap + fenced);
    assert(head =~= t + c + d + gap);
    assert(input =~= head + fenced);
    assert(t + c + d + gap =~= t + c + (d + gap));
    lemma_occurs(t, c, d + gap);
    lemma_occurs(t + c, d, gap);
    assert(head.subrange(t.len() as int, (t.len() + c.len()) as int) =~= c);
    assert(head.subrange((t.len() + c.len()) as int, (t.len() + c.len() + d.len()) as int) =~= d);
    assert(head.subrange(0, t.len() as int) =~= t);
}

/// The spinner comes round again after its frames, each of which is one character and unlike the
/// next; behind it stand a space and the title, or nothing where there is no title.
pub proof fn law_spinner_comes_round(frame: nat, title: Seq<char>)
    ensures
        spinner_to_show(true, frame + 10, title) == spinner_to_show(true, frame, title),
        spinner_to_show(true, frame, title)->0.len() == if title.len() == 0 {
            1
        } else {
            title.len() + 2
        },
        spinner_to_show(true, frame, title)->0[0] != spinner_to_show(true, frame + 1, title)->0[0],
        spinner_to_show(true, frame, title)->0[0] == spinner_to_show(true, frame, Seq::empty())->0[
        0],
{
    reveal_strlit("⠋");
    reveal_strlit("⠙");
    reveal_strlit("⠚");
    reveal_strlit("⠞");
    reveal_strlit("⠖");
    reveal_strlit("⠦");
    reveal_strlit("⠴");
    reveal_strlit("⠲");
    reveal_strlit("⠳");
    reveal_strlit("⠓");
    reveal_strlit(" ");
    let frames = spinner_frames();
    let k = frame as int % 10;
    assert((frame + 10) as int % 10 == k);
    assert((frame + 1) as int % 10 == if k == 9 {
        0
    } else {
        k + 1
    });
    assert(frames[k].len() == 1);
}

/// What the model is asked for a pane's title names the tool, between texts that do not depend on
/// it.
pub proof fn law_pane_prompt_names_the_tool(tool: Seq<char>, other: Seq<char>)
    ensures
        occurs(pane_prompt(tool), tool),
        pane_prompt(tool).take(PANE_PROMPT_HEAD@.len() as int) == PANE_PROMPT_HEAD@,
        pane_prompt(tool).skip((PANE_PROMPT_HEAD@.len() + tool.len()) as int) == PANE_PROMPT_TAIL@,
        pane_prompt(tool) == pane_prompt(other) ==> tool == other,
{
    let p = pane_prompt(tool);
    let q = pane_prompt(other);
    let n = PANE_PROMPT_HEAD@.len() as int;
    lemma_occurs(PANE_PROMPT_HEAD@, tool, PANE_PROMPT_TAIL@);
    assert(p.take(n) =~= PANE_PROMPT_HEAD@);
    assert(p.skip(n + tool.len()) =~= PANE_PROMPT_TAIL@);
    if p == q {
        assert(p.subrange(n, n + tool.len()) =~= tool);
        assert(q.subrange(n, n + other.len()) =~= other);
    }
}

/// The frames of the spinner are all different: two that are shown alike are whole rounds apart.
pub proof fn law_spinner_frames_differ(a: nat, b: nat, title: Seq<char>)
    ensures
        spinner_to_show(true, a, title) == spinner_to_show(true, b, title) <==> (a as int
            - b as int) % 10 == 0,
{
    reveal_strlit("⠋");
    reveal_strlit("⠙");
    reveal_strlit("⠚");
    reveal_strlit("⠞");
    reveal_strlit("⠖");
    reveal_strlit("⠦");
    reveal_strlit("⠴");
    reveal_strlit("⠲");
    reveal_strlit("⠳");
    reveal_strlit("⠓");
    let (i, j) = (a as int % 10, b as int % 10);
    assert(i == j <==> (a as int - b as int) % 10 == 0);
    let frames = spinner_frames();
    assert(frames[i].len() == 1 && frames[j].len() == 1);
    let (x, y) = (spinner_to_show(true, a, title)->0, spinner_to_show(true, b, title)->0);
    assert(x[0] == frames[i][0] && y[0] == frames[j][0]);
    if i != j {
        assert(frames[i][0] != frames[j][0]);
    }
}

/// A string that may be missing stands for its text where it is there.
pub proof fn law_text_stands_for_the_string(s: String)
    ensures
        text_of(Some(s)) == Some(s@),
        text_of(None) is None,
{
}

} // verus!
