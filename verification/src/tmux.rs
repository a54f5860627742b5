//! What tmux is asked, and what its answers say.
use crate::text::{
    decimal, decimal_value, fields, is_space, law_decimal_reads_back,
    law_lines_end_at_line_breaks, law_trim_empties_only_white_space, lemma_until, lines, lossy,
    lossy_text, push_decimal, split_fields, split_lines, texts, trim, trim_text,
};
use vstd::prelude::*;
use vstd::utf8::{decode_utf8, valid_utf8};

verus! {

/// A pane, the window that it belongs to, and what runs in it where.
pub struct PaneInfo {
    pub pane_id: String,
    pub window_id: String,
    pub cwd: String,
    pub command: String,
}

/// A pane over texts.
pub struct PaneModel {
    pub pane_id: Seq<char>,
    pub window_id: Seq<char>,
    pub cwd: Seq<char>,
    pub command: Seq<char>,
}

impl View for PaneInfo {
    type V = PaneModel;

    open spec fn view(&self) -> PaneModel {
        PaneModel {
            pane_id: self.pane_id@,
            window_id: self.window_id@,
            cwd: self.cwd@,
            command: self.command@,
        }
    }
}

/// The panes of a sequence, over texts.
pub open spec fn models(panes: Seq<PaneInfo>) -> Seq<PaneModel> {
    Seq::new(panes.len(), |i: int| panes[i]@)
}

/// The number of fields in a line of the pane list.
pub const PANE_FIELDS: usize = 4;

/// The `i`th of `parts`, empty where there are fewer.
pub open spec fn part_or_empty(parts: Seq<Seq<char>>, i: int) -> Seq<char> {
    if i < parts.len() {
        parts[i]
    } else {
        Seq::empty()
    }
}

/// The pane of a line of the pane list: the pane's id, its window's id, the command and the
/// directory, with tabs between them. A line without a tab lists no pane; a directory may hold
/// tabs.
pub open spec fn pane_of_line(line: Seq<char>) -> Option<PaneModel> {
    let parts = fields(line, '\t', PANE_FIELDS as nat);
    if parts.len() < 2 {
        None
    } else {
        Some(
            PaneModel {
                pane_id: parts[0],
                window_id: parts[1],
                command: part_or_empty(parts, 2),
                cwd: part_or_empty(parts, 3),
            },
        )
    }
}

/// The panes of the lines that list one, in order.
pub open spec fn panes_of_lines(list: Seq<Seq<char>>) -> Seq<PaneModel>
    decreases list.len(),
{
    if list.len() == 0 {
        Seq::empty()
    } else {
        match pane_of_line(list.last()) {
            Some(pane) => panes_of_lines(list.drop_last()).push(pane),
            None => panes_of_lines(list.drop_last()),
        }
    }
}

/// The pane of a line of the pane list, if it lists one.
pub fn parse_pane(line: &str) -> (res: Option<PaneInfo>)
    ensures
        match res {
            Some(pane) => pane_of_line(line@) == Some(pane@),
            None => pane_of_line(line@) is None,
        },
{
    let parts = split_fields(line, '\t', PANE_FIELDS);
    assert(texts(parts@) == fields(line@, '\t', PANE_FIELDS as nat));
    if parts.len() < 2 {
        return None;
    }
    let command = if parts.len() > 2 {
        parts[2].clone()
    } else {
        String::new()
    };
    let cwd = if parts.len() > 3 {
        parts[3].clone()
    } else {
        String::new()
    };
    Some(PaneInfo { pane_id: parts[0].clone(), window_id: parts[1].clone(), cwd, command })
}

/// The panes that the text of a pane list names.
pub fn parse_panes(text: &str) -> (res: Vec<PaneInfo>)
    ensures
        models(res@) == panes_of_lines(lines(text@)),
{
    let all = split_lines(text);
    let mut out: Vec<PaneInfo> = Vec::new();
    let mut i: usize = 0;
    assert(models(out@) =~= panes_of_lines(texts(all@).take(0)));
    while i < all.len()
        invariant
            i <= all@.len(),
            models(out@) == panes_of_lines(texts(all@).take(i as int)),
        decreases all@.len() - i,
    {
        let ghost before = models(out@);
        assert(texts(all@).take(i + 1).drop_last() =~= texts(all@).take(i as int));
        assert(texts(all@).take(i + 1).last() == all@[i as int]@);
        if let Some(pane) = parse_pane(all[i].as_str()) {
            out.push(pane);
            assert(models(out@) =~= before.push(pane@));
        }
        i = i + 1;
    }
    assert(texts(all@).take(i as int) =~= texts(all@));
    out
}

/// The panes that tmux listed on its standard output.
pub fn list_panes(stdout: &[u8]) -> (res: Vec<PaneInfo>)
    ensures
        models(res@) == panes_of_lines(lines(lossy(stdout@))),
        valid_utf8(stdout@) ==> lossy(stdout@) == decode_utf8(stdout@),
{
    let text = lossy_text(stdout);
    parse_panes(text.as_str())
}

/// The text of a captured buffer, if the capture succeeded and shows anything.
pub open spec fn captured(success: bool, content: Seq<char>) -> Option<Seq<char>> {
    if success && trim(content).len() > 0 {
        Some(content)
    } else {
        None
    }
}

/// The captured buffer, if the capture succeeded and shows anything.
pub fn capture_of(success: bool, content: String) -> (res: Option<String>)
    ensures
        match res {
            Some(buffer) => captured(success, content@) == Some(buffer@),
            None => captured(success, content@) is None,
        },
{
    if success && !trim_text(content.as_str()).as_str().is_empty() {
        Some(content)
    } else {
        None
    }
}

/// The buffer that tmux captured on its standard output, if it succeeded and shows anything.
pub fn capture_pane(success: bool, stdout: &[u8]) -> (res: Option<String>)
    ensures
        match res {
            Some(buffer) => captured(success, lossy(stdout@)) == Some(buffer@),
            None => captured(success, lossy(stdout@)) is None,
        },
        valid_utf8(stdout@) ==> lossy(stdout@) == decode_utf8(stdout@),
{
    capture_of(success, lossy_text(stdout))
}

/// The title that tmux showed on its standard output; empty where it could not be asked.
pub fn get_pane_title(stdout: Option<&[u8]>) -> (res: String)
    ensures
        match stdout {
            Some(bytes) => {
                &&& res@ == trim(lossy(bytes@))
                &&& valid_utf8(bytes@) ==> lossy(bytes@) == decode_utf8(bytes@)
            },
            None => res@ == Seq::<char>::empty(),
        },
{
    match stdout {
        Some(bytes) => {
            let text = lossy_text(bytes);
            trim_text(text.as_str())
        },
        None => String::new(),
    }
}

/// The first line to capture: `lines` above the visible ones, as a negative number. A number of
/// lines beyond the signed range wraps around.
pub open spec fn start_text(lines: nat) -> Seq<char> {
    if lines == 0 {
        "0"@
    } else if lines <= i64::MAX {
        "-"@ + decimal(lines)
    } else {
        decimal((u64::MAX - lines + 1) as nat)
    }
}

/// The text of the first line to capture. The one number whose negative does not fit the signed
/// range is left out.
fn capture_start(lines: usize) -> (res: String)
    requires
        lines != 0x8000_0000_0000_0000,
    ensures
        res@ == start_text(lines as nat),
{
    let n: u64 = lines as u64;
    if n == 0 {
        "0".to_owned()
    } else if n <= i64::MAX as u64 {
        let mut out = "-".to_owned();
        push_decimal(&mut out, n);
        out
    } else {
        let mut out = String::new();
        push_decimal(&mut out, u64::MAX - n + 1);
        assert(out@ =~= decimal((u64::MAX - n + 1) as nat));
        out
    }
}

/// The arguments with which tmux lists all panes.
pub fn list_panes_args() -> (res: Vec<String>)
    ensures
        texts(res@) == seq![
            "list-panes"@,
            "-a"@,
            "-F"@,
            "#{pane_id}\t#{window_id}\t#{pane_current_command}\t#{pane_current_path}"@,
        ],
{
    let res = vec![
        "list-panes".to_owned(),
        "-a".to_owned(),
        "-F".to_owned(),
        "#{pane_id}\t#{window_id}\t#{pane_current_command}\t#{pane_current_path}".to_owned(),
    ];
    assert(texts(res@) =~= seq![
        "list-panes"@,
        "-a"@,
        "-F"@,
        "#{pane_id}\t#{window_id}\t#{pane_current_command}\t#{pane_current_path}"@,
    ]);
    res
}

/// The arguments with which tmux prints a pane's buffer from `lines` lines above on.
pub fn capture_pane_args(pane_id: &str, lines: usize) -> (res: Vec<String>)
    requires
        lines != 0x8000_0000_0000_0000,
    ensures
        texts(res@) == seq![
            "capture-pane"@,
            "-t"@,
            pane_id@,
            "-p"@,
            "-S"@,
            start_text(lines as nat),
        ],
{
    let res = vec![
        "capture-pane".to_owned(),
        "-t".to_owned(),
        pane_id.to_owned(),
        "-p".to_owned(),
        "-S".to_owned(),
        capture_start(lines),
    ];
    assert(texts(res@) =~= seq![
        "capture-pane"@,
        "-t"@,
        pane_id@,
        "-p"@,
        "-S"@,
        start_text(lines as nat),
    ]);
    res
}

/// The arguments with which tmux gives a pane a title.
pub fn set_pane_title_args(pane_id: &str, title: &str) -> (res: Vec<String>)
    ensures
        texts(res@) == seq!["select-pane"@, "-t"@, pane_id@, "-T"@, title@],
{
    let res = vec![
        "select-pane".to_owned(),
        "-t".to_owned(),
        pane_id.to_owned(),
        "-T".to_owned(),
        title.to_owned(),
    ];
    assert(texts(res@) =~= seq!["select-pane"@, "-t"@, pane_id@, "-T"@, title@]);
    res
}

/// The arguments with which tmux gives a window a title.
pub fn set_window_title_args(window_id: &str, title: &str) -> (res: Vec<String>)
    ensures
        texts(res@) == seq!["rename-window"@, "-t"@, window_id@, title@],
{
    let res = vec![
        "rename-window".to_owned(),
        "-t".to_owned(),
        window_id.to_owned(),
        title.to_owned(),
    ];
    assert(texts(res@) =~= seq!["rename-window"@, "-t"@, window_id@, title@]);
    res
}

/// The arguments with which tmux shows a pane's title.
pub fn get_pane_title_args(pane_id: &str) -> (res: Vec<String>)
    ensures
        texts(res@) == seq!["display-message"@, "-t"@, pane_id@, "-p"@, "#{pane_title}"@],
{
    let res = vec![
        "display-message".to_owned(),
        "-t".to_owned(),
        pane_id.to_owned(),
        "-p".to_owned(),
        "#{pane_title}".to_owned(),
    ];
    assert(texts(res@) =~= seq!["display-message"@, "-t"@, pane_id@, "-p"@, "#{pane_title}"@]);
    res
}

/// The line in which tmux lists a pane.
pub open spec fn line_of_pane(pane: PaneModel) -> Seq<char> {
    pane.pane_id + seq!['\t'] + (pane.window_id + seq!['\t'] + (pane.command + seq!['\t']
        + pane.cwd))
}

proof fn lemma_first_field(front: Seq<char>, rest: Seq<char>, limit: nat)
    requires
        limit > 1,
        !front.contains('\t'),
    ensures
        fields(front + seq!['\t'] + rest, '\t', limit) == seq![front] + fields(
            rest,
            '\t',
            (limit - 1) as nat,
        ),
{
    let whole = front + seq!['\t'] + rest;
    assert(whole =~= front + (seq!['\t'] + rest));
    lemma_until(front, seq!['\t'] + rest, '\t');
    assert(whole.take(front.len() as int) =~= front);
    assert(whole.skip(front.len() as int + 1) =~= rest);
}

/// A listed pane is read back as it is, whatever its directory is called, wherever no tab stands
/// in its ids and command.
pub proof fn law_pane_line_round_trip(pane: PaneModel)
    requires
        !pane.pane_id.contains('\t'),
        !pane.window_id.contains('\t'),
        !pane.command.contains('\t'),
    ensures
        pane_of_line(line_of_pane(pane)) == Some(pane),
{
    let third = pane.command + seq!['\t'] + pane.cwd;
    let second = pane.window_id + seq!['\t'] + third;
    lemma_first_field(pane.pane_id, second, 4);
    lemma_first_field(pane.window_id, third, 3);
    lemma_first_field(pane.command, pane.cwd, 2);
    let parts = fields(line_of_pane(pane), '\t', PANE_FIELDS as nat);
    assert(fields(pane.cwd, '\t', 1) == seq![pane.cwd]);
    assert(parts =~= seq![pane.pane_id, pane.window_id, pane.command, pane.cwd]);
}

/// A line without a tab lists no pane; one with fewer fields lists a pane of which the rest is not
/// known.
pub proof fn law_short_lines(id: Seq<char>, window: Seq<char>, command: Seq<char>)
    requires
        !id.contains('\t'),
        !window.contains('\t'),
        !command.contains('\t'),
    ensures
        pane_of_line(id) is None,
        pane_of_line(id + seq!['\t'] + window) == Some(
            PaneModel {
                pane_id: id,
                window_id: window,
                cwd: Seq::empty(),
                command: Seq::empty(),
            },
        ),
        pane_of_line(id + seq!['\t'] + (window + seq!['\t'] + command)) == Some(
            PaneModel { pane_id: id, window_id: window, cwd: Seq::empty(), command },
        ),
{
    let rest = window + seq!['\t'] + command;
    assert(id + Seq::<char>::empty() =~= id);
    lemma_until(id, Seq::empty(), '\t');
    lemma_first_field(id, window, 4);
    assert(window + Seq::<char>::empty() =~= window);
    lemma_until(window, Seq::empty(), '\t');
    lemma_first_field(id, rest, 4);
    lemma_first_field(window, command, 3);
    assert(command + Seq::<char>::empty() =~= command);
    lemma_until(command, Seq::empty(), '\t');
    let two = fields(id + seq!['\t'] + window, '\t', 4);
    assert(two =~= seq![id, window]);
    let three = fields(id + seq!['\t'] + rest, '\t', 4);
    assert(three =~= seq![id, window, command]);
}

/// Every line counts for itself: the panes of two lists of lines are those of the first and then
/// those of the second, and a single line gives the pane that it lists.
pub proof fn law_panes_line_by_line(a: Seq<Seq<char>>, b: Seq<Seq<char>>, line: Seq<char>)
    ensures
        panes_of_lines(a + b) == panes_of_lines(a) + panes_of_lines(b),
        panes_of_lines(seq![line]) == match pane_of_line(line) {
            Some(pane) => seq![pane],
            None => Seq::empty(),
        },
    decreases b.len(),
{
    assert(seq![line].drop_last() =~= Seq::empty());
    assert(panes_of_lines(Seq::<Seq<char>>::empty()) =~= Seq::empty());
    assert(panes_of_lines(seq![line]) =~= match pane_of_line(line) {
        Some(pane) => seq![pane],
        None => Seq::empty(),
    });
    if b.len() == 0 {
        assert(a + b =~= a);
        assert(panes_of_lines(a) + panes_of_lines(b) =~= panes_of_lines(a));
    } else {
        assert((a + b).drop_last() =~= a + b.drop_last());
        law_panes_line_by_line(a, b.drop_last(), line);
        assert(panes_of_lines(a + b) =~= panes_of_lines(a) + panes_of_lines(b));
    }
}

/// What tmux prints for panes: a line for each.
pub open spec fn listing(panes: Seq<PaneModel>) -> Seq<char>
    decreases panes.len(),
{
    if panes.len() == 0 {
        Seq::empty()
    } else {
        line_of_pane(panes[0]) + seq!['\n'] + listing(panes.drop_first())
    }
}

/// Whether a pane can be told from its line: no tab in its ids and command, no line break, and no
/// carriage return at its end.
pub open spec fn is_listable(pane: PaneModel) -> bool {
    &&& !pane.pane_id.contains('\t')
    &&& !pane.window_id.contains('\t')
    &&& !pane.command.contains('\t')
    &&& !line_of_pane(pane).contains('\n')
    &&& line_of_pane(pane).last() != '\r'
}

/// All panes that tmux prints are read back, each as it is and in the same order.
pub proof fn law_listing_round_trip(panes: Seq<PaneModel>)
    requires
        forall|i: int| 0 <= i < panes.len() ==> is_listable(#[trigger] panes[i]),
    ensures
        panes_of_lines(lines(listing(panes))) == panes,
    decreases panes.len(),
{
    if panes.len() == 0 {
        law_lines_end_at_line_breaks(Seq::empty(), Seq::empty());
        assert(panes_of_lines(lines(listing(panes))) =~= panes);
    } else {
        let line = line_of_pane(panes[0]);
        let rest = panes.drop_first();
        assert forall|i: int| 0 <= i < rest.len() implies is_listable(#[trigger] rest[i]) by {
            assert(rest[i] == panes[i + 1]);
        }
        assert(is_listable(panes[0]));
        law_listing_round_trip(rest);
        law_lines_end_at_line_breaks(line, listing(rest));
        law_panes_line_by_line(seq![line], lines(listing(rest)), line);
        law_pane_line_round_trip(panes[0]);
        assert(panes_of_lines(lines(listing(panes))) =~= panes);
    }
}

/// A capture that succeeded and shows anything but white space is taken whole; any other is none.
pub proof fn law_capture_is_whole_or_none(success: bool, content: Seq<char>)
    ensures
        captured(success, content) == if success && exists|i: int|
            0 <= i < content.len() && !is_space(#[trigger] content[i]) {
            Some(content)
        } else {
            None
        },
{
    law_trim_empties_only_white_space(content);
}

/// The first line to capture is a number: the negative of the number of lines.
pub proof fn law_capture_starts_that_many_lines_above(lines: nat)
    requires
        0 < lines <= i64::MAX,
    ensures
        start_text(lines)[0] == '-',
        decimal_value(start_text(lines).drop_first()) == lines,
        start_text(0) == "0"@,
{
    reveal_strlit("-");
    assert(start_text(lines).drop_first() =~= decimal(lines));
    law_decimal_reads_back(lines);
}

/// A number of lines beyond the signed range wraps around: it and the first line to capture make
/// up the whole range.
pub proof fn law_capture_start_wraps_around(lines: nat)
    requires
        0x8000_0000_0000_0000 < lines <= u64::MAX,
    ensures
        decimal_value(start_text(lines)) + lines == 0x1_0000_0000_0000_0000,
{
    law_decimal_reads_back((u64::MAX - lines + 1) as nat);
}

/// A pane stands for its own texts, and a sequence of panes for each of them in order.
pub proof fn law_panes_stand_for_their_texts(panes: Seq<PaneInfo>, i: int)
    requires
        0 <= i < panes.len(),
    ensures
        models(panes).len() == panes.len(),
        models(panes)[i].pane_id == panes[i].pane_id@,
        models(panes)[i].window_id == panes[i].window_id@,
        models(panes)[i].cwd == panes[i].cwd@,
        models(panes)[i].command == panes[i].command@,
        panes[i]@ == models(panes)[i],
{
}

} // verus!
