//! Windows as groups of panes: what is told apart from cycle to cycle, and what a title is made of.
use crate::ids::IdSet;
use crate::text::{
    decimal, join, join_texts, law_decimal_reads_back, law_join_splits_anywhere,
    law_joined_lines_read_back, lines, push_decimal, same_text, texts,
};
use crate::tmux::{models, PaneInfo, PaneModel};
use vstd::prelude::*;

verus! {

/// A pane with its title, as a part of its window.
pub struct TitledPane {
    pub window: Seq<char>,
    pub title: Seq<char>,
    pub cwd: Seq<char>,
    /// Whether the pane's own title is being generated.
    pub busy: bool,
}

/// The panes with their titles, each busy or not.
pub open spec fn titled(
    panes: Seq<PaneModel>,
    titles: Seq<Seq<char>>,
    busy: Seq<bool>,
) -> Seq<TitledPane> {
    Seq::new(
        panes.len(),
        |i: int|
            TitledPane {
                window: panes[i].window_id,
                title: titles[i],
                cwd: panes[i].cwd,
                busy: busy[i],
            },
    )
}

/// The windows of the panes, each once, in the order in which they first occur.
pub open spec fn window_ids(panes: Seq<PaneModel>) -> Seq<Seq<char>>
    decreases panes.len(),
{
    if panes.len() == 0 {
        Seq::empty()
    } else {
        let ids = window_ids(panes.drop_last());
        if ids.contains(panes.last().window_id) {
            ids
        } else {
            ids.push(panes.last().window_id)
        }
    }
}

/// The panes of one window.
pub open spec fn members(list: Seq<TitledPane>, window: Seq<char>) -> Seq<TitledPane> {
    list.filter(|p: TitledPane| p.window == window)
}

/// The panes that a window's title can be made of: those that have a title and are not getting a
/// new one.
pub open spec fn ready(group: Seq<TitledPane>) -> Seq<TitledPane> {
    group.filter(|p: TitledPane| p.title.len() > 0 && !p.busy)
}

/// The title and directory of each pane.
pub open spec fn labels(group: Seq<TitledPane>) -> Seq<Seq<char>> {
    Seq::new(group.len(), |i: int| group[i].title + " "@ + group[i].cwd)
}

/// The text by which a change in a window is noticed: the title and directory of each pane.
pub open spec fn summary(group: Seq<TitledPane>) -> Seq<char> {
    join(labels(group), ", "@)
}

/// The panes as a numbered list.
pub open spec fn numbered(group: Seq<TitledPane>) -> Seq<Seq<char>> {
    Seq::new(
        group.len(),
        |i: int|
            decimal((i + 1) as nat) + ". "@ + group[i].title + " (cwd: "@ + group[i].cwd + ")"@,
    )
}

/// What the model is given for a window: the panes that are ready, as a numbered list.
pub open spec fn window_input_text(group: Seq<TitledPane>) -> Seq<char> {
    join(numbered(ready(group)), "\n"@)
}

/// The windows of the panes, each once, in the order in which they first occur.
pub fn list_windows(panes: &Vec<PaneInfo>) -> (res: Vec<String>)
    ensures
        texts(res@) == window_ids(models(panes@)),
{
    let ghost list = models(panes@);
    let mut ids = IdSet::new();
    let mut i: usize = 0;
    assert(ids.listed() =~= window_ids(list.take(0)));
    while i < panes.len()
        invariant
            i <= panes@.len(),
            list == models(panes@),
            ids.wf(),
            ids@ == ids.listed().to_set(),
            ids.listed() == window_ids(list.take(i as int)),
        decreases panes@.len() - i,
    {
        let ghost before = ids.listed();
        let _ = ids.insert(panes[i].window_id.as_str());
        proof {
            assert(list.take(i + 1).drop_last() =~= list.take(i as int));
            assert(list.take(i + 1).last() == list[i as int]);
            before.lemma_push_to_set_commute(list[i as int].window_id);
            assert(ids@ =~= ids.listed().to_set());
        }
        i = i + 1;
    }
    assert(list.take(i as int) =~= list);
    ids.to_vec()
}

/// What a window's panes say together.
pub struct WindowTexts {
    /// The text by which a change is noticed.
    pub summary: String,
    /// What the model is given, where any pane is ready.
    pub input: Option<String>,
}

/// What the panes of `window` say together, given the title of each pane and whether it is busy.
pub fn window_texts(
    panes: &Vec<PaneInfo>,
    titles: &Vec<String>,
    busy: &Vec<bool>,
    window: &str,
) -> (res: WindowTexts)
    requires
        panes@.len() == titles@.len() == busy@.len(),
    ensures
        ({
            let group = members(titled(models(panes@), texts(titles@), busy@), window@);
            &&& res.summary@ == summary(group)
            &&& match res.input {
                Some(input) => ready(group).len() > 0 && input@ == window_input_text(group),
                None => ready(group).len() == 0,
            }
        }),
{
    let ghost list = titled(models(panes@), texts(titles@), busy@);
    let mut parts: Vec<String> = Vec::new();
    let mut entries: Vec<String> = Vec::new();
    let mut i: usize = 0;
    let ghost mine = |p: TitledPane| p.window == window@;
    let ghost usable = |p: TitledPane| p.title.len() > 0 && !p.busy;
    proof {
        reveal(Seq::filter);
        assert(list.take(0).filter(mine) =~= Seq::empty());
        assert(list.take(0).filter(mine).filter(usable) =~= Seq::empty());
        assert(texts(parts@) =~= labels(list.take(0).filter(mine)));
        assert(texts(entries@) =~= numbered(list.take(0).filter(mine).filter(usable)));
    }
    while i < panes.len()
        invariant
            i <= panes@.len(),
            list.len() == panes@.len() == titles@.len() == busy@.len(),
            forall|j: int|
                0 <= j < panes@.len() ==> #[trigger] list[j] == (TitledPane {
                    window: panes@[j].window_id@,
                    title: titles@[j]@,
                    cwd: panes@[j].cwd@,
                    busy: busy@[j],
                }),
            mine == (|p: TitledPane| p.window == window@),
            usable == (|p: TitledPane| p.title.len() > 0 && !p.busy),
            texts(parts@) == labels(list.take(i as int).filter(mine)),
            texts(entries@) == numbered(list.take(i as int).filter(mine).filter(usable)),
            entries@.len() <= i,
        decreases panes@.len() - i,
    {
        let ghost front = list.take(i as int);
        let ghost p = list[i as int];
        proof {
            assert(list.take(i + 1) =~= front.push(p));
            front.lemma_filter_push(p, mine);
        }
        if same_text(panes[i].window_id.as_str(), window) {
            let ghost group = front.filter(mine);
            let ghost old_parts = texts(parts@);
            let ghost old_entries = texts(entries@);
            let title = titles[i].as_str();
            let cwd = panes[i].cwd.as_str();
            let mut part = title.to_owned();
            part.append(" ");
            part.append(cwd);
            parts.push(part);
            proof {
                group.lemma_filter_push(p, usable);
                assert(texts(parts@) =~= old_parts.push(part@));
                assert(labels(group.push(p)) =~= labels(group).push(part@));
            }
            if !title.is_empty() && !busy[i] {
                let mut entry = String::new();
                push_decimal(&mut entry, entries.len() as u64 + 1);
                entry.append(". ");
                entry.append(title);
                entry.append(" (cwd: ");
                entry.append(cwd);
                entry.append(")");
                entries.push(entry);
                proof {
                    let r = group.filter(usable);
                    assert(texts(entries@) =~= old_entries.push(entry@));
                    assert(entry@ =~= decimal((r.len() + 1) as nat) + ". "@ + p.title + " (cwd: "@
                        + p.cwd + ")"@);
                    assert(numbered(r.push(p)) =~= numbered(r).push(entry@));
                }
            }
        }
        i = i + 1;
    }
    proof {
        assert(list.take(i as int) =~= list);
        assert(list.filter(mine) == members(list, window@));
        assert(list.filter(mine).filter(usable) == ready(members(list, window@)));
        assert(texts(entries@).len() == ready(members(list, window@)).len());
    }
    let input = if entries.len() > 0 {
        Some(join_texts(&entries, "\n"))
    } else {
        None
    };
    WindowTexts { summary: join_texts(&parts, ", "), input }
}

/// Each window is considered once in a cycle, and every pane's window is considered.
pub proof fn law_each_window_once(panes: Seq<PaneModel>)
    ensures
        window_ids(panes).no_duplicates(),
        forall|i: int|
            0 <= i < panes.len() ==> window_ids(panes).contains((#[trigger] panes[i]).window_id),
    decreases panes.len(),
{
    if panes.len() > 0 {
        let front = panes.drop_last();
        law_each_window_once(front);
        let ids = window_ids(front);
        let w = panes.last().window_id;
        assert(ids.push(w)[ids.len() as int] == w);
        assert forall|i: int| 0 <= i < panes.len() implies window_ids(panes).contains(
            (#[trigger] panes[i]).window_id,
        ) by {
            if i < front.len() {
                assert(front[i] == panes[i]);
                assert(ids.contains(front[i].window_id));
                let k = ids.index_of(front[i].window_id);
                assert(ids.push(w)[k] == front[i].window_id);
            }
        }
    }
}

/// A window's title is made only of panes of that window that have a title and are not getting a
/// new one, and of all of those.
pub proof fn law_title_is_made_of_ready_panes(list: Seq<TitledPane>, window: Seq<char>)
    ensures
        forall|p: TitledPane| #[trigger]
            ready(members(list, window)).contains(p) <==> list.contains(p) && p.window == window
                && p.title.len() > 0 && !p.busy,
{
    let mine = |p: TitledPane| p.window == window;
    let usable = |p: TitledPane| p.title.len() > 0 && !p.busy;
    let group = list.filter(mine);
    assert forall|p: TitledPane| #[trigger]
        ready(members(list, window)).contains(p) <==> list.contains(p) && p.window == window
            && p.title.len() > 0 && !p.busy by {
        broadcast use vstd::seq_lib::group_filter_ensures;

        if group.filter(usable).contains(p) {
            group.lemma_filter_contains_rev(usable, p);
            list.lemma_filter_contains_rev(mine, p);
            let k = group.filter(usable).index_of(p);
            assert(usable(group.filter(usable)[k]));
            let j = group.index_of(p);
            assert(mine(group[j]));
        }
        if list.contains(p) && mine(p) && usable(p) {
            let i = list.index_of(p);
            assert(mine(list[i]));
            assert(group.contains(p));
            let j = group.index_of(p);
            assert(usable(group[j]));
            assert(group.filter(usable).contains(p));
        }
    }
}

/// Every pane counts with its own window, title and directory, and is busy as it is said to be.
pub proof fn law_panes_keep_their_titles(
    panes: Seq<PaneModel>,
    titles: Seq<Seq<char>>,
    busy: Seq<bool>,
    i: int,
)
    requires
        0 <= i < panes.len(),
    ensures
        titled(panes, titles, busy).len() == panes.len(),
        titled(panes, titles, busy)[i].window == panes[i].window_id,
        titled(panes, titles, busy)[i].title == titles[i],
        titled(panes, titles, busy)[i].cwd == panes[i].cwd,
        titled(panes, titles, busy)[i].busy == busy[i],
{
}

/// Every window that is considered is the window of some pane.
pub proof fn law_windows_are_those_of_panes(panes: Seq<PaneModel>, id: Seq<char>)
    requires
        window_ids(panes).contains(id),
    ensures
        exists|i: int| 0 <= i < panes.len() && (#[trigger] panes[i]).window_id == id,
    decreases panes.len(),
{
    let front = panes.drop_last();
    let ids = window_ids(front);
    let w = panes.last().window_id;
    if ids.contains(id) {
        law_windows_are_those_of_panes(front, id);
        let i = choose|i: int| 0 <= i < front.len() && (#[trigger] front[i]).window_id == id;
        assert(panes[i].window_id == id);
    } else {
        let k = window_ids(panes).index_of(id);
        if k < ids.len() {
            assert(ids[k] == id);
        }
        assert(panes[panes.len() - 1].window_id == id);
    }
}

/// Which panes belong to a window, and which of them are ready, is decided for each pane by
/// itself; their order is kept, and a pane that occurs twice counts twice.
pub proof fn law_panes_are_picked_one_by_one(
    a: Seq<TitledPane>,
    b: Seq<TitledPane>,
    p: TitledPane,
    window: Seq<char>,
)
    ensures
        members(a + b, window) == members(a, window) + members(b, window),
        members(seq![p], window) == if p.window == window {
            seq![p]
        } else {
            Seq::empty()
        },
        ready(a + b) == ready(a) + ready(b),
        ready(seq![p]) == if p.title.len() > 0 && !p.busy {
            seq![p]
        } else {
            Seq::empty()
        },
{
    let mine = |p: TitledPane| p.window == window;
    let usable = |p: TitledPane| p.title.len() > 0 && !p.busy;
    Seq::filter_distributes_over_add(a, b, mine);
    Seq::filter_distributes_over_add(a, b, usable);
    let none = Seq::<TitledPane>::empty();
    reveal(Seq::filter);
    assert(none.push(p) =~= seq![p]);
    none.lemma_filter_push(p, mine);
    none.lemma_filter_push(p, usable);
    assert(none.filter(mine) =~= none);
    assert(none.filter(usable) =~= none);
    assert(none.push(p) =~= seq![p]);
}

/// A window is summed up by all its panes: that of a single pane is its title, a space and its
/// directory, and those of two groups stand one behind the other with a comma between them.
pub proof fn law_summary_names_every_pane(a: Seq<TitledPane>, b: Seq<TitledPane>, p: TitledPane)
    ensures
        summary(seq![p]) == p.title + " "@ + p.cwd,
        a.len() > 0 && b.len() > 0 ==> summary(a + b) == summary(a) + ", "@ + summary(b),
{
    law_join_splits_anywhere(labels(seq![p]), Seq::empty(), ", "@);
    law_join_splits_anywhere(labels(a), labels(b), ", "@);
    assert(labels(a + b) =~= labels(a) + labels(b));
}

proof fn lemma_entry_is_line(number: nat, title: Seq<char>, cwd: Seq<char>)
    requires
        !title.contains('\n'),
        !cwd.contains('\n'),
    ensures
        ({
            let entry = decimal(number) + ". "@ + title + " (cwd: "@ + cwd + ")"@;
            entry.len() > 0 && !entry.contains('\n') && entry.last() != '\r'
        }),
{
    reveal_strlit(". ");
    reveal_strlit(" (cwd: ");
    reveal_strlit(")");
    law_decimal_reads_back(number);
    let d = decimal(number);
    let entry = d + ". "@ + title + " (cwd: "@ + cwd + ")"@;
    assert(entry.last() == ')');
    assert forall|i: int| 0 <= i < entry.len() implies entry[i] != '\n' by {
        let (n, t) = (d.len() as int, title.len() as int);
        if i < n {
            assert(entry[i] == d[i]);
        } else if i < n + 2 {
            assert(entry[i] == ". "@[i - n]);
        } else if i < n + 2 + t {
            assert(entry[i] == title[i - n - 2]);
        } else if i < n + 2 + t + 7 {
            assert(entry[i] == " (cwd: "@[i - n - 2 - t]);
        } else if i < n + 2 + t + 7 + cwd.len() {
            assert(entry[i] == cwd[i - n - 2 - t - 7]);
        }
    }
}

/// What the model is given for a window names every pane that is ready and no other, one on each
/// line and in order: its number from one on, its title and its directory.
pub proof fn law_window_input_lists_every_ready_pane(group: Seq<TitledPane>, i: int)
    requires
        forall|k: int|
            0 <= k < group.len() ==> !(#[trigger] group[k]).title.contains('\n')
                && !group[k].cwd.contains('\n'),
    ensures
        lines(window_input_text(group)).len() == ready(group).len(),
        0 <= i < ready(group).len() ==> lines(window_input_text(group))[i] == decimal(
            (i + 1) as nat,
        ) + ". "@ + ready(group)[i].title + " (cwd: "@ + ready(group)[i].cwd + ")"@,
{
    let list = ready(group);
    let usable = |p: TitledPane| p.title.len() > 0 && !p.busy;
    let entries = numbered(list);
    assert forall|k: int| 0 <= k < entries.len() implies (#[trigger] entries[k]).len() > 0
        && !entries[k].contains('\n') && entries[k].last() != '\r' by {
        assert(group.filter(usable).contains(list[k]));
        group.lemma_filter_contains_rev(usable, list[k]);
        let j = group.index_of(list[k]);
        assert(group[j] == list[k]);
        lemma_entry_is_line((k + 1) as nat, list[k].title, list[k].cwd);
    }
    law_joined_lines_read_back(entries);
}

proof fn lemma_none_ready()
    ensures
        ready(Seq::empty()).len() == 0,
{
    let none = Seq::<TitledPane>::empty();
    let p = TitledPane { window: seq![], title: seq![], cwd: seq![], busy: false };
    law_panes_are_picked_one_by_one(none, none, p, seq![]);
    assert(none + none =~= none);
}

proof fn lemma_ready_push(group: Seq<TitledPane>, p: TitledPane)
    ensures
        ready(group.push(p)) == if p.title.len() > 0 && !p.busy {
            ready(group).push(p)
        } else {
            ready(group)
        },
{
    let usable = |p: TitledPane| p.title.len() > 0 && !p.busy;
    group.lemma_filter_push(p, usable);
}

/// The entry of a pane in its window's input.
spec fn entry(number: nat, p: TitledPane) -> Seq<char> {
    decimal(number) + ". "@ + p.title + " (cwd: "@ + p.cwd + ")"@
}

proof fn lemma_numbered_push(list: Seq<TitledPane>, p: TitledPane)
    ensures
        join(numbered(list.push(p)), "\n"@) == if list.len() == 0 {
            entry(1, p)
        } else {
            join(numbered(list), "\n"@) + "\n"@ + entry(list.len() + 1, p)
        },
{
    let more = numbered(list.push(p));
    assert(more.last() == entry(list.len() + 1, p));
    assert(more.drop_last() =~= numbered(list));
}

/// Each ready pane adds its numbered entry at the end of the window's input, whatever its title
/// and directory hold, behind a line break where it is not the first; any other pane adds nothing.
pub proof fn law_each_ready_pane_adds_its_entry(group: Seq<TitledPane>, p: TitledPane)
    ensures
        window_input_text(Seq::empty()).len() == 0,
        p.title.len() == 0 || p.busy ==> window_input_text(group.push(p)) == window_input_text(
            group,
        ),
        p.title.len() > 0 && !p.busy && ready(group).len() == 0 ==> window_input_text(group.push(p))
            == decimal(1) + ". "@ + p.title + " (cwd: "@ + p.cwd + ")"@,
        p.title.len() > 0 && !p.busy && ready(group).len() > 0 ==> window_input_text(group.push(p))
            == window_input_text(group) + "\n"@ + (decimal(ready(group).len() + 1) + ". "@ + p.title
            + " (cwd: "@ + p.cwd + ")"@),
{
    lemma_none_ready();
    lemma_ready_push(group, p);
    lemma_numbered_push(ready(group), p);
}

/// Windows are considered in the order in which their first panes are listed: a further pane adds
/// its window at the end, unless another pane before it is in that window.
pub proof fn law_windows_keep_their_order(panes: Seq<PaneModel>, p: PaneModel)
    ensures
        window_ids(Seq::empty()) == Seq::<Seq<char>>::empty(),
        (exists|i: int| 0 <= i < panes.len() && (#[trigger] panes[i]).window_id == p.window_id)
            ==> window_ids(panes.push(p)) == window_ids(panes),
        (forall|i: int| 0 <= i < panes.len() ==> (#[trigger] panes[i]).window_id != p.window_id)
            ==> window_ids(panes.push(p)) == window_ids(panes).push(p.window_id),
{
    assert(panes.push(p).drop_last() =~= panes);
    law_each_window_once(panes);
    if window_ids(panes).contains(p.window_id) {
        law_windows_are_those_of_panes(panes, p.window_id);
    }
}

} // verus!
