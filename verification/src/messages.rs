//! What the daemon reports of its own work.
use crate::control::RegenerateScope;
use crate::ids::IdSet;
use crate::text::{
    decimal, join, join_texts, law_join_splits_anywhere, lemma_occurs, occurs, push_decimal,
};
use vstd::prelude::*;

verus! {

/// What a daemon was started with.
pub struct StartInfo {
    pub pid: u32,
    pub socket: String,
    pub model: String,
    pub poll_secs: u64,
    pub delay_secs: u64,
    pub capture_lines: usize,
    pub hash_lines: usize,
}

/// What is reported when the daemon starts.
pub open spec fn start_message(info: StartInfo) -> Seq<char> {
    "tmux-ai-titles: starting (pid="@ + decimal(info.pid as nat) + ", socket="@ + info.socket@
        + ", model="@ + info.model@ + ", poll="@ + decimal(info.poll_secs as nat)
        + "s, regen_delay="@ + decimal(info.delay_secs as nat) + "s, capture="@ + decimal(
        info.capture_lines as nat,
    ) + ", hash="@ + decimal(info.hash_lines as nat) + ")"@
}

/// What is reported when the daemon starts.
pub fn start_text(info: &StartInfo) -> (res: String)
    ensures
        res@ == start_message(*info),
{
    let mut out = "tmux-ai-titles: starting (pid=".to_owned();
    push_decimal(&mut out, info.pid as u64);
    out.append(", socket=");
    out.append(info.socket.as_str());
    out.append(", model=");
    out.append(info.model.as_str());
    out.append(", poll=");
    push_decimal(&mut out, info.poll_secs);
    out.append("s, regen_delay=");
    push_decimal(&mut out, info.delay_secs);
    out.append("s, capture=");
    push_decimal(&mut out, info.capture_lines as u64);
    out.append(", hash=");
    push_decimal(&mut out, info.hash_lines as u64);
    out.append(")");
    out
}

/// What is reported when the daemon stops because it was asked to.
pub fn stop_text() -> (res: String)
    ensures
        res@ == "tmux-ai-titles: stop requested, shutting down"@,
{
    "tmux-ai-titles: stop requested, shutting down".to_owned()
}

/// What is reported when new titles were asked for: that all are, or which.
pub open spec fn regenerate_message(scope: RegenerateScope) -> Seq<char> {
    match scope {
        RegenerateScope::All => "tmux-ai-titles: regenerate requested for all panes/windows"@,
        RegenerateScope::Specific(ids) => "tmux-ai-titles: regenerate requested for "@ + join(
            ids.listed(),
            " "@,
        ),
    }
}

/// What is reported when new titles were asked for.
pub fn regenerate_text(scope: &RegenerateScope) -> (res: String)
    ensures
        res@ == regenerate_message(*scope),
{
    match scope {
        RegenerateScope::All => {
            "tmux-ai-titles: regenerate requested for all panes/windows".to_owned()
        },
        RegenerateScope::Specific(ids) => {
            let mut out = "tmux-ai-titles: regenerate requested for ".to_owned();
            let list = ids.to_vec();
            out.append(join_texts(&list, " ").as_str());
            out
        },
    }
}

/// What is reported when a pane got a title.
pub fn pane_text(pane_id: &str, title: &str) -> (res: String)
    ensures
        res@ == "pane "@ + pane_id@ + " -> "@ + title@,
{
    let mut out = "pane ".to_owned();
    out.append(pane_id);
    out.append(" -> ");
    out.append(title);
    out
}

/// What is reported when a window got a title.
pub fn window_text(window_id: &str, title: &str) -> (res: String)
    ensures
        res@ == "window "@ + window_id@ + " -> "@ + title@,
{
    let mut out = "window ".to_owned();
    out.append(window_id);
    out.append(" -> ");
    out.append(title);
    out
}

/// What is reported of a regeneration of some panes and windows names each of them, whole, and has
/// a single space between each two.
pub proof fn law_regeneration_names_every_id(ids: IdSet, i: int)
    requires
        0 <= i < ids.listed().len(),
    ensures
        occurs(regenerate_message(RegenerateScope::Specific(ids)), ids.listed()[i]),
        ids.listed().len() == 1 ==> regenerate_message(RegenerateScope::Specific(ids))
            == "tmux-ai-titles: regenerate requested for "@ + ids.listed()[0],
        0 < i ==> regenerate_message(RegenerateScope::Specific(ids))
            == "tmux-ai-titles: regenerate requested for "@ + join(ids.listed().take(i), " "@)
            + " "@ + join(ids.listed().skip(i), " "@),
{
    let list = ids.listed();
    let front = "tmux-ai-titles: regenerate requested for "@;
    let all = join(list, " "@);
    let (a, b) = (list.take(i), list.skip(i));
    let (x, y) = (seq![list[i]], list.skip(i + 1));
    assert(list =~= a + b);
    assert(b =~= x + y);
    law_join_splits_anywhere(a, b, " "@);
    law_join_splits_anywhere(x, y, " "@);
    law_join_splits_anywhere(list, y, " "@);
    let before = if i == 0 {
        front
    } else {
        front + join(a, " "@) + " "@
    };
    let behind = if y.len() == 0 {
        Seq::<char>::empty()
    } else {
        " "@ + join(y, " "@)
    };
    if i == 0 {
        assert(a + b =~= b);
    }
    if y.len() == 0 {
        assert(x + y =~= x);
    }
    assert(front + all =~= before + list[i] + behind);
    lemma_occurs(before, list[i], behind);
    if i > 0 {
        assert(front + all =~= front + join(a, " "@) + " "@ + join(b, " "@));
    }
}

proof fn lemma_occurs_longer(s: Seq<char>, more: Seq<char>, part: Seq<char>)
    requires
        occurs(s, part),
    ensures
        occurs(s + more, part),
{
    let i = choose|i: int|
        0 <= i && i + part.len() <= s.len() && #[trigger] s.subrange(i, i + part.len()) == part;
    assert((s + more).subrange(i, i + part.len()) =~= part);
}

proof fn lemma_occurs_three(before: Seq<char>, a: Seq<char>, b: Seq<char>, c: Seq<char>)
    ensures
        occurs(before + a + b + c, a + b + c),
{
    let none = Seq::<char>::empty();
    assert(before + a + b + c =~= before + (a + b + c) + none);
    lemma_occurs(before, a + b + c, none);
}

/// What is reported when the daemon starts tells everything that it was started with.
pub proof fn law_start_tells_everything(info: StartInfo)
    ensures
        occurs(
            start_message(info),
            "tmux-ai-titles: starting (pid="@ + decimal(info.pid as nat) + ", socket="@,
        ),
        occurs(start_message(info), ", socket="@ + info.socket@ + ", model="@),
        occurs(start_message(info), ", model="@ + info.model@ + ", poll="@),
        occurs(
            start_message(info),
            ", poll="@ + decimal(info.poll_secs as nat) + "s, regen_delay="@,
        ),
        occurs(
            start_message(info),
            "s, regen_delay="@ + decimal(info.delay_secs as nat) + "s, capture="@,
        ),
        occurs(
            start_message(info),
            "s, capture="@ + decimal(info.capture_lines as nat) + ", hash="@,
        ),
        occurs(start_message(info), ", hash="@ + decimal(info.hash_lines as nat) + ")"@),
{
    let none = Seq::<char>::empty();
    let s1 = "tmux-ai-titles: starting (pid="@;
    let s2 = s1 + decimal(info.pid as nat);
    let s3 = s2 + ", socket="@;
    let s4 = s3 + info.socket@;
    let s5 = s4 + ", model="@;
    let s6 = s5 + info.model@;
    let s7 = s6 + ", poll="@;
    let s8 = s7 + decimal(info.poll_secs as nat);
    let s9 = s8 + "s, regen_delay="@;
    let s10 = s9 + decimal(info.delay_secs as nat);
    let s11 = s10 + "s, capture="@;
    let s12 = s11 + decimal(info.capture_lines as nat);
    let s13 = s12 + ", hash="@;
    let s14 = s13 + decimal(info.hash_lines as nat);
    let s15 = s14 + ")"@;
    assert(none + s1 =~= s1);
    lemma_occurs_three(
        none,
        "tmux-ai-titles: starting (pid="@,
        decimal(info.pid as nat),
        ", socket="@,
    );
    let part = "tmux-ai-titles: starting (pid="@ + decimal(info.pid as nat) + ", socket="@;
    lemma_occurs_longer(s3, info.socket@, part);
    lemma_occurs_longer(s4, ", model="@, part);
    lemma_occurs_longer(s5, info.model@, part);
    lemma_occurs_longer(s6, ", poll="@, part);
    lemma_occurs_longer(s7, decimal(info.poll_secs as nat), part);
    lemma_occurs_longer(s8, "s, regen_delay="@, part);
    lemma_occurs_longer(s9, decimal(info.delay_secs as nat), part);
    lemma_occurs_longer(s10, "s, capture="@, part);
    lemma_occurs_longer(s11, decimal(info.capture_lines as nat), part);
    lemma_occurs_longer(s12, ", hash="@, part);
    lemma_occurs_longer(s13, decimal(info.hash_lines as nat), part);
    lemma_occurs_longer(s14, ")"@, part);
    lemma_occurs_three(s2, ", socket="@, info.socket@, ", model="@);
    let part = ", socket="@ + info.socket@ + ", model="@;
    lemma_occurs_longer(s5, info.model@, part);
    lemma_occurs_longer(s6, ", poll="@, part);
    lemma_occurs_longer(s7, decimal(info.poll_secs as nat), part);
    lemma_occurs_longer(s8, "s, regen_delay="@, part);
    lemma_occurs_longer(s9, decimal(info.delay_secs as nat), part);
    lemma_occurs_longer(s10, "s, capture="@, part);
    lemma_occurs_longer(s11, decimal(info.capture_lines as nat), part);
    lemma_occurs_longer(s12, ", hash="@, part);
    lemma_occurs_longer(s13, decimal(info.hash_lines as nat), part);
    lemma_occurs_longer(s14, ")"@, part);
    lemma_occurs_three(s4, ", model="@, info.model@, ", poll="@);
    let part = ", model="@ + info.model@ + ", poll="@;
    lemma_occurs_longer(s7, decimal(info.poll_secs as nat), part);
    lemma_occurs_longer(s8, "s, regen_delay="@, part);
    lemma_occurs_longer(s9, decimal(info.delay_secs as nat), part);
    lemma_occurs_longer(s10, "s, capture="@, part);
    lemma_occurs_longer(s11, decimal(info.capture_lines as nat), part);
    lemma_occurs_longer(s12, ", hash="@, part);
    lemma_occurs_longer(s13, decimal(info.hash_lines as nat), part);
    lemma_occurs_longer(s14, ")"@, part);
    lemma_occurs_three(s6, ", poll="@, decimal(info.poll_secs as nat), "s, regen_delay="@);
    let part = ", poll="@ + decimal(info.poll_secs as nat) + "s, regen_delay="@;
    lemma_occurs_longer(s9, decimal(info.delay_secs as nat), part);
    lemma_occurs_longer(s10, "s, capture="@, part);
    lemma_occurs_longer(s11, decimal(info.capture_lines as nat), part);
    lemma_occurs_longer(s12, ", hash="@, part);
    lemma_occurs_longer(s13, decimal(info.hash_lines as nat), part);
    lemma_occurs_longer(s14, ")"@, part);
    lemma_occurs_three(s8, "s, regen_delay="@, decimal(info.delay_secs as nat), "s, capture="@);
    let part = "s, regen_delay="@ + decimal(info.delay_secs as nat) + "s, capture="@;
    lemma_occurs_longer(s11, decimal(info.capture_lines as nat), part);
    lemma_occurs_longer(s12, ", hash="@, part);
    lemma_occurs_longer(s13, decimal(info.hash_lines as nat), part);
    lemma_occurs_longer(s14, ")"@, part);
    lemma_occurs_three(s10, "s, capture="@, decimal(info.capture_lines as nat), ", hash="@);
    let part = "s, capture="@ + decimal(info.capture_lines as nat) + ", hash="@;
    lemma_occurs_longer(s13, decimal(info.hash_lines as nat), part);
    lemma_occurs_longer(s14, ")"@, part);
    lemma_occurs_three(s12, ", hash="@, decimal(info.hash_lines as nat), ")"@);
}

} // verus!
