//! The decisions of a polling cycle: which panes and windows get a new title, and from what.
use crate::control::{RegenerateScope, ScopeModel};
use crate::hash::{hash_buffer, hash_str, last_lines, list_hash, text_hash};
use crate::ids::{IdMap, IdSet};
use crate::text::texts;
use crate::time::{Duration, Instant};
use crate::tmux::{models, PaneInfo, PaneModel};
use crate::tracker::ChangeTracker;
use crate::windows::{
    law_title_is_made_of_ready_panes, list_windows, members, ready, summary, titled, window_ids,
    window_input_text, window_texts, TitledPane,
};
use vstd::prelude::*;

verus! {

/// What the main loop remembers from one cycle to the next: a tracker for each pane and window
/// that it has seen, and the ids of those whose title is being generated.
pub struct Daemon {
    pane_states: IdMap<ChangeTracker>,
    window_states: IdMap<ChangeTracker>,
    in_flight: IdSet,
}

/// What the main loop remembers, over texts.
pub struct DaemonModel {
    pub panes: Map<Seq<char>, ChangeTracker>,
    pub windows: Map<Seq<char>, ChangeTracker>,
    pub in_flight: Set<Seq<char>>,
}

impl View for Daemon {
    type V = DaemonModel;

    closed spec fn view(&self) -> DaemonModel {
        DaemonModel {
            panes: self.pane_states@,
            windows: self.window_states@,
            in_flight: self.in_flight@,
        }
    }
}

/// The trackers once new titles of what `scope` takes in were asked for.
pub open spec fn requested(
    states: Map<Seq<char>, ChangeTracker>,
    scope: ScopeModel,
) -> Map<Seq<char>, ChangeTracker> {
    Map::new(
        |id: Seq<char>| states.contains_key(id),
        |id: Seq<char>|
            if scope.covers(id) {
                states[id].reset()
            } else {
                states[id]
            },
    )
}

/// The tracker of `id` once content with this hash was seen at `now`.
pub open spec fn observed(
    states: Map<Seq<char>, ChangeTracker>,
    id: Seq<char>,
    hash: u64,
    now: Instant,
) -> ChangeTracker {
    if states.contains_key(id) {
        states[id].seen(hash, now)
    } else {
        ChangeTracker::first_seen(hash, now)
    }
}

/// The ids of the panes.
pub open spec fn pane_ids(panes: Seq<PaneModel>) -> Set<Seq<char>> {
    Set::new(|id: Seq<char>| exists|i: int| 0 <= i < panes.len() && #[trigger] panes[i].pane_id == id)
}

/// The ids of the windows that the panes belong to.
pub open spec fn window_id_set(panes: Seq<PaneModel>) -> Set<Seq<char>> {
    Set::new(
        |id: Seq<char>| exists|i: int| 0 <= i < panes.len() && #[trigger] panes[i].window_id == id,
    )
}

impl DaemonModel {
    /// The state once the generation for `id` has ended.
    pub open spec fn reaped(self, id: Seq<char>) -> DaemonModel {
        DaemonModel { in_flight: self.in_flight.remove(id), ..self }
    }

    /// The state once new titles of what `scope` takes in were asked for.
    pub open spec fn regenerating(self, scope: ScopeModel) -> DaemonModel {
        DaemonModel {
            panes: requested(self.panes, scope),
            windows: requested(self.windows, scope),
            ..self
        }
    }

    /// The state without what no longer exists.
    pub open spec fn without_closed(self, panes: Seq<PaneModel>) -> DaemonModel {
        DaemonModel {
            panes: self.panes.restrict(pane_ids(panes)),
            windows: self.windows.restrict(window_id_set(panes)),
            ..self
        }
    }

    /// Whether a title generation starts for the pane `id` whose content has this hash: a title
    /// is due, and none is being generated.
    pub open spec fn pane_starts(self, id: Seq<char>, hash: u64, now: Instant, delay: nat) -> bool {
        observed(self.panes, id, hash, now).due(now@, delay) && !self.in_flight.contains(id)
    }

    /// The state once content with this hash was seen in the pane `id`.
    pub open spec fn pane_visited(
        self,
        id: Seq<char>,
        hash: u64,
        now: Instant,
        delay: nat,
    ) -> DaemonModel {
        let tracker = observed(self.panes, id, hash, now);
        if self.pane_starts(id, hash, now, delay) {
            DaemonModel {
                panes: self.panes.insert(id, tracker.generated(now)),
                in_flight: self.in_flight.insert(id),
                ..self
            }
        } else {
            DaemonModel { panes: self.panes.insert(id, tracker), ..self }
        }
    }
}

/// A window whose title is to be generated, and what the model is given for it.
pub struct WindowJob {
    pub window_id: String,
    pub input: String,
}

/// A window whose title is to be generated, over texts.
pub struct JobModel {
    pub window_id: Seq<char>,
    pub input: Seq<char>,
}

impl View for WindowJob {
    type V = JobModel;

    open spec fn view(&self) -> JobModel {
        JobModel { window_id: self.window_id@, input: self.input@ }
    }
}

/// The jobs of a sequence, over texts.
pub open spec fn job_models(jobs: Seq<WindowJob>) -> Seq<JobModel> {
    Seq::new(jobs.len(), |i: int| jobs[i]@)
}

/// Which panes' titles are being generated.
pub open spec fn busy_panes(panes: Seq<PaneModel>, in_flight: Set<Seq<char>>) -> Seq<bool> {
    Seq::new(panes.len(), |i: int| in_flight.contains(panes[i].pane_id))
}

impl DaemonModel {
    /// Whether a title generation starts for the window `id` of the panes `group`: a title is
    /// due, there is a pane to make it of, and none is being generated.
    pub open spec fn window_starts(
        self,
        id: Seq<char>,
        group: Seq<TitledPane>,
        now: Instant,
        delay: nat,
    ) -> bool {
        &&& observed(self.windows, id, text_hash(summary(group)), now).due(now@, delay)
        &&& ready(group).len() > 0
        &&& !self.in_flight.contains(id)
    }

    /// The state once the window `id` was looked at.
    pub open spec fn window_visited(
        self,
        id: Seq<char>,
        group: Seq<TitledPane>,
        now: Instant,
        delay: nat,
    ) -> DaemonModel {
        let tracker = observed(self.windows, id, text_hash(summary(group)), now);
        if self.window_starts(id, group, now, delay) {
            DaemonModel {
                windows: self.windows.insert(id, tracker.generated(now)),
                in_flight: self.in_flight.insert(id),
                ..self
            }
        } else {
            DaemonModel { windows: self.windows.insert(id, tracker), ..self }
        }
    }

    /// The state once the windows `ids` were looked at one after another.
    pub open spec fn windows_visited(
        self,
        list: Seq<TitledPane>,
        ids: Seq<Seq<char>>,
        now: Instant,
        delay: nat,
    ) -> DaemonModel
        decreases ids.len(),
    {
        if ids.len() == 0 {
            self
        } else {
            self.windows_visited(list, ids.drop_last(), now, delay).window_visited(
                ids.last(),
                members(list, ids.last()),
                now,
                delay,
            )
        }
    }

    /// The windows among `ids` for which a generation starts, looked at one after another.
    pub open spec fn window_jobs(
        self,
        list: Seq<TitledPane>,
        ids: Seq<Seq<char>>,
        now: Instant,
        delay: nat,
    ) -> Seq<JobModel>
        decreases ids.len(),
    {
        if ids.len() == 0 {
            Seq::empty()
        } else {
            let group = members(list, ids.last());
            let jobs = self.window_jobs(list, ids.drop_last(), now, delay);
            let before = self.windows_visited(list, ids.drop_last(), now, delay);
            if before.window_starts(ids.last(), group, now, delay) {
                jobs.push(JobModel { window_id: ids.last(), input: window_input_text(group) })
            } else {
                jobs
            }
        }
    }

    /// The state once the windows `ids` were looked at, where window titles are wanted.
    pub open spec fn windows_visited_if(
        self,
        window_titles: bool,
        list: Seq<TitledPane>,
        ids: Seq<Seq<char>>,
        now: Instant,
        delay: nat,
    ) -> DaemonModel {
        if window_titles {
            self.windows_visited(list, ids, now, delay)
        } else {
            self
        }
    }

    /// The windows among `ids` for which a generation starts, where window titles are wanted.
    pub open spec fn window_jobs_if(
        self,
        window_titles: bool,
        list: Seq<TitledPane>,
        ids: Seq<Seq<char>>,
        now: Instant,
        delay: nat,
    ) -> Seq<JobModel> {
        if window_titles {
            self.window_jobs(list, ids, now, delay)
        } else {
            Seq::empty()
        }
    }
}

impl Daemon {
    /// No id occurs twice.
    pub closed spec fn wf(self) -> bool {
        self.pane_states.wf() && self.window_states.wf() && self.in_flight.wf()
    }

    /// A daemon that has seen nothing.
    pub fn new() -> (res: Self)
        ensures
            res.wf(),
            res@ == (DaemonModel {
                panes: Map::empty(),
                windows: Map::empty(),
                in_flight: Set::empty(),
            }),
    {
        Daemon { pane_states: IdMap::new(), window_states: IdMap::new(), in_flight: IdSet::new() }
    }

    /// Notes that the generation for `id` has ended.
    pub fn reap(&mut self, id: &str)
        requires
            old(self).wf(),
        ensures
            final(self).wf(),
            final(self)@ == old(self)@.reaped(id@),
    {
        self.in_flight.remove(id);
    }

    /// Asks for new titles of what `scope` takes in.
    pub fn regenerate(&mut self, scope: &RegenerateScope)
        requires
            old(self).wf(),
        ensures
            final(self).wf(),
            final(self)@ == old(self)@.regenerating(scope@),
    {
        request_titles(&mut self.pane_states, scope);
        request_titles(&mut self.window_states, scope);
    }

    /// Forgets the panes and windows that no longer exist, and the titles of such panes.
    pub fn forget_closed(&mut self, panes: &Vec<PaneInfo>, titles: &mut IdMap<String>)
        requires
            old(self).wf(),
            old(titles).wf(),
        ensures
            final(self).wf(),
            final(self)@ == old(self)@.without_closed(models(panes@)),
            final(titles).wf(),
            final(titles)@ == old(titles)@.restrict(pane_ids(models(panes@))),
    {
        let mut open_panes = IdSet::new();
        let mut open_windows = IdSet::new();
        let mut i: usize = 0;
        assert(pane_ids(models(panes@).take(0)) =~= Set::empty());
        assert(window_id_set(models(panes@).take(0)) =~= Set::empty());
        while i < panes.len()
            invariant
                i <= panes@.len(),
                open_panes.wf(),
                open_windows.wf(),
                open_panes@ == pane_ids(models(panes@).take(i as int)),
                open_windows@ == window_id_set(models(panes@).take(i as int)),
            decreases panes@.len() - i,
        {
            let _ = open_panes.insert(panes[i].pane_id.as_str());
            let _ = open_windows.insert(panes[i].window_id.as_str());
            proof {
                let front = models(panes@).take(i as int);
                let p = panes@[i as int]@;
                assert(models(panes@).take(i + 1) =~= front.push(p));
                lemma_ids_push(front, p);
            }
            i = i + 1;
        }
        assert(models(panes@).take(i as int) =~= models(panes@));
        self.pane_states.retain(&open_panes);
        self.window_states.retain(&open_windows);
        titles.retain(&open_panes);
    }

    /// Looks at what was captured of a pane. The result says whether a title generation starts.
    pub fn visit_pane(
        &mut self,
        pane_id: &str,
        capture: &Option<String>,
        hash_lines: usize,
        now: Instant,
        regen_delay: Duration,
    ) -> (res: bool)
        requires
            old(self).wf(),
        ensures
            final(self).wf(),
            match capture {
                Some(buffer) => {
                    let hash = list_hash(last_lines(buffer@, hash_lines as nat));
                    &&& res == old(self)@.pane_starts(pane_id@, hash, now, regen_delay@)
                    &&& final(self)@ == old(self)@.pane_visited(
                        pane_id@,
                        hash,
                        now,
                        regen_delay@,
                    )
                },
                None => !res && *final(self) == *old(self),
            },
    {
        match capture {
            None => false,
            Some(buffer) => {
                let hash: u64 = hash_buffer(buffer.as_str(), hash_lines);
                let mut tracker = observe(&self.pane_states, pane_id, hash, now);
                let start = tracker.should_generate(now, regen_delay) && self.in_flight.insert(
                    pane_id,
                );
                if start {
                    tracker.mark_generated(now);
                }
                self.pane_states.insert(pane_id, tracker);
                assert(!start ==> self.in_flight@ =~= old(self).in_flight@);
                start
            },
        }
    }

    /// Looks at a window, given the text by which a change in it is noticed and what the model is
    /// to be given for it, where any of its panes is ready. The result says whether a title
    /// generation starts.
    fn visit_window(
        &mut self,
        window_id: &str,
        text: &str,
        has_input: bool,
        now: Instant,
        regen_delay: Duration,
        Ghost(group): Ghost<Seq<TitledPane>>,
    ) -> (res: bool)
        requires
            old(self).wf(),
            text@ == summary(group),
            has_input == (ready(group).len() > 0),
        ensures
            final(self).wf(),
            res == old(self)@.window_starts(window_id@, group, now, regen_delay@),
            final(self)@ == old(self)@.window_visited(window_id@, group, now, regen_delay@),
    {
        let hash: u64 = hash_str(text);
        let mut tracker = observe(&self.window_states, window_id, hash, now);
        let start = tracker.should_generate(now, regen_delay) && has_input
            && self.in_flight.insert(window_id);
        if start {
            tracker.mark_generated(now);
        }
        self.window_states.insert(window_id, tracker);
        assert(!start ==> self.in_flight@ =~= old(self).in_flight@);
        start
    }

    /// Looks at the windows of all panes, given the title of each pane. The result lists the
    /// windows for which a title generation starts.
    pub fn visit_windows(
        &mut self,
        panes: &Vec<PaneInfo>,
        titles: &Vec<String>,
        now: Instant,
        regen_delay: Duration,
    ) -> (res: Vec<WindowJob>)
        requires
            old(self).wf(),
            titles@.len() == panes@.len(),
        ensures
            final(self).wf(),
            ({
                let all = models(panes@);
                let list = titled(
                    all,
                    texts(titles@),
                    busy_panes(all, old(self)@.in_flight),
                );
                &&& final(self)@ == old(self)@.windows_visited(
                    list,
                    window_ids(all),
                    now,
                    regen_delay@,
                )
                &&& job_models(res@) == old(self)@.window_jobs(
                    list,
                    window_ids(all),
                    now,
                    regen_delay@,
                )
            }),
    {
        let ghost all = models(panes@);
        let ghost start = self@;
        let mut busy: Vec<bool> = Vec::new();
        let mut i: usize = 0;
        while i < panes.len()
            invariant
                i <= panes@.len(),
                all == models(panes@),
                start == self@,
                busy@ == busy_panes(all, start.in_flight).take(i as int),
            decreases panes@.len() - i,
        {
            let ghost before = busy@;
            busy.push(self.in_flight.contains(panes[i].pane_id.as_str()));
            assert(busy_panes(all, start.in_flight).take(i + 1) =~= before.push(
                busy_panes(all, start.in_flight)[i as int],
            ));
            i = i + 1;
        }
        assert(busy@ =~= busy_panes(all, start.in_flight));
        let ghost list = titled(all, texts(titles@), busy@);
        let windows = list_windows(panes);
        let ghost ids = texts(windows@);
        let ghost delay = regen_delay@;
        let mut jobs: Vec<WindowJob> = Vec::new();
        let mut k: usize = 0;
        assert(ids.take(0) =~= Seq::empty());
        assert(job_models(jobs@) =~= Seq::empty());
        while k < windows.len()
            invariant
                k <= windows@.len(),
                self.wf(),
                panes@.len() == titles@.len() == busy@.len(),
                ids == texts(windows@),
                list == titled(models(panes@), texts(titles@), busy@),
                delay == regen_delay@,
                self@ == start.windows_visited(list, ids.take(k as int), now, delay),
                job_models(jobs@) == start.window_jobs(list, ids.take(k as int), now, delay),
            decreases windows@.len() - k,
        {
            let window = windows[k].as_str();
            let found = window_texts(panes, titles, &busy, window);
            let ghost group = members(list, window@);
            let ghost before = job_models(jobs@);
            proof {
                assert(ids.take(k + 1).drop_last() =~= ids.take(k as int));
                assert(ids.take(k + 1).last() == window@);
            }
            let starts = self.visit_window(
                window,
                found.summary.as_str(),
                found.input.is_some(),
                now,
                regen_delay,
                Ghost(group),
            );
            if let Some(input) = found.input {
                if starts {
                    let job = WindowJob { window_id: windows[k].clone(), input };
                    jobs.push(job);
                    assert(job_models(jobs@) =~= before.push(job@));
                }
            }
            k = k + 1;
        }
        assert(ids.take(k as int) =~= ids);
        jobs
    }

    /// Looks at the windows of all panes where window titles are wanted, given the title of each
    /// pane. The result lists the windows for which a title generation starts.
    pub fn visit_windows_if(
        &mut self,
        window_titles: bool,
        panes: &Vec<PaneInfo>,
        titles: &Vec<String>,
        now: Instant,
        regen_delay: Duration,
    ) -> (res: Vec<WindowJob>)
        requires
            old(self).wf(),
            window_titles ==> titles@.len() == panes@.len(),
        ensures
            final(self).wf(),
            ({
                let all = models(panes@);
                let list = titled(
                    all,
                    texts(titles@),
                    busy_panes(all, old(self)@.in_flight),
                );
                &&& final(self)@ == old(self)@.windows_visited_if(
                    window_titles,
                    list,
                    window_ids(all),
                    now,
                    regen_delay@,
                )
                &&& job_models(res@) == old(self)@.window_jobs_if(
                    window_titles,
                    list,
                    window_ids(all),
                    now,
                    regen_delay@,
                )
            }),
    {
        if window_titles {
            self.visit_windows(panes, titles, now, regen_delay)
        } else {
            let none: Vec<WindowJob> = Vec::new();
            assert(job_models(none@) =~= Seq::empty());
            none
        }
    }
}

proof fn lemma_ids_push(front: Seq<PaneModel>, p: PaneModel)
    ensures
        pane_ids(front.push(p)) == pane_ids(front).insert(p.pane_id),
        window_id_set(front.push(p)) == window_id_set(front).insert(p.window_id),
{
    let all = front.push(p);
    assert forall|id: Seq<char>| pane_ids(all).contains(id) == pane_ids(front).insert(
        p.pane_id,
    ).contains(id) by {
        if pane_ids(front).contains(id) {
            let i = choose|i: int| 0 <= i < front.len() && #[trigger] front[i].pane_id == id;
            assert(all[i].pane_id == id);
        }
        assert(all[front.len() as int].pane_id == p.pane_id);
        if pane_ids(all).contains(id) && id != p.pane_id {
            let i = choose|i: int| 0 <= i < all.len() && #[trigger] all[i].pane_id == id;
            assert(front[i].pane_id == id);
        }
    }
    assert forall|id: Seq<char>| window_id_set(all).contains(id) == window_id_set(front).insert(
        p.window_id,
    ).contains(id) by {
        if window_id_set(front).contains(id) {
            let i = choose|i: int| 0 <= i < front.len() && #[trigger] front[i].window_id == id;
            assert(all[i].window_id == id);
        }
        assert(all[front.len() as int].window_id == p.window_id);
        if window_id_set(all).contains(id) && id != p.window_id {
            let i = choose|i: int| 0 <= i < all.len() && #[trigger] all[i].window_id == id;
            assert(front[i].window_id == id);
        }
    }
    assert(pane_ids(all) =~= pane_ids(front).insert(p.pane_id));
    assert(window_id_set(all) =~= window_id_set(front).insert(p.window_id));
}

/// Whether `scope` takes in `id`.
fn covers(scope: &RegenerateScope, id: &str) -> (res: bool)
    ensures
        res == scope@.covers(id@),
{
    match scope {
        RegenerateScope::All => true,
        RegenerateScope::Specific(ids) => ids.contains(id),
    }
}

/// Asks for new titles of what `scope` takes in.
fn request_titles(states: &mut IdMap<ChangeTracker>, scope: &RegenerateScope)
    requires
        old(states).wf(),
    ensures
        final(states).wf(),
        final(states)@ == requested(old(states)@, scope@),
{
    let ids = states.keys();
    let ghost keys = texts(ids@);
    let ghost before = states@;
    let mut i: usize = 0;
    while i < ids.len()
        invariant
            i <= ids@.len(),
            states.wf(),
            keys == texts(ids@),
            keys.no_duplicates(),
            keys.to_set() == before.dom(),
            states@.dom() == before.dom(),
            forall|j: int|
                0 <= j < i ==> states@[#[trigger] keys[j]] == requested(before, scope@)[keys[j]],
            forall|j: int| i <= j < keys.len() ==> states@[#[trigger] keys[j]] == before[keys[j]],
        decreases ids@.len() - i,
    {
        let id = ids[i].as_str();
        assert(keys[i as int] == id@);
        assert(keys.to_set().contains(id@));
        if covers(scope, id) {
            let found = states.get(id);
            if let Some(t) = found {
                let mut tracker = *t;
                tracker.request_title();
                states.insert(id, tracker);
                assert(states@.dom() =~= before.dom());
            }
        }
        i = i + 1;
    }
    proof {
        assert forall|k: Seq<char>| #[trigger] states@.contains_key(k) implies states@[k]
            == requested(before, scope@)[k] by {
            assert(keys.to_set().contains(k));
            let j = keys.index_of(k);
            assert(keys[j] == k);
        }
        assert(states@ =~= requested(before, scope@));
    }
}

/// The tracker of `id` once content with this hash was seen at `now`.
fn observe(states: &IdMap<ChangeTracker>, id: &str, hash: u64, now: Instant) -> (res: ChangeTracker)
    requires
        states.wf(),
    ensures
        res == observed(states@, id@, hash, now),
{
    match states.get(id) {
        Some(t) => {
            let mut tracker = *t;
            tracker.update_hash(hash, now);
            tracker
        },
        None => ChangeTracker::new(hash, now),
    }
}

/// At most one title per pane or window is generated at a time: nothing starts for an id that is
/// in flight, what starts is in flight from then on, and looking at a pane or window ends nothing.
pub proof fn law_one_generation_at_a_time(
    m: DaemonModel,
    id: Seq<char>,
    hash: u64,
    group: Seq<TitledPane>,
    now: Instant,
    delay: nat,
)
    ensures
        m.in_flight.contains(id) ==> !m.pane_starts(id, hash, now, delay) && !m.window_starts(
            id,
            group,
            now,
            delay,
        ),
        m.pane_visited(id, hash, now, delay).in_flight == if m.pane_starts(id, hash, now, delay) {
            m.in_flight.insert(id)
        } else {
            m.in_flight
        },
        m.window_visited(id, group, now, delay).in_flight == if m.window_starts(
            id,
            group,
            now,
            delay,
        ) {
            m.in_flight.insert(id)
        } else {
            m.in_flight
        },
{
}

/// A pane's title that is due while one is being generated is not lost: once that generation has
/// ended, the next look at the same content starts another, whenever it comes.
pub proof fn law_skipped_title_stays_due(
    m: DaemonModel,
    id: Seq<char>,
    hash: u64,
    now: Instant,
    later: Instant,
    delay: nat,
)
    requires
        observed(m.panes, id, hash, now).due(now@, delay),
        m.in_flight.contains(id),
        later@ >= now@,
    ensures
        !m.pane_starts(id, hash, now, delay),
        m.pane_visited(id, hash, now, delay).reaped(id).pane_starts(id, hash, later, delay),
{
}

/// The same holds of a window whose title is due and can be made.
pub proof fn law_skipped_window_stays_due(
    m: DaemonModel,
    id: Seq<char>,
    group: Seq<TitledPane>,
    now: Instant,
    later: Instant,
    delay: nat,
)
    requires
        observed(m.windows, id, text_hash(summary(group)), now).due(now@, delay),
        ready(group).len() > 0,
        m.in_flight.contains(id),
        later@ >= now@,
    ensures
        !m.window_starts(id, group, now, delay),
        m.window_visited(id, group, now, delay).reaped(id).window_starts(id, group, later, delay),
{
}

/// Panes that do not change get their window one title: after a generation was started, no later
/// look at the same panes starts another, whether or not the first has ended.
pub proof fn law_same_panes_get_one_window_title(
    m: DaemonModel,
    id: Seq<char>,
    group: Seq<TitledPane>,
    now: Instant,
    later: Instant,
    delay: nat,
)
    requires
        m.window_starts(id, group, now, delay),
        observed(m.windows, id, text_hash(summary(group)), now).last_changed@ <= now@,
    ensures
        !m.window_visited(id, group, now, delay).window_starts(id, group, later, delay),
        !m.window_visited(id, group, now, delay).reaped(id).window_starts(
            id,
            group,
            later,
            delay,
        ),
{
}

/// Content that does not change gets one title: after a generation was started, no later look at
/// the same content starts another, whether or not the first has ended.
pub proof fn law_same_content_gets_one_title(
    m: DaemonModel,
    id: Seq<char>,
    hash: u64,
    now: Instant,
    later: Instant,
    delay: nat,
)
    requires
        m.pane_starts(id, hash, now, delay),
        observed(m.panes, id, hash, now).last_changed@ <= now@,
    ensures
        !m.pane_visited(id, hash, now, delay).pane_starts(id, hash, later, delay),
        !m.pane_visited(id, hash, now, delay).reaped(id).pane_starts(id, hash, later, delay),
{
}

/// A pane that is seen for the first time gets a title at once, whatever the delay.
pub proof fn law_new_pane_gets_a_title(
    m: DaemonModel,
    id: Seq<char>,
    hash: u64,
    now: Instant,
    delay: nat,
)
    requires
        !m.panes.contains_key(id),
        !m.in_flight.contains(id),
    ensures
        m.pane_starts(id, hash, now, delay),
{
}

/// A regeneration reaches every known pane and window that it takes in, whatever their content,
/// unless a title is being generated for them; it leaves the others and the flights as they are.
pub proof fn law_regeneration_reaches_its_scope(
    m: DaemonModel,
    scope: ScopeModel,
    id: Seq<char>,
    hash: u64,
    group: Seq<TitledPane>,
    now: Instant,
    delay: nat,
)
    ensures
        m.regenerating(scope).in_flight == m.in_flight,
        m.regenerating(scope).panes.dom() == m.panes.dom(),
        m.regenerating(scope).windows.dom() == m.windows.dom(),
        scope.covers(id) && m.panes.contains_key(id) ==> m.regenerating(scope).pane_starts(
            id,
            hash,
            now,
            delay,
        ) == !m.in_flight.contains(id),
        scope.covers(id) && m.windows.contains_key(id) ==> m.regenerating(scope).window_starts(
            id,
            group,
            now,
            delay,
        ) == (ready(group).len() > 0 && !m.in_flight.contains(id)),
        !scope.covers(id) && m.panes.contains_key(id) ==> m.regenerating(scope).panes[id]
            == m.panes[id],
        !scope.covers(id) && m.windows.contains_key(id) ==> m.regenerating(scope).windows[id]
            == m.windows[id],
{
    assert(m.regenerating(scope).panes.dom() =~= m.panes.dom());
    assert(m.regenerating(scope).windows.dom() =~= m.windows.dom());
}

/// What no longer exists is forgotten, and nothing else is.
pub proof fn law_closed_is_forgotten(m: DaemonModel, panes: Seq<PaneModel>, id: Seq<char>)
    ensures
        m.without_closed(panes).panes.contains_key(id) <==> m.panes.contains_key(id) && pane_ids(
            panes,
        ).contains(id),
        m.without_closed(panes).panes.contains_key(id) ==> m.without_closed(panes).panes[id]
            == m.panes[id],
        m.without_closed(panes).windows.contains_key(id) <==> m.windows.contains_key(id)
            && window_id_set(panes).contains(id),
        m.without_closed(panes).windows.contains_key(id) ==> m.without_closed(panes).windows[id]
            == m.windows[id],
        m.without_closed(panes).in_flight == m.in_flight,
{
}

/// A window of which no pane is ready waits: nothing starts, and a title that is due stays due,
/// whenever the next look comes.
pub proof fn law_window_waits_for_its_panes(
    m: DaemonModel,
    id: Seq<char>,
    group: Seq<TitledPane>,
    now: Instant,
    later: Instant,
    delay: nat,
)
    requires
        ready(group).len() == 0,
        later@ >= now@,
    ensures
        !m.window_starts(id, group, now, delay),
        observed(m.windows, id, text_hash(summary(group)), now).due(now@, delay)
            ==> m.window_visited(id, group, now, delay).windows[id].due(later@, delay),
{
}

/// The order in which two windows are looked at does not matter.
pub proof fn law_window_order_is_free(
    m: DaemonModel,
    a: Seq<char>,
    group_a: Seq<TitledPane>,
    b: Seq<char>,
    group_b: Seq<TitledPane>,
    now: Instant,
    delay: nat,
)
    requires
        a != b,
    ensures
        m.window_visited(a, group_a, now, delay).window_starts(b, group_b, now, delay)
            == m.window_starts(b, group_b, now, delay),
        m.window_visited(a, group_a, now, delay).window_visited(b, group_b, now, delay)
            == m.window_visited(b, group_b, now, delay).window_visited(a, group_a, now, delay),
{
    let ab = m.window_visited(a, group_a, now, delay).window_visited(b, group_b, now, delay);
    let ba = m.window_visited(b, group_b, now, delay).window_visited(a, group_a, now, delay);
    assert(ab.windows =~= ba.windows);
    assert(ab.in_flight =~= ba.in_flight);
    assert(ab.panes == ba.panes);
}

/// Without window titles no window title is ever made: no generation starts, and nothing that is
/// remembered changes.
pub proof fn law_without_window_titles_none_is_made(
    m: DaemonModel,
    list: Seq<TitledPane>,
    ids: Seq<Seq<char>>,
    now: Instant,
    delay: nat,
)
    ensures
        m.window_jobs_if(false, list, ids, now, delay).len() == 0,
        m.windows_visited_if(false, list, ids, now, delay) == m,
{
}

/// Without pane titles, window titles still work: a pane whose title is kept though it is not
/// shown has a title in its window, and once its generation has ended the window is ready to be
/// titled by it.
pub proof fn law_kept_titles_make_window_titles(
    m: DaemonModel,
    window: Seq<char>,
    list: Seq<TitledPane>,
    i: int,
    now: Instant,
    delay: nat,
)
    requires
        0 <= i < list.len(),
        list[i].window == window,
        list[i].title.len() > 0,
        !list[i].busy,
        observed(m.windows, window, text_hash(summary(members(list, window))), now).due(
            now@,
            delay,
        ),
        !m.in_flight.contains(window),
    ensures
        m.window_starts(window, members(list, window), now, delay),
{
    law_title_is_made_of_ready_panes(list, window);
    assert(list.contains(list[i]));
    assert(ready(members(list, window)).contains(list[i]));
}

/// A cycle starts at most one generation per window: each job is for a window that was looked at
/// and was not in flight, no two are for the same one, and all are in flight afterwards.
pub proof fn law_window_jobs_are_distinct(
    m: DaemonModel,
    list: Seq<TitledPane>,
    ids: Seq<Seq<char>>,
    now: Instant,
    delay: nat,
)
    ensures
        forall|i: int|
            0 <= i < m.window_jobs(list, ids, now, delay).len() ==> ids.contains(
                (#[trigger] m.window_jobs(list, ids, now, delay)[i]).window_id,
            ) && !m.in_flight.contains(m.window_jobs(list, ids, now, delay)[i].window_id)
                && m.windows_visited(list, ids, now, delay).in_flight.contains(
                m.window_jobs(list, ids, now, delay)[i].window_id,
            ),
        forall|i: int, j: int|
            0 <= i < j < m.window_jobs(list, ids, now, delay).len() ==> (
            #[trigger] m.window_jobs(list, ids, now, delay)[i]).window_id != (
            #[trigger] m.window_jobs(list, ids, now, delay)[j]).window_id,
        m.in_flight.subset_of(m.windows_visited(list, ids, now, delay).in_flight),
    decreases ids.len(),
{
    if ids.len() > 0 {
        let front = ids.drop_last();
        law_window_jobs_are_distinct(m, list, front, now, delay);
        let before = m.window_jobs(list, front, now, delay);
        let jobs = m.window_jobs(list, ids, now, delay);
        let mid = m.windows_visited(list, front, now, delay);
        let end = m.windows_visited(list, ids, now, delay);
        assert(mid.in_flight.subset_of(end.in_flight));
        assert forall|i: int| 0 <= i < jobs.len() implies ids.contains(
            (#[trigger] jobs[i]).window_id,
        ) && !m.in_flight.contains(jobs[i].window_id) && end.in_flight.contains(
            jobs[i].window_id,
        ) by {
            if i < before.len() {
                assert(jobs[i] == before[i]);
                let k = front.index_of(before[i].window_id);
                assert(front.contains(before[i].window_id));
                assert(ids[k] == before[i].window_id);
            } else {
                assert(jobs[i].window_id == ids.last());
                assert(ids[ids.len() - 1] == ids.last());
            }
        }
        assert forall|i: int, j: int| 0 <= i < j < jobs.len() implies (
        #[trigger] jobs[i]).window_id != (#[trigger] jobs[j]).window_id by {
            assert(jobs[i] == before[i]);
            if j < before.len() {
                assert(jobs[j] == before[j]);
            } else {
                assert(mid.in_flight.contains(before[i].window_id));
            }
        }
    }
}

/// Each change starts the delay anew: where a title was generated and the content of a pane is
/// seen changed, also while an earlier change is still waiting, a later look at that content
/// starts a generation exactly when the delay has passed since this change.
pub proof fn law_each_pane_change_restarts_the_delay(
    m: DaemonModel,
    id: Seq<char>,
    hash: u64,
    now: Instant,
    later: Instant,
    delay: nat,
)
    requires
        m.panes.contains_key(id),
        m.panes[id].has_generated,
        m.panes[id].last_hash != hash,
        now@ > m.panes[id].last_generated@,
        delay > 0,
        !m.in_flight.contains(id),
    ensures
        !m.pane_starts(id, hash, now, delay),
        m.pane_visited(id, hash, now, delay).pane_starts(id, hash, later, delay) <==> later@
            - now@ >= delay,
{
}

/// The same holds of a window whose panes changed, where a title can be made.
pub proof fn law_each_window_change_restarts_the_delay(
    m: DaemonModel,
    id: Seq<char>,
    group: Seq<TitledPane>,
    now: Instant,
    later: Instant,
    delay: nat,
)
    requires
        m.windows.contains_key(id),
        m.windows[id].has_generated,
        m.windows[id].last_hash != text_hash(summary(group)),
        now@ > m.windows[id].last_generated@,
        delay > 0,
        !m.in_flight.contains(id),
        ready(group).len() > 0,
    ensures
        !m.window_starts(id, group, now, delay),
        m.window_visited(id, group, now, delay).window_starts(id, group, later, delay) <==> later@
            - now@ >= delay,
{
}

/// A change that was seen stays timed by its first sight: looks in between at the same content
/// neither start the delay anew nor shorten it.
pub proof fn law_looks_in_between_change_nothing(
    m: DaemonModel,
    id: Seq<char>,
    hash: u64,
    now: Instant,
    between: Instant,
    later: Instant,
    delay: nat,
)
    requires
        m.panes.contains_key(id),
        m.panes[id].has_generated,
        m.panes[id].last_hash != hash,
        now@ > m.panes[id].last_generated@,
        !m.in_flight.contains(id),
        0 <= between@ - now@ < delay,
    ensures
        m.pane_visited(id, hash, now, delay).pane_visited(id, hash, between, delay).pane_starts(
            id,
            hash,
            later,
            delay,
        ) <==> later@ - now@ >= delay,
{
}

/// A window that is seen for the first time gets a title as soon as one can be made.
pub proof fn law_new_window_gets_a_title(
    m: DaemonModel,
    id: Seq<char>,
    group: Seq<TitledPane>,
    now: Instant,
    delay: nat,
)
    requires
        !m.windows.contains_key(id),
        !m.in_flight.contains(id),
        ready(group).len() > 0,
    ensures
        m.window_starts(id, group, now, delay),
{
}

/// A look at one pane or window leaves every other as it is, and the end of a generation frees its
/// own id alone.
pub proof fn law_looks_keep_apart(
    m: DaemonModel,
    id: Seq<char>,
    other: Seq<char>,
    hash: u64,
    group: Seq<TitledPane>,
    now: Instant,
    delay: nat,
)
    requires
        id != other,
    ensures
        ({
            let p = m.pane_visited(id, hash, now, delay);
            let w = m.window_visited(id, group, now, delay);
            let r = m.reaped(id);
            &&& p.windows == m.windows
            &&& p.panes.contains_key(id)
            &&& p.panes.contains_key(other) == m.panes.contains_key(other)
            &&& m.panes.contains_key(other) ==> p.panes[other] == m.panes[other]
            &&& p.in_flight.contains(other) == m.in_flight.contains(other)
            &&& w.panes == m.panes
            &&& w.windows.contains_key(id)
            &&& w.windows.contains_key(other) == m.windows.contains_key(other)
            &&& m.windows.contains_key(other) ==> w.windows[other] == m.windows[other]
            &&& w.in_flight.contains(other) == m.in_flight.contains(other)
            &&& r.panes == m.panes
            &&& r.windows == m.windows
            &&& !r.in_flight.contains(id)
            &&& r.in_flight.contains(other) == m.in_flight.contains(other)
        }),
{
}

/// A regeneration forgets only that a title was generated; what is known of the content stays.
pub proof fn law_regeneration_keeps_what_was_seen(m: DaemonModel, scope: ScopeModel, id: Seq<char>)
    ensures
        m.panes.contains_key(id) ==> ({
            let t = m.regenerating(scope).panes[id];
            &&& t.last_hash == m.panes[id].last_hash
            &&& t.last_changed == m.panes[id].last_changed
            &&& t.last_generated == m.panes[id].last_generated
        }),
        m.windows.contains_key(id) ==> ({
            let t = m.regenerating(scope).windows[id];
            &&& t.last_hash == m.windows[id].last_hash
            &&& t.last_changed == m.windows[id].last_changed
            &&& t.last_generated == m.windows[id].last_generated
        }),
{
}

/// What exists are the panes that are listed and the windows that they belong to; a pane is busy
/// exactly while a generation is in flight for it.
pub proof fn law_what_is_listed_exists(
    panes: Seq<PaneModel>,
    in_flight: Set<Seq<char>>,
    id: Seq<char>,
    i: int,
)
    requires
        0 <= i < panes.len(),
    ensures
        pane_ids(panes).contains(panes[i].pane_id),
        window_id_set(panes).contains(panes[i].window_id),
        pane_ids(panes).contains(id) ==> exists|k: int|
            0 <= k < panes.len() && (#[trigger] panes[k]).pane_id == id,
        window_id_set(panes).contains(id) ==> exists|k: int|
            0 <= k < panes.len() && (#[trigger] panes[k]).window_id == id,
        busy_panes(panes, in_flight).len() == panes.len(),
        busy_panes(panes, in_flight)[i] <==> in_flight.contains(panes[i].pane_id),
{
    if pane_ids(panes).contains(id) {
        let k = choose|k: int| 0 <= k < panes.len() && #[trigger] panes[k].pane_id == id;
        assert(panes[k].pane_id == id);
    }
    if window_id_set(panes).contains(id) {
        let k = choose|k: int| 0 <= k < panes.len() && #[trigger] panes[k].window_id == id;
        assert(panes[k].window_id == id);
    }
}

/// A cycle looks at every window, each as if it were the only one: what is remembered of it, and
/// whether a generation starts for it, is as by a look at this window alone. Other windows and all
/// panes stay as they are.
pub proof fn law_every_window_is_looked_at(
    m: DaemonModel,
    list: Seq<TitledPane>,
    ids: Seq<Seq<char>>,
    id: Seq<char>,
    now: Instant,
    delay: nat,
)
    requires
        ids.no_duplicates(),
    ensures
        ({
            let after = m.windows_visited(list, ids, now, delay);
            let jobs = m.window_jobs(list, ids, now, delay);
            let group = members(list, id);
            let job = JobModel { window_id: id, input: window_input_text(group) };
            &&& after.panes == m.panes
            &&& ids.contains(id) ==> after.windows.contains_key(id) && after.windows[id]
                == m.window_visited(id, group, now, delay).windows[id]
            &&& !ids.contains(id) ==> after.windows.contains_key(id) == m.windows.contains_key(id)
            &&& !ids.contains(id) && m.windows.contains_key(id) ==> after.windows[id]
                == m.windows[id]
            &&& after.in_flight.contains(id) <==> m.in_flight.contains(id) || ids.contains(id)
                && m.window_starts(id, group, now, delay)
            &&& jobs.contains(job) <==> ids.contains(id) && m.window_starts(id, group, now, delay)
            &&& forall|k: int|
                0 <= k < jobs.len() && (#[trigger] jobs[k]).window_id == id ==> jobs[k] == job
        }),
    decreases ids.len(),
{
    let after = m.windows_visited(list, ids, now, delay);
    let jobs = m.window_jobs(list, ids, now, delay);
    let group = members(list, id);
    let job = JobModel { window_id: id, input: window_input_text(group) };
    if ids.len() > 0 {
        let front = ids.drop_last();
        let last = ids.last();
        let mid = m.windows_visited(list, front, now, delay);
        let before = m.window_jobs(list, front, now, delay);
        assert(front.no_duplicates());
        law_every_window_is_looked_at(m, list, front, id, now, delay);
        assert(!front.contains(last)) by {
            if front.contains(last) {
                let k = front.index_of(last);
                assert(ids[k] == ids[ids.len() - 1]);
            }
        }
        assert(ids.contains(id) <==> front.contains(id) || id == last) by {
            if front.contains(id) {
                let k = front.index_of(id);
                assert(ids[k] == id);
            }
            if ids.contains(id) {
                let k = ids.index_of(id);
                if k < front.len() {
                    assert(front[k] == id);
                }
            }
            assert(ids[ids.len() - 1] == last);
        }
        let starts = mid.window_starts(last, members(list, last), now, delay);
        if id == last {
            assert(observed(mid.windows, id, text_hash(summary(group)), now) == observed(
                m.windows,
                id,
                text_hash(summary(group)),
                now,
            ));
            assert(starts == m.window_starts(id, group, now, delay));
            if starts {
                assert(jobs == before.push(job));
                assert(jobs[before.len() as int] == job);
            }
        } else if starts {
            assert(jobs == before.push(
                JobModel {
                    window_id: last,
                    input: window_input_text(members(list, last)),
                },
            ));
            if before.contains(job) {
                let k = before.index_of(job);
                assert(jobs[k] == job);
            }
            if jobs.contains(job) {
                let k = jobs.index_of(job);
                assert(before[k] == job);
            }
        }
        assert forall|k: int|
            0 <= k < jobs.len() && (#[trigger] jobs[k]).window_id == id implies jobs[k] == job by {
            if k < before.len() {
                assert(jobs[k] == before[k]);
            }
        }
    }
}

/// A generation starts for a pane exactly when none is in flight for it and either it has no title
/// yet, or its content changed after the last title was made and has stayed as it is for the
/// delay. The look itself notes the content, when it was first seen so, and the start.
pub proof fn law_look_at_a_pane(m: DaemonModel, id: Seq<char>, hash: u64, now: Instant, delay: nat)
    ensures
        ({
            let known = m.panes.contains_key(id);
            let old = m.panes[id];
            let same = known && old.last_hash == hash;
            let since = if same {
                old.last_changed
            } else {
                now
            };
            let starts = m.pane_starts(id, hash, now, delay);
            let new = m.pane_visited(id, hash, now, delay).panes[id];
            &&& starts <==> !m.in_flight.contains(id) && (!known || !old.has_generated || (since@
                > old.last_generated@ && (delay == 0 || now@ - since@ >= delay)))
            &&& new.last_hash == hash
            &&& new.last_changed == since
            &&& new.has_generated == (starts || known && old.has_generated)
            &&& new.last_generated == if starts || !known {
                now
            } else {
                old.last_generated
            }
        }),
{
}

/// The same holds of a window, whose content is the summary of its panes, where one of them is
/// ready.
pub proof fn law_look_at_a_window(
    m: DaemonModel,
    id: Seq<char>,
    group: Seq<TitledPane>,
    now: Instant,
    delay: nat,
)
    ensures
        ({
            let hash = text_hash(summary(group));
            let known = m.windows.contains_key(id);
            let old = m.windows[id];
            let same = known && old.last_hash == hash;
            let since = if same {
                old.last_changed
            } else {
                now
            };
            let starts = m.window_starts(id, group, now, delay);
            let new = m.window_visited(id, group, now, delay).windows[id];
            &&& starts <==> !m.in_flight.contains(id) && ready(group).len() > 0 && (!known
                || !old.has_generated || (since@ > old.last_generated@ && (delay == 0 || now@
                - since@ >= delay)))
            &&& new.last_hash == hash
            &&& new.last_changed == since
            &&& new.has_generated == (starts || known && old.has_generated)
            &&& new.last_generated == if starts || !known {
                now
            } else {
                old.last_generated
            }
        }),
{
}

/// Where window titles are wanted, all windows are looked at.
pub proof fn law_with_window_titles_all_are_made(
    m: DaemonModel,
    list: Seq<TitledPane>,
    ids: Seq<Seq<char>>,
    now: Instant,
    delay: nat,
)
    ensures
        m.window_jobs_if(true, list, ids, now, delay) == m.window_jobs(list, ids, now, delay),
        m.windows_visited_if(true, list, ids, now, delay) == m.windows_visited(
            list,
            ids,
            now,
            delay,
        ),
{
}

/// A job stands for its own texts, and a sequence of jobs for each of them in order.
pub proof fn law_jobs_stand_for_their_texts(jobs: Seq<WindowJob>, i: int)
    requires
        0 <= i < jobs.len(),
    ensures
        job_models(jobs).len() == jobs.len(),
        job_models(jobs)[i].window_id == jobs[i].window_id@,
        job_models(jobs)[i].input == jobs[i].input@,
{
}

} // verus!
