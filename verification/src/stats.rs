//! Generation statistics: how many titles were generated, how often, and how long each took.
use crate::text::{
    decimal, join, law_decimal_reads_back, law_joined_lines_read_back, lines, push_decimal,
};
use crate::time::{elapsed, max_duration, min_instant, Duration, Instant, NANOS_PER_SEC};
use vstd::prelude::*;

verus! {

/// The length of the window that "last hour" looks back over, in seconds.
pub const ROLLING_WINDOW_SECS: u64 = 3600;

/// Fixed capacity for the recent-generations ring. Sized for roughly one generation every 3.5
/// seconds sustained for an hour, far above any realistic rate. If exceeded, the oldest entries
/// are silently overwritten, which only affects the last-hour count (totals remain accurate).
pub const RING_CAP: usize = 1024;

/// What a title was generated for.
#[derive(Copy, Clone, Debug, PartialEq, Eq, Structural)]
pub enum Kind {
    Pane,
    Window,
}

/// The number of points in `times` that do not lie before `cutoff`.
pub open spec fn count_since(times: Seq<int>, cutoff: int) -> nat
    decreases times.len(),
{
    if times.len() == 0 {
        0
    } else if times.last() >= cutoff {
        count_since(times.drop_last(), cutoff) + 1
    } else {
        count_since(times.drop_last(), cutoff)
    }
}

/// `times` with `t` at its end, without the oldest entry where it held as many as fit.
pub open spec fn pushed(times: Seq<int>, t: int) -> Seq<int> {
    if times.len() < RING_CAP {
        times.push(t)
    } else {
        times.drop_first().push(t)
    }
}

/// A ring of the most recent points in time. Its view lists them from the oldest to the newest.
pub struct Ring {
    buf: [Option<Instant>; RING_CAP],
    next: usize,
}

impl View for Ring {
    type V = Seq<int>;

    closed spec fn view(&self) -> Seq<int> {
        if self.buf@[self.next as int] is None {
            Seq::new(self.next as nat, |i: int| self.buf@[i].unwrap()@)
        } else {
            Seq::new(RING_CAP as nat, |i: int| self.buf@[self.slot(i)].unwrap()@)
        }
    }
}

impl Ring {
    /// The slot of the entry that `i` others precede, once the ring is full.
    spec fn slot(self, i: int) -> int {
        (self.next + i) % (RING_CAP as int)
    }

    /// The next slot lies in the ring; the slots before it are filled, and the others are all
    /// filled or all empty.
    pub closed spec fn wf(self) -> bool {
        &&& self.next < RING_CAP
        &&& forall|i: int| 0 <= i < self.next ==> #[trigger] self.buf@[i] is Some
        &&& forall|i: int|
            self.next <= i < RING_CAP ==> (#[trigger] self.buf@[i] is Some) == (
            self.buf@[self.next as int] is Some)
    }

    /// An empty ring.
    pub fn new() -> (res: Self)
        ensures
            res.wf(),
            res@ == Seq::<int>::empty(),
    {
        let res = Ring { buf: [None; RING_CAP], next: 0 };
        assert(res@ =~= Seq::<int>::empty());
        res
    }

    /// Adds `t`, in place of the oldest entry where the ring is full.
    pub fn push(&mut self, t: Instant)
        requires
            old(self).wf(),
        ensures
            final(self).wf(),
            final(self)@ == pushed(old(self)@, t@),
    {
        self.buf[self.next] = Some(t);
        self.next = (self.next + 1) % RING_CAP;
        assert(self@ =~= pushed(old(self)@, t@));
    }

    /// The number of entries that do not lie before `cutoff`.
    pub fn count_since(&self, cutoff: Instant) -> (res: usize)
        requires
            self.wf(),
        ensures
            res == count_since(self@, cutoff@),
            res <= self@.len() <= RING_CAP,
    {
        let full = self.buf[self.next].is_some();
        let len: usize = if full {
            RING_CAP
        } else {
            self.next
        };
        let first: usize = if full {
            self.next
        } else {
            0
        };
        let mut count: usize = 0;
        let mut i: usize = 0;
        while i < len
            invariant
                self.wf(),
                len == self@.len(),
                len <= RING_CAP,
                first < RING_CAP,
                full == (self.buf@[self.next as int] is Some),
                full ==> first == self.next,
                !full ==> first == 0 && len == self.next,
                i <= len,
                count <= i,
                count == count_since(self@.take(i as int), cutoff@),
            decreases len - i,
        {
            let slot: usize = (first + i) % RING_CAP;
            assert(self.buf@[slot as int] is Some && self.buf@[slot as int].unwrap()@
                == self@[i as int]);
            assert(self@.take(i + 1).drop_last() =~= self@.take(i as int));
            if let Some(t) = self.buf[slot] {
                if !cutoff.is_after(t) {
                    count = count + 1;
                }
            }
            i = i + 1;
        }
        assert(self@.take(len as int) =~= self@);
        count
    }
}

/// What the statistics say, as mathematical values: points in time and spans in nanoseconds,
/// and the latest generations from the oldest to the newest.
pub struct StatsModel {
    pub start: int,
    pub panes: nat,
    pub windows: nat,
    pub in_flight: nat,
    pub recent: Seq<int>,
    pub total_time: nat,
}

impl StatsModel {
    /// The number of generations so far.
    pub open spec fn total(self) -> nat {
        self.panes + self.windows
    }

    /// The generations of one kind so far.
    pub open spec fn generations(self, kind: Kind) -> nat {
        match kind {
            Kind::Pane => self.panes,
            Kind::Window => self.windows,
        }
    }

    /// One more generation in flight.
    pub open spec fn started(self) -> StatsModel {
        StatsModel { in_flight: self.in_flight + 1, ..self }
    }

    /// One generation fewer in flight, where there is one.
    pub open spec fn ended(self) -> StatsModel {
        StatsModel {
            in_flight: if self.in_flight == 0 {
                0
            } else {
                (self.in_flight - 1) as nat
            },
            ..self
        }
    }

    /// A generation completed at `now` that took `duration`.
    pub open spec fn recorded(self, kind: Kind, now: int, duration: nat) -> StatsModel {
        StatsModel {
            panes: match kind {
                Kind::Pane => self.panes + 1,
                Kind::Window => self.panes,
            },
            windows: match kind {
                Kind::Pane => self.windows,
                Kind::Window => self.windows + 1,
            },
            recent: pushed(self.recent, now),
            total_time: self.total_time + duration,
            ..self
        }
    }

    /// Whether one more generation of this kind and length can be counted.
    pub open spec fn has_room(self, kind: Kind, duration: nat) -> bool {
        &&& self.generations(kind) < u64::MAX
        &&& self.total_time + duration <= max_duration()
    }

    /// The point from which on a generation counts as one of the last hour. Where the point an
    /// hour before `now` cannot be represented it is the start.
    pub open spec fn cutoff(self, now: int) -> int {
        let hour_ago = now - ROLLING_WINDOW_SECS * NANOS_PER_SEC;
        if hour_ago >= min_instant() {
            hour_ago
        } else {
            self.start
        }
    }

    /// The time since the start.
    pub open spec fn uptime(self, now: int) -> nat {
        elapsed(self.start, now)
    }

    /// The number of generations as a divisor, at most `u32::MAX`.
    pub open spec fn divisor(self) -> nat {
        if self.total() <= u32::MAX {
            self.total()
        } else {
            u32::MAX as nat
        }
    }

    /// The average generation time, where there was a generation.
    pub open spec fn average_time(self) -> Option<nat> {
        if self.total() == 0 {
            None
        } else {
            Some(self.total_time / self.divisor())
        }
    }

    /// The average time between generations, where there was one.
    pub open spec fn average_interval(self, now: int) -> Option<nat> {
        if self.total() == 0 {
            None
        } else {
            Some(self.uptime(now) / self.divisor())
        }
    }

    /// The report at `now`, given the text of the average generation time.
    pub open spec fn report(self, now: int, average_time: Seq<char>) -> Seq<char> {
        "uptime: "@ + duration_text(self.uptime(now)) + "\ntotal generations: "@ + decimal(
            self.total(),
        ) + " (panes: "@ + decimal(self.panes) + ", windows: "@ + decimal(self.windows)
            + ")\nlast hour: "@ + decimal(count_since(self.recent, self.cutoff(now)))
            + "\navg interval: "@ + (match self.average_interval(now) {
            Some(interval) => duration_text(interval),
            None => "n/a"@,
        }) + "\navg generation time: "@ + average_time + "\nin flight: "@ + decimal(self.in_flight)
    }

    /// The text of the average generation time.
    pub open spec fn average_time_text(self) -> Seq<char> {
        match self.average_time() {
            Some(time) => duration_ms_text(time, seconds_text_of(time)),
            None => "n/a"@,
        }
    }
}

/// Counts of generations and of what is in flight, and the times of the latest generations.
pub struct Stats {
    start: Instant,
    pane_generations: u64,
    window_generations: u64,
    in_flight: usize,
    recent: Ring,
    total_generation_time: Duration,
}

impl View for Stats {
    type V = StatsModel;

    closed spec fn view(&self) -> StatsModel {
        StatsModel {
            start: self.start@,
            panes: self.pane_generations as nat,
            windows: self.window_generations as nat,
            in_flight: self.in_flight as nat,
            recent: self.recent@,
            total_time: self.total_generation_time@,
        }
    }
}

impl Stats {
    /// The ring holds every generation so far, or as many of the latest as fit.
    pub closed spec fn wf(self) -> bool {
        &&& self.recent.wf()
        &&& self.recent@.len() == if self@.total() <= RING_CAP {
            self@.total()
        } else {
            RING_CAP as nat
        }
    }

    /// The statistics of a process that starts at `now`.
    pub fn new(now: Instant) -> (res: Self)
        ensures
            res.wf(),
            res@ == (StatsModel {
                start: now@,
                panes: 0,
                windows: 0,
                in_flight: 0,
                recent: Seq::empty(),
                total_time: 0,
            }),
    {
        Stats {
            start: now,
            pane_generations: 0,
            window_generations: 0,
            in_flight: 0,
            recent: Ring::new(),
            total_generation_time: Duration::from_secs(0),
        }
    }

    /// Counts one more generation in flight.
    pub fn in_flight_inc(&mut self)
        requires
            old(self).wf(),
            old(self)@.in_flight < usize::MAX,
        ensures
            final(self).wf(),
            final(self)@ == old(self)@.started(),
    {
        self.in_flight = self.in_flight + 1;
    }

    /// Counts one generation fewer in flight, where there is one.
    pub fn in_flight_dec(&mut self)
        requires
            old(self).wf(),
        ensures
            final(self).wf(),
            final(self)@ == old(self)@.ended(),
    {
        self.in_flight = self.in_flight.saturating_sub(1);
    }

    /// Records a successful generation. Timestamps are recorded at completion time, so "last
    /// hour" counts when a title landed, not when it started.
    pub fn record_success(&mut self, kind: Kind, now: Instant, duration: Duration)
        requires
            old(self).wf(),
            old(self)@.has_room(kind, duration@),
        ensures
            final(self).wf(),
            final(self)@ == old(self)@.recorded(kind, now@, duration@),
    {
        match kind {
            Kind::Pane => {
                self.pane_generations = self.pane_generations + 1;
            },
            Kind::Window => {
                self.window_generations = self.window_generations + 1;
            },
        }
        self.recent.push(now);
        if let Some(total) = self.total_generation_time.checked_add(duration) {
            self.total_generation_time = total;
        }
    }

    /// Whether another generation can be counted as in flight.
    pub fn can_start(&self) -> (res: bool)
        ensures
            res == (self@.in_flight < usize::MAX),
    {
        self.in_flight < usize::MAX
    }

    /// Whether one more generation of this kind and length can be counted.
    pub fn can_record(&self, kind: Kind, duration: Duration) -> (res: bool)
        ensures
            res == self@.has_room(kind, duration@),
    {
        let generations: u64 = match kind {
            Kind::Pane => self.pane_generations,
            Kind::Window => self.window_generations,
        };
        generations < u64::MAX && self.total_generation_time.checked_add(duration).is_some()
    }

    /// Whether the number of generations of both kinds together can be shown.
    pub fn can_render(&self) -> (res: bool)
        ensures
            res == (self@.total() <= u64::MAX),
    {
        self.pane_generations <= u64::MAX - self.window_generations
    }

    /// The number of generations as a divisor, at most `u32::MAX`.
    fn divisor(&self) -> (res: u32)
        requires
            self@.total() <= u64::MAX,
        ensures
            res == self@.divisor(),
    {
        let total: u64 = self.pane_generations + self.window_generations;
        if total <= u32::MAX as u64 {
            total as u32
        } else {
            u32::MAX
        }
    }

    /// The report at `now`, given the text of the average generation time.
    pub fn render_with(&self, now: Instant, average_time: &str) -> (res: String)
        requires
            self.wf(),
            self@.total() <= u64::MAX,
        ensures
            res@ == self@.report(now@, average_time@),
    {
        // Fall back to the start (not `now`) so early-lifetime renders count entries since
        // process start rather than filtering everything out.
        let cutoff = match now.checked_sub(Duration::from_secs(ROLLING_WINDOW_SECS)) {
            Some(hour_ago) => hour_ago,
            None => self.start,
        };
        let last_hour = self.recent.count_since(cutoff);
        let uptime = now.duration_since(self.start);

        let mut out = "uptime: ".to_owned();
        out.append(format_duration(uptime).as_str());
        out.append("\ntotal generations: ");
        push_decimal(&mut out, self.pane_generations + self.window_generations);
        out.append(" (panes: ");
        push_decimal(&mut out, self.pane_generations);
        out.append(", windows: ");
        push_decimal(&mut out, self.window_generations);
        out.append(")\nlast hour: ");
        push_decimal(&mut out, last_hour as u64);
        out.append("\navg interval: ");
        match uptime.checked_div(self.divisor()) {
            Some(interval) => {
                out.append(format_duration(interval).as_str());
            },
            None => {
                out.append("n/a");
            },
        }
        out.append("\navg generation time: ");
        out.append(average_time);
        out.append("\nin flight: ");
        push_decimal(&mut out, self.in_flight as u64);
        out
    }

    /// The report at `now`.
    pub fn render(&self, now: Instant) -> (res: String)
        requires
            self.wf(),
            self@.total() <= u64::MAX,
        ensures
            res@ == self@.report(now@, self@.average_time_text()),
            self@.average_time() matches Some(time) ==> has_two_decimals(seconds_text_of(time)),
    {
        match self.total_generation_time.checked_div(self.divisor()) {
            Some(time) => {
                let text = format_duration_ms(time);
                self.render_with(now, text.as_str())
            },
            None => self.render_with(now, "n/a"),
        }
    }
}

/// A single generation in flight. Creating one counts it; `success` records a completed
/// generation, and `abandon` is for every other way in which a generation ends. Both consume
/// the value, so that no generation is recorded twice.
pub struct InFlight {
    started_at: Instant,
}

impl InFlight {
    /// The point at which the generation started.
    pub closed spec fn started_at(self) -> int {
        self.started_at@
    }

    /// Starts a generation at `now`.
    pub fn new(stats: &mut Stats, now: Instant) -> (res: Self)
        requires
            old(stats).wf(),
            old(stats)@.in_flight < usize::MAX,
        ensures
            final(stats).wf(),
            final(stats)@ == old(stats)@.started(),
            res.started_at() == now@,
    {
        stats.in_flight_inc();
        InFlight { started_at: now }
    }

    /// The time that the generation has taken by `now`.
    pub fn duration(&self, now: Instant) -> (res: Duration)
        ensures
            res@ == elapsed(self.started_at(), now@),
    {
        now.duration_since(self.started_at)
    }

    /// Records the generation as completed at `now`.
    pub fn success(self, stats: &mut Stats, kind: Kind, now: Instant)
        requires
            old(stats).wf(),
            old(stats)@.has_room(kind, elapsed(self.started_at(), now@)),
        ensures
            final(stats).wf(),
            final(stats)@ == old(stats)@.recorded(
                kind,
                now@,
                elapsed(self.started_at(), now@),
            ).ended(),
    {
        let duration = self.duration(now);
        stats.record_success(kind, now, duration);
        stats.in_flight_dec();
    }

    /// Ends the generation without a title.
    pub fn abandon(self, stats: &mut Stats)
        requires
            old(stats).wf(),
        ensures
            final(stats).wf(),
            final(stats)@ == old(stats)@.ended(),
    {
        stats.in_flight_dec();
    }
}

/// A span of `nanos` nanoseconds in hours, minutes and seconds, from the largest unit that is
/// not zero.
pub open spec fn duration_text(nanos: nat) -> Seq<char> {
    let total = nanos / NANOS_PER_SEC as nat;
    let h = total / 3600;
    let m = (total % 3600) / 60;
    let s = total % 60;
    if h > 0 {
        decimal(h) + "h"@ + decimal(m) + "m"@ + decimal(s) + "s"@
    } else if m > 0 {
        decimal(m) + "m"@ + decimal(s) + "s"@
    } else {
        decimal(s) + "s"@
    }
}

/// `d` in hours, minutes and seconds, from the largest unit that is not zero.
pub fn format_duration(d: Duration) -> (res: String)
    ensures
        res@ == duration_text(d@),
{
    let total: u64 = d.as_secs();
    let h: u64 = total / 3600;
    let m: u64 = (total % 3600) / 60;
    let s: u64 = total % 60;
    let mut out = String::new();
    if h > 0 {
        push_decimal(&mut out, h);
        out.append("h");
    }
    if h > 0 || m > 0 {
        push_decimal(&mut out, m);
        out.append("m");
    }
    push_decimal(&mut out, s);
    out.append("s");
    assert(out@ =~= duration_text(d@));
    out
}

/// What `format!("{:.2}")` makes of a span of `secs` seconds and `nanos` nanoseconds, taken as
/// a binary fraction of seconds by `std::time::Duration::as_secs_f64`.
pub uninterp spec fn seconds_text(secs: u64, nanos: u32) -> Seq<char>;

/// The seconds of a span of `nanos` nanoseconds with two decimals.
pub open spec fn seconds_text_of(nanos: nat) -> Seq<char> {
    seconds_text((nanos / NANOS_PER_SEC as nat) as u64, (nanos % NANOS_PER_SEC as nat) as u32)
}

/// Whether `s` is a number with two decimals: digits, a point, and two digits.
pub open spec fn has_two_decimals(s: Seq<char>) -> bool {
    &&& s.len() >= 4
    &&& s[s.len() - 3] == '.'
    &&& forall|i: int|
        0 <= i < s.len() && i != s.len() - 3 ==> '0' <= #[trigger] s[i] && s[i] <= '9'
}

/// Calls `format!` with `{:.2}` on the span's seconds as std's `Duration` gives them. The result
/// depends on the two arguments alone, and has digits, a point and two more digits; which digits
/// is not stated, since they follow the rounding of binary fractions.
#[verifier::external_body]
fn two_decimals(secs: u64, nanos: u32) -> (res: String)
    requires
        nanos < NANOS_PER_SEC,
    ensures
        res@ == seconds_text(secs, nanos),
        has_two_decimals(res@),
{
    format!("{:.2}", std::time::Duration::new(secs, nanos).as_secs_f64())
}

/// A span of `nanos` nanoseconds in milliseconds below one second, and from there on in
/// seconds, given their text.
pub open spec fn duration_ms_text(nanos: nat, seconds: Seq<char>) -> Seq<char> {
    let ms = nanos / 1_000_000;
    if ms < 1000 {
        decimal(ms) + "ms"@
    } else {
        seconds + "s"@
    }
}

/// `d` in milliseconds below one second, and from there on in seconds, given their text.
pub fn format_duration_ms_with(d: Duration, seconds: &str) -> (res: String)
    ensures
        res@ == duration_ms_text(d@, seconds@),
{
    let ms: u128 = d.as_millis();
    let mut out = String::new();
    if ms < 1000 {
        push_decimal(&mut out, ms as u64);
        out.append("ms");
    } else {
        out.append(seconds);
        out.append("s");
    }
    assert(out@ =~= duration_ms_text(d@, seconds@));
    out
}

/// Like `format_duration` but with sub-second precision, for short durations like per-generation
/// wall time.
pub fn format_duration_ms(d: Duration) -> (res: String)
    ensures
        res@ == duration_ms_text(d@, seconds_text_of(d@)),
        has_two_decimals(seconds_text_of(d@)),
{
    let seconds = two_decimals(d.as_secs(), d.subsec_nanos());
    format_duration_ms_with(d, seconds.as_str())
}

/// The latest entries of `history`, as many as fit the ring.
pub open spec fn latest(history: Seq<int>) -> Seq<int> {
    if history.len() <= RING_CAP {
        history
    } else {
        history.skip(history.len() - RING_CAP)
    }
}

/// Whether no entry of `history` lies before one that precedes it.
pub open spec fn in_order(history: Seq<int>) -> bool {
    forall|i: int, j: int| 0 <= i <= j < history.len() ==> history[i] <= history[j]
}

proof fn lemma_count_bounds(times: Seq<int>, cutoff: int)
    ensures
        count_since(times, cutoff) <= times.len(),
        (forall|i: int| 0 <= i < times.len() ==> #[trigger] times[i] >= cutoff) ==> count_since(
            times,
            cutoff,
        ) == times.len(),
        (forall|i: int| 0 <= i < times.len() ==> #[trigger] times[i] < cutoff) ==> count_since(
            times,
            cutoff,
        ) == 0,
    decreases times.len(),
{
    if times.len() > 0 {
        lemma_count_bounds(times.drop_last(), cutoff);
    }
}

proof fn lemma_count_splits(a: Seq<int>, b: Seq<int>, cutoff: int)
    ensures
        count_since(a + b, cutoff) == count_since(a, cutoff) + count_since(b, cutoff),
    decreases b.len(),
{
    if b.len() == 0 {
        assert(a + b =~= a);
    } else {
        assert((a + b).drop_last() =~= a + b.drop_last());
        lemma_count_splits(a, b.drop_last(), cutoff);
    }
}

/// After any series of generations the ring holds exactly the latest of them: adding one to the
/// latest of a history gives the latest of the longer history.
pub proof fn law_ring_keeps_latest(history: Seq<int>, t: int)
    ensures
        latest(Seq::<int>::empty()) == Seq::<int>::empty(),
        pushed(latest(history), t) == latest(history.push(t)),
{
    assert(pushed(latest(history), t) =~= latest(history.push(t)));
}

/// Overwriting the oldest entries only caps the last-hour count: over generations in the order
/// of time, the ring counts those since any point, up to its capacity.
pub proof fn law_ring_count_is_capped(history: Seq<int>, cutoff: int)
    requires
        in_order(history),
    ensures
        count_since(latest(history), cutoff) == if count_since(history, cutoff) <= RING_CAP {
            count_since(history, cutoff)
        } else {
            RING_CAP as nat
        },
{
    let kept = latest(history);
    lemma_count_bounds(kept, cutoff);
    if history.len() > RING_CAP {
        let dropped = history.take(history.len() - RING_CAP);
        assert(history =~= dropped + kept);
        lemma_count_splits(dropped, kept, cutoff);
        lemma_count_bounds(dropped, cutoff);
        if kept[0] >= cutoff {
            assert forall|i: int| 0 <= i < kept.len() implies #[trigger] kept[i] >= cutoff by {
                assert(kept[0] == history[history.len() - RING_CAP]);
                assert(kept[i] == history[history.len() - RING_CAP + i]);
            }
        } else {
            assert forall|i: int| 0 <= i < dropped.len() implies #[trigger] dropped[i] < cutoff by {
                assert(kept[0] == history[history.len() - RING_CAP]);
                assert(dropped[i] == history[i]);
            }
        }
    }
}

/// The last-hour count never exceeds the number of generations, nor the ring's capacity.
pub proof fn law_last_hour_within_total(stats: Stats, now: int)
    requires
        stats.wf(),
    ensures
        count_since(stats@.recent, stats@.cutoff(now)) <= stats@.total(),
        count_since(stats@.recent, stats@.cutoff(now)) <= RING_CAP,
{
    lemma_count_bounds(stats@.recent, stats@.cutoff(now));
}

/// In the first hour, every generation that the ring holds counts as one of the last hour.
pub proof fn law_first_hour_counts_all(stats: StatsModel, now: int)
    requires
        forall|i: int| 0 <= i < stats.recent.len() ==> #[trigger] stats.recent[i] >= stats.start,
        stats.cutoff(now) <= stats.start,
    ensures
        count_since(stats.recent, stats.cutoff(now)) == stats.recent.len(),
{
    lemma_count_bounds(stats.recent, stats.cutoff(now));
}

/// A generation that ends leaves the in-flight count as it was before it started. One that is
/// abandoned leaves everything as it was; one that succeeds leaves what recording it alone
/// would, and is counted once.
pub proof fn law_in_flight_is_balanced(stats: StatsModel, kind: Kind, now: int, duration: nat)
    ensures
        stats.started().ended() == stats,
        stats.started().recorded(kind, now, duration).ended() == stats.recorded(
            kind,
            now,
            duration,
        ),
        stats.recorded(kind, now, duration).in_flight == stats.in_flight,
        stats.recorded(kind, now, duration).total() == stats.total() + 1,
{
}

/// What happens to a generation: it starts, succeeds at a point in time after a span, or is
/// abandoned.
pub enum StatsEvent {
    Start,
    Success(Kind, int, nat),
    Abandon,
}

impl StatsModel {
    /// The statistics once `event` has happened.
    pub open spec fn after(self, event: StatsEvent) -> StatsModel {
        match event {
            StatsEvent::Start => self.started(),
            StatsEvent::Success(kind, now, duration) => self.recorded(
                kind,
                now,
                duration,
            ).ended(),
            StatsEvent::Abandon => self.ended(),
        }
    }

    /// The statistics once `events` have happened one after another.
    pub open spec fn after_all(self, events: Seq<StatsEvent>) -> StatsModel
        decreases events.len(),
    {
        if events.len() == 0 {
            self
        } else {
            self.after_all(events.drop_last()).after(events.last())
        }
    }
}

/// The number of generations that have started and not ended.
pub open spec fn unfinished(events: Seq<StatsEvent>) -> int
    decreases events.len(),
{
    if events.len() == 0 {
        0
    } else {
        unfinished(events.drop_last()) + (match events.last() {
            StatsEvent::Start => 1int,
            _ => -1int,
        })
    }
}

/// When the generations that succeeded did so, in order.
pub open spec fn success_times(events: Seq<StatsEvent>) -> Seq<int>
    decreases events.len(),
{
    if events.len() == 0 {
        Seq::empty()
    } else {
        match events.last() {
            StatsEvent::Success(_, now, _) => success_times(events.drop_last()).push(now),
            _ => success_times(events.drop_last()),
        }
    }
}

/// Whether no more generations have ended than started, at any time.
pub open spec fn is_run(events: Seq<StatsEvent>) -> bool {
    forall|n: int| 0 <= n <= events.len() ==> unfinished(#[trigger] events.take(n)) >= 0
}

/// Over a whole run, however the generations interleave, the in-flight count is the number of
/// those that have started and not ended, the total is the number of those that succeeded, and
/// the ring holds the latest of them.
pub proof fn law_run_is_counted(stats: StatsModel, events: Seq<StatsEvent>)
    requires
        stats.total() == 0,
        stats.in_flight == 0,
        stats.recent.len() == 0,
        is_run(events),
    ensures
        stats.after_all(events).start == stats.start,
        stats.after_all(events).in_flight == unfinished(events),
        stats.after_all(events).total() == success_times(events).len(),
        stats.after_all(events).recent == latest(success_times(events)),
    decreases events.len(),
{
    if events.len() == 0 {
        assert(stats.recent =~= Seq::<int>::empty());
    } else {
        let front = events.drop_last();
        assert(events.take(events.len() as int) =~= events);
        assert(events.take(front.len() as int) =~= front);
        assert(unfinished(events.take(events.len() as int)) >= 0);
        assert forall|n: int| 0 <= n <= front.len() implies unfinished(#[trigger] front.take(n))
            >= 0 by {
            assert(front.take(n) =~= events.take(n));
        }
        law_run_is_counted(stats, front);
        if let StatsEvent::Success(_, now, _) = events.last() {
            law_ring_keeps_latest(success_times(front), now);
        }
    }
}

/// Over a whole run whose generations succeed in the order of time, the last-hour count is the
/// number of those that succeeded in the last hour, up to the ring's capacity.
pub proof fn law_run_last_hour(stats: StatsModel, events: Seq<StatsEvent>, now: int)
    requires
        stats.total() == 0,
        stats.in_flight == 0,
        stats.recent.len() == 0,
        is_run(events),
        in_order(success_times(events)),
    ensures
        ({
            let after = stats.after_all(events);
            let exact = count_since(success_times(events), after.cutoff(now));
            count_since(after.recent, after.cutoff(now)) == if exact <= RING_CAP {
                exact
            } else {
                RING_CAP as nat
            }
        }),
{
    law_run_is_counted(stats, events);
    law_ring_count_is_capped(success_times(events), stats.after_all(events).cutoff(now));
}

/// Each generation is counted by itself, and counts exactly when it does not lie before the cutoff.
pub proof fn law_each_generation_is_counted(a: Seq<int>, b: Seq<int>, t: int, cutoff: int)
    ensures
        count_since(a + b, cutoff) == count_since(a, cutoff) + count_since(b, cutoff),
        count_since(seq![t], cutoff) == if t < cutoff {
            0nat
        } else {
            1nat
        },
{
    lemma_count_splits(a, b, cutoff);
    assert(seq![t].drop_last() =~= Seq::<int>::empty());
    assert(count_since(Seq::empty(), cutoff) == 0);
}

/// The newest generation always enters the ring, at its end. Those before it stay in their order,
/// without a gap, up to a thousand and twenty-four in all.
pub proof fn law_ring_drops_only_the_oldest(times: Seq<int>, t: int, back: int)
    requires
        times.len() <= 1024,
    ensures
        pushed(times, t).len() == if times.len() < 1024 {
            times.len() as int + 1
        } else {
            1024
        },
        pushed(times, t).last() == t,
        1 <= back < pushed(times, t).len() ==> pushed(times, t)[pushed(times, t).len() - 1 - back]
            == times[times.len() - back],
{
}

/// The latest of a history are its end, as long as fits.
pub proof fn law_latest_are_the_end(history: Seq<int>, back: int)
    ensures
        latest(history).len() == if history.len() < 1024 {
            history.len() as int
        } else {
            1024
        },
        1 <= back <= latest(history).len() ==> latest(history)[latest(history).len() - back]
            == history[history.len() - back],
{
}

/// A generation that succeeds raises the count of its own kind by one and the time spent by its
/// length; the other count, the start and the number in flight stay.
pub proof fn law_success_counts_for_its_kind(stats: StatsModel, now: int, duration: nat)
    ensures
        ({
            let p = stats.recorded(Kind::Pane, now, duration);
            let w = stats.recorded(Kind::Window, now, duration);
            &&& p.panes == stats.panes + 1 && p.windows == stats.windows
            &&& w.panes == stats.panes && w.windows == stats.windows + 1
            &&& p.total_time == stats.total_time + duration
            &&& w.total_time == stats.total_time + duration
            &&& p.start == stats.start && w.start == stats.start
            &&& p.in_flight == stats.in_flight && w.in_flight == stats.in_flight
            &&& p.recent.len() > 0 && p.recent.last() == now
            &&& w.recent == p.recent
            &&& stats.total() == stats.generations(Kind::Pane) + stats.generations(Kind::Window)
            &&& p.generations(Kind::Pane) == stats.generations(Kind::Pane) + 1
            &&& w.generations(Kind::Window) == stats.generations(Kind::Window) + 1
            &&& w.total() == stats.total() + 1
        }),
{
}

/// A start counts one more in flight and an end one fewer, never below zero; neither touches
/// anything else.
pub proof fn law_start_and_end_count_one(stats: StatsModel)
    ensures
        ({
            let s = stats.started();
            let e = stats.ended();
            &&& s.in_flight == stats.in_flight + 1
            &&& stats.in_flight > 0 ==> e.in_flight + 1 == stats.in_flight
            &&& stats.in_flight == 0 ==> e.in_flight == 0
            &&& s.panes == stats.panes && e.panes == stats.panes
            &&& s.windows == stats.windows && e.windows == stats.windows
            &&& s.recent == stats.recent && e.recent == stats.recent
            &&& s.total_time == stats.total_time && e.total_time == stats.total_time
            &&& s.start == stats.start && e.start == stats.start
        }),
{
}

/// There is room for a generation exactly when what recording it gives can be represented.
pub proof fn law_room_is_for_what_can_be_counted(stats: Stats, kind: Kind, duration: Duration)
    ensures
        ({
            let after = stats@.recorded(kind, 0, duration@);
            stats@.has_room(kind, duration@) <==> after.panes <= u64::MAX && after.windows
                <= u64::MAX && after.total_time <= max_duration()
        }),
{
}

/// A generation is one of the last hour exactly when no more than an hour has passed since it
/// completed. Before the clock is an hour past its earliest point, all since the start are.
pub proof fn law_last_hour_is_an_hour(stats: StatsModel, t: int, now: int)
    ensures
        now - 3_600_000_000_000 >= min_instant() ==> (count_since(seq![t], stats.cutoff(now)) == 1
            <==> now - t <= 3_600_000_000_000),
        now - 3_600_000_000_000 < min_instant() ==> (count_since(seq![t], stats.cutoff(now)) == 1
            <==> t >= stats.start),
{
    law_each_generation_is_counted(Seq::empty(), Seq::empty(), t, stats.cutoff(now));
}

/// The uptime leads from the start to now, and is zero before the start.
pub proof fn law_uptime_runs_from_the_start(stats: StatsModel, now: int)
    ensures
        now >= stats.start ==> stats.start + stats.uptime(now) == now,
        now < stats.start ==> stats.uptime(now) == 0,
{
}

/// There are averages as soon as there was a generation. That many times the average is the whole,
/// but for less than the number of generations.
pub proof fn law_averages_make_up_the_whole(stats: StatsModel, now: int)
    ensures
        stats.total() == 0 ==> stats.average_time() is None && stats.average_interval(now) is None,
        1 <= stats.total() <= u32::MAX ==> ({
            let n = stats.total() as int;
            &&& stats.average_time() is Some && stats.average_interval(now) is Some
            &&& 0 <= stats.total_time - n * stats.average_time().unwrap() < n
            &&& 0 <= stats.uptime(now) - n * stats.average_interval(now).unwrap() < n
        }),
        stats.total() > u32::MAX ==> ({
            let n = u32::MAX as int;
            &&& stats.average_time() is Some && stats.average_interval(now) is Some
            &&& 0 <= stats.total_time - n * stats.average_time().unwrap() < n
            &&& 0 <= stats.uptime(now) - n * stats.average_interval(now).unwrap() < n
        }),
{
    if stats.total() > 0 {
        let n = stats.divisor() as int;
        vstd::arithmetic::div_mod::lemma_fundamental_div_mod(stats.total_time as int, n);
        vstd::arithmetic::div_mod::lemma_fundamental_div_mod(stats.uptime(now) as int, n);
        vstd::arithmetic::div_mod::lemma_mod_bound(stats.total_time as int, n);
        vstd::arithmetic::div_mod::lemma_mod_bound(stats.uptime(now) as int, n);
    }
}

/// A span of hours, minutes and seconds is written with just these numbers, without leading units
/// that are zero; what is left below a second is not shown.
pub proof fn law_duration_is_told_in_units(h: nat, m: nat, s: nat, rest: nat)
    requires
        m < 60,
        s < 60,
        rest < 1_000_000_000,
    ensures
        ({
            let text = duration_text((h * 3600 + m * 60 + s) * 1_000_000_000 + rest);
            &&& h > 0 ==> text == decimal(h) + "h"@ + decimal(m) + "m"@ + decimal(s) + "s"@
            &&& h == 0 && m > 0 ==> text == decimal(m) + "m"@ + decimal(s) + "s"@
            &&& h == 0 && m == 0 ==> text == decimal(s) + "s"@
        }),
{
    let total = h * 3600 + m * 60 + s;
    let nanos = total * 1_000_000_000 + rest;
    assert(nanos / NANOS_PER_SEC as nat == total);
    assert(total / 3600 == h);
    assert((total % 3600) / 60 == m);
    assert(total % 60 == s);
}

/// A span below one second is told in whole milliseconds, and a longer one by the text of its
/// seconds.
pub proof fn law_short_duration_is_told_in_milliseconds(
    ms: nat,
    rest: nat,
    secs: u64,
    nanos: u32,
    seconds: Seq<char>,
)
    requires
        ms < 1000,
        rest < 1_000_000,
        nanos < 1_000_000_000,
    ensures
        duration_ms_text(ms * 1_000_000 + rest, seconds) == decimal(ms) + "ms"@,
        secs > 0 ==> duration_ms_text((secs * 1_000_000_000 + nanos) as nat, seconds) == seconds
            + "s"@,
        seconds_text_of((secs * 1_000_000_000 + nanos) as nat) == seconds_text(secs, nanos),
{
    assert((ms * 1_000_000 + rest) / 1_000_000 == ms);
    let whole = (secs * 1_000_000_000 + nanos) as nat;
    assert(whole / NANOS_PER_SEC as nat == secs as nat);
    assert(whole % NANOS_PER_SEC as nat == nanos as nat);
}

/// What happened in two stretches, one after the other, gives the same statistics as all of it.
pub proof fn law_events_add_up(stats: StatsModel, a: Seq<StatsEvent>, b: Seq<StatsEvent>)
    ensures
        stats.after_all(a + b) == stats.after_all(a).after_all(b),
    decreases b.len(),
{
    if b.len() == 0 {
        assert(a + b =~= a);
    } else {
        assert((a + b).drop_last() =~= a + b.drop_last());
        law_events_add_up(stats, a, b.drop_last());
    }
}

/// Whether `s` stands within a line.
spec fn is_inline(s: Seq<char>) -> bool {
    forall|i: int| 0 <= i < s.len() ==> #[trigger] s[i] != '\n' && s[i] != '\r'
}

proof fn lemma_inline(a: Seq<char>, b: Seq<char>)
    requires
        is_inline(a),
        is_inline(b),
    ensures
        is_inline(a + b),
{
}

proof fn lemma_decimal_inline(n: nat)
    ensures
        is_inline(decimal(n)),
        decimal(n).len() > 0,
{
    law_decimal_reads_back(n);
}

proof fn lemma_duration_inline(nanos: nat)
    ensures
        is_inline(duration_text(nanos)),
{
    reveal_strlit("h");
    reveal_strlit("m");
    reveal_strlit("s");
    let total = nanos / NANOS_PER_SEC as nat;
    let (h, m, s) = (total / 3600, (total % 3600) / 60, total % 60);
    lemma_decimal_inline(h);
    lemma_decimal_inline(m);
    lemma_decimal_inline(s);
    lemma_inline(decimal(s), "s"@);
    lemma_inline(decimal(m), "m"@);
    lemma_inline(decimal(m) + "m"@, decimal(s));
    lemma_inline(decimal(m) + "m"@ + decimal(s), "s"@);
    lemma_inline(decimal(h), "h"@);
    lemma_inline(decimal(h) + "h"@, decimal(m));
    lemma_inline(decimal(h) + "h"@ + decimal(m), "m"@);
    lemma_inline(decimal(h) + "h"@ + decimal(m) + "m"@, decimal(s));
    lemma_inline(decimal(h) + "h"@ + decimal(m) + "m"@ + decimal(s), "s"@);
}

proof fn lemma_six_lines(
    a: Seq<char>,
    b: Seq<char>,
    c: Seq<char>,
    d: Seq<char>,
    e: Seq<char>,
    f: Seq<char>,
)
    requires
        is_inline(a) && a.len() > 0,
        is_inline(b) && b.len() > 0,
        is_inline(c) && c.len() > 0,
        is_inline(d) && d.len() > 0,
        is_inline(e) && e.len() > 0,
        is_inline(f) && f.len() > 0,
    ensures
        lines(
            a + "\n"@ + b + "\n"@ + c + "\n"@ + d + "\n"@ + e + "\n"@ + f,
        ) == seq![a, b, c, d, e, f],
{
    let n = "\n"@;
    let all = seq![a, b, c, d, e, f];
    assert(seq![a, b].drop_last() =~= seq![a]);
    assert(seq![a, b, c].drop_last() =~= seq![a, b]);
    assert(seq![a, b, c, d].drop_last() =~= seq![a, b, c]);
    assert(seq![a, b, c, d, e].drop_last() =~= seq![a, b, c, d]);
    assert(all.drop_last() =~= seq![a, b, c, d, e]);
    assert(join(seq![a], n) == a);
    assert(join(seq![a, b], n) == a + n + b);
    assert(join(seq![a, b, c], n) == a + n + b + n + c);
    assert(join(seq![a, b, c, d], n) == a + n + b + n + c + n + d);
    assert(join(seq![a, b, c, d, e], n) == a + n + b + n + c + n + d + n + e);
    assert(join(all, n) == a + n + b + n + c + n + d + n + e + n + f);
    assert forall|i: int| 0 <= i < all.len() implies (#[trigger] all[i]).len() > 0
        && !all[i].contains('\n') && all[i].last() != '\r' by {
        let s = all[i];
        assert(is_inline(s));
        assert(s.last() == s[s.len() - 1]);
    }
    law_joined_lines_read_back(all);
}

/// The report has six lines, one for each figure, and each tells its own: the uptime, the
/// generations in all and of each kind, those of the last hour, the two averages, and how many are
/// in flight.
pub proof fn law_report_has_a_line_for_each_figure(
    stats: StatsModel,
    now: int,
    average_time: Seq<char>,
)
    requires
        !average_time.contains('\n'),
        !average_time.contains('\r'),
    ensures
        lines(stats.report(now, average_time)) == seq![
            "uptime: "@ + duration_text(stats.uptime(now)),
            "total generations: "@ + decimal(stats.panes + stats.windows) + " (panes: "@ + decimal(
                stats.panes,
            ) + ", windows: "@ + decimal(stats.windows) + ")"@,
            "last hour: "@ + decimal(count_since(stats.recent, stats.cutoff(now))),
            "avg interval: "@ + if stats.panes + stats.windows == 0 {
                "n/a"@
            } else {
                duration_text(stats.average_interval(now).unwrap())
            },
            "avg generation time: "@ + average_time,
            "in flight: "@ + decimal(stats.in_flight),
        ],
{
    reveal_strlit("uptime: ");
    reveal_strlit("total generations: ");
    reveal_strlit("\ntotal generations: ");
    reveal_strlit(" (panes: ");
    reveal_strlit(", windows: ");
    reveal_strlit(")");
    reveal_strlit(")\nlast hour: ");
    reveal_strlit("last hour: ");
    reveal_strlit("\navg interval: ");
    reveal_strlit("avg interval: ");
    reveal_strlit("\navg generation time: ");
    reveal_strlit("avg generation time: ");
    reveal_strlit("\nin flight: ");
    reveal_strlit("in flight: ");
    reveal_strlit("n/a");
    reveal_strlit("\n");
    let (up, total) = (duration_text(stats.uptime(now)), decimal(stats.panes + stats.windows));
    let (panes, windows) = (decimal(stats.panes), decimal(stats.windows));
    let hour = decimal(count_since(stats.recent, stats.cutoff(now)));
    let interval = if stats.panes + stats.windows == 0 {
        "n/a"@
    } else {
        duration_text(stats.average_interval(now).unwrap())
    };
    let flight = decimal(stats.in_flight);
    lemma_duration_inline(stats.uptime(now));
    lemma_decimal_inline(stats.panes + stats.windows);
    lemma_decimal_inline(stats.panes);
    lemma_decimal_inline(stats.windows);
    lemma_decimal_inline(count_since(stats.recent, stats.cutoff(now)));
    lemma_duration_inline(stats.average_interval(now).unwrap());
    lemma_decimal_inline(stats.in_flight);
    let a = "uptime: "@ + up;
    let b = "total generations: "@ + total + " (panes: "@ + panes + ", windows: "@ + windows
        + ")"@;
    let c = "last hour: "@ + hour;
    let d = "avg interval: "@ + interval;
    let e = "avg generation time: "@ + average_time;
    let f = "in flight: "@ + flight;
    lemma_inline("uptime: "@, up);
    lemma_inline("total generations: "@, total);
    lemma_inline("total generations: "@ + total, " (panes: "@);
    lemma_inline("total generations: "@ + total + " (panes: "@, panes);
    lemma_inline("total generations: "@ + total + " (panes: "@ + panes, ", windows: "@);
    lemma_inline("total generations: "@ + total + " (panes: "@ + panes + ", windows: "@, windows);
    lemma_inline(
        "total generations: "@ + total + " (panes: "@ + panes + ", windows: "@ + windows,
        ")"@,
    );
    lemma_inline("last hour: "@, hour);
    lemma_inline("avg interval: "@, interval);
    assert(is_inline(average_time));
    lemma_inline("avg generation time: "@, average_time);
    lemma_inline("in flight: "@, flight);
    assert("\ntotal generations: "@ =~= "\n"@ + "total generations: "@);
    assert(")\nlast hour: "@ =~= ")"@ + "\n"@ + "last hour: "@);
    assert("\navg interval: "@ =~= "\n"@ + "avg interval: "@);
    assert("\navg generation time: "@ =~= "\n"@ + "avg generation time: "@);
    assert("\nin flight: "@ =~= "\n"@ + "in flight: "@);
    assert(stats.report(now, average_time) =~= a + "\n"@ + b + "\n"@ + c + "\n"@ + d + "\n"@ + e
        + "\n"@ + f);
    lemma_six_lines(a, b, c, d, e, f);
}

/// The average generation time is told as a short span: in milliseconds below one second, and by
/// its seconds from there on; before the first generation there is none to tell.
pub proof fn law_average_is_told_as_a_short_duration(stats: StatsModel)
    ensures
        stats.panes + stats.windows == 0 ==> stats.average_time_text() == "n/a"@,
        1 <= stats.panes + stats.windows <= u32::MAX ==> ({
            let average = stats.total_time / (stats.panes + stats.windows);
            &&& average < 1_000_000_000 ==> stats.average_time_text() == decimal(
                average / 1_000_000,
            ) + "ms"@
            &&& average >= 1_000_000_000 ==> stats.average_time_text() == seconds_text(
                (average / 1_000_000_000) as u64,
                (average % 1_000_000_000) as u32,
            ) + "s"@
        }),
{
}

} // verus!
