//! Change tracking: when the content of a pane or window changed, and when its title was made.
use crate::time::{elapsed, Duration, Instant};
use vstd::prelude::*;

verus! {

/// Tracks content changes and generation timing for both panes and windows.
#[derive(Clone, Copy, Debug)]
pub struct ChangeTracker {
    pub last_hash: u64,
    pub last_changed: Instant,
    pub last_generated: Instant,
    pub has_generated: bool,
}

impl ChangeTracker {
    /// The tracker of content that is first seen at `now`.
    pub open spec fn first_seen(hash: u64, now: Instant) -> ChangeTracker {
        ChangeTracker {
            last_hash: hash,
            last_changed: now,
            last_generated: now,
            has_generated: false,
        }
    }

    /// The tracker once content with this hash was seen at `now`.
    pub open spec fn seen(self, hash: u64, now: Instant) -> ChangeTracker {
        if hash != self.last_hash {
            ChangeTracker { last_hash: hash, last_changed: now, ..self }
        } else {
            self
        }
    }

    /// Whether a title is due: none was generated yet, or the content changed since the last one
    /// and `delay` has passed since that change.
    pub open spec fn due(self, now: int, delay: nat) -> bool {
        ||| !self.has_generated
        ||| self.last_changed@ > self.last_generated@ && elapsed(self.last_changed@, now) >= delay
    }

    /// The tracker once a title generation was started at `now`.
    pub open spec fn generated(self, now: Instant) -> ChangeTracker {
        ChangeTracker { last_generated: now, has_generated: true, ..self }
    }

    /// The tracker once a new title was asked for.
    pub open spec fn reset(self) -> ChangeTracker {
        ChangeTracker { has_generated: false, ..self }
    }

    /// A tracker of content that is first seen at `now`.
    pub fn new(hash: u64, now: Instant) -> (res: Self)
        ensures
            res == ChangeTracker::first_seen(hash, now),
    {
        ChangeTracker {
            last_hash: hash,
            last_changed: now,
            last_generated: now,
            has_generated: false,
        }
    }

    /// Notes the hash of the content seen at `now`.
    pub fn update_hash(&mut self, hash: u64, now: Instant)
        ensures
            *final(self) == old(self).seen(hash, now),
    {
        if hash != self.last_hash {
            self.last_changed = now;
            self.last_hash = hash;
        }
    }

    /// Whether a title is due at `now`.
    pub fn should_generate(&self, now: Instant, regen_delay: Duration) -> (res: bool)
        ensures
            res == self.due(now@, regen_delay@),
    {
        if !self.has_generated {
            true
        } else {
            self.last_changed.is_after(self.last_generated) && now.duration_since(
                self.last_changed,
            ).is_at_least(regen_delay)
        }
    }

    /// Notes that a title generation was started at `now`.
    pub fn mark_generated(&mut self, now: Instant)
        ensures
            *final(self) == old(self).generated(now),
    {
        self.last_generated = now;
        self.has_generated = true;
    }

    /// Asks for a new title.
    pub fn request_title(&mut self)
        ensures
            *final(self) == old(self).reset(),
    {
        self.has_generated = false;
    }
}

/// On first sight a title is due at once, whatever the delay.
pub proof fn law_first_sight_is_due(hash: u64, seen_at: Instant, now: int, delay: nat)
    ensures
        ChangeTracker::first_seen(hash, seen_at).due(now, delay),
{
}

/// Content that has not changed since its title was generated never makes a new one due,
/// however often it is seen.
pub proof fn law_unchanged_content_is_quiet(t: ChangeTracker, now: Instant, delay: nat)
    requires
        t.has_generated,
        t.last_changed@ <= t.last_generated@,
    ensures
        t.seen(t.last_hash, now) == t,
        !t.due(now@, delay),
{
}

/// Once a title was generated, content that changes makes the next one due exactly when the
/// delay has passed since the change; each further change starts the delay anew.
pub proof fn law_change_waits_out_the_delay(
    t: ChangeTracker,
    hash: u64,
    changed_at: Instant,
    now: int,
    delay: nat,
)
    requires
        t.has_generated,
        hash != t.last_hash,
        changed_at@ > t.last_generated@,
    ensures
        t.seen(hash, changed_at).due(now, delay) <==> elapsed(changed_at@, now) >= delay,
{
}

/// A title that was asked for stays due, whatever is seen, until a generation is started; a
/// generation started no earlier than the last change then settles it.
pub proof fn law_request_stays_due(
    t: ChangeTracker,
    hash: u64,
    seen_at: Instant,
    now: Instant,
    delay: nat,
)
    ensures
        t.reset().due(now@, delay),
        t.reset().seen(hash, seen_at).due(now@, delay),
        t.reset().seen(hash, seen_at).last_changed@ <= now@ ==> !t.reset().seen(
            hash,
            seen_at,
        ).generated(now).due(now@, delay),
{
}

/// Only the hash tells content apart: the content of the first look, seen again, is no change, and
/// once its title was generated it is quiet.
pub proof fn law_first_content_seen_again(
    hash: u64,
    seen_at: Instant,
    again: Instant,
    made_at: Instant,
    now: int,
    delay: nat,
)
    requires
        made_at@ >= seen_at@,
    ensures
        ChangeTracker::first_seen(hash, seen_at).seen(hash, again) == ChangeTracker::first_seen(
            hash,
            seen_at,
        ),
        !ChangeTracker::first_seen(hash, seen_at).generated(made_at).due(now, delay),
        !ChangeTracker::first_seen(hash, seen_at).generated(made_at).seen(hash, again).due(
            now,
            delay,
        ),
{
}

/// A change is noted once, with its time: the same content seen again changes nothing, and other
/// content moves the time of the change to when it is seen.
pub proof fn law_each_change_is_timed(
    t: ChangeTracker,
    a: u64,
    b: u64,
    at_a: Instant,
    at_b: Instant,
)
    requires
        a != t.last_hash,
        b != a,
    ensures
        t.seen(a, at_a).seen(a, at_b) == t.seen(a, at_a),
        t.seen(a, at_a).last_changed == at_a,
        t.seen(a, at_a).seen(b, at_b).last_changed == at_b,
        t.seen(a, at_a).has_generated == t.has_generated,
        t.seen(a, at_a).last_generated == t.last_generated,
{
}

} // verus!
