//! The in-memory limiter that counts every request of a window.
//!
//! An identifier's first request opens a window of `WINDOW_NANOS` and counts
//! one attempt; every later request inside the window counts one more and is
//! allowed while the count is at most `RATE_LIMIT_MAX`. The count stops at
//! `i32::MAX`, so a limit once reached stays reached until the window closes.
//! A request that comes after the window has closed opens a new one.
use vstd::prelude::*;

use crate::RATE_LIMIT_MAX;
use crate::table::{
    clock_now, live_entries, window_end, window_fits, window_fits_at, EntryTable, LimitData,
    TIMESTAMP_MAX_NANOS, TIMESTAMP_MIN_NANOS, WINDOW_NANOS,
};

verus! {

/// One more attempt on top of `tries`, stopping at `i32::MAX`.
pub open spec fn next_count(tries: i32) -> i32 {
    if tries < i32::MAX {
        (tries + 1) as i32
    } else {
        i32::MAX
    }
}

/// What one request of `id` at `now` does to the entries `m`: the new
/// entries, and whether the request is allowed.
pub open spec fn allow_step(m: Map<Seq<char>, LimitData>, id: Seq<char>, now: int) -> (
    Map<Seq<char>, LimitData>,
    bool,
) {
    if m.contains_key(id) && now <= m[id].expiry {
        let tries = next_count(m[id].tries);
        (m.insert(id, LimitData { tries, expiry: m[id].expiry }), tries <= RATE_LIMIT_MAX)
    } else {
        (m.insert(id, LimitData { tries: 1, expiry: (now + WINDOW_NANOS) as i128 }), true)
    }
}

/// The results of requests of `id` at the instants `times`, in order, each
/// applied to the entries the previous one left: the final entries and
/// whether each request was allowed.
pub open spec fn allow_run(m: Map<Seq<char>, LimitData>, id: Seq<char>, times: Seq<i128>) -> (
    Map<Seq<char>, LimitData>,
    Seq<bool>,
)
    decreases times.len(),
{
    if times.len() == 0 {
        (m, Seq::empty())
    } else {
        let (m1, b) = allow_step(m, id, times[0] as int);
        let (m2, bs) = allow_run(m1, id, times.drop_first());
        (m2, seq![b] + bs)
    }
}

/// Inside an open window with `c` attempts already counted, the requests of
/// a run are allowed while their count stays at most `RATE_LIMIT_MAX`.
proof fn lemma_counting_run(m: Map<Seq<char>, LimitData>, id: Seq<char>, times: Seq<i128>, c: int)
    requires
        m.contains_key(id),
        m[id].tries == c,
        1 <= c,
        forall|i: int| 0 <= i < times.len() ==> #[trigger] times[i] <= m[id].expiry,
    ensures
        allow_run(m, id, times).1.len() == times.len(),
        forall|i: int|
            0 <= i < times.len() ==> #[trigger] allow_run(m, id, times).1[i] == (c + i + 1
                <= RATE_LIMIT_MAX),
    decreases times.len(),
{
    if times.len() > 0 {
        let (m1, b) = allow_step(m, id, times[0] as int);
        let rest = times.drop_first();
        assert forall|i: int| 0 <= i < rest.len() implies #[trigger] rest[i] <= m1[id].expiry by {
            assert(rest[i] == times[i + 1]);
        }
        let c1 = m1[id].tries as int;
        lemma_counting_run(m1, id, rest, c1);
        let bs = allow_run(m1, id, rest).1;
        assert(allow_run(m, id, times).1 == seq![b] + bs);
        assert forall|i: int|
            0 <= i < times.len() implies #[trigger] allow_run(m, id, times).1[i] == (c + i + 1
                <= RATE_LIMIT_MAX) by {
            if i > 0 {
                assert(allow_run(m, id, times).1[i] == bs[i - 1]);
                assert((c1 + (i - 1) + 1 <= RATE_LIMIT_MAX) == (c + i + 1 <= RATE_LIMIT_MAX));
            }
        }
    }
}

/// Within one window an identifier is allowed exactly `RATE_LIMIT_MAX`
/// requests. When `id` has no open window at the first instant of a run of
/// requests at non-decreasing instants that all come before the window
/// opened by the first one closes, the first `RATE_LIMIT_MAX` requests are
/// allowed and every later one is refused.
pub proof fn lemma_window_admits_max(m: Map<Seq<char>, LimitData>, id: Seq<char>, times: Seq<i128>)
    requires
        times.len() > 0,
        !m.contains_key(id) || m[id].expiry < times[0],
        forall|i: int, j: int| 0 <= i <= j < times.len() ==> times[i] <= times[j],
        forall|i: int| 0 <= i < times.len() ==> #[trigger] times[i] <= times[0] + WINDOW_NANOS,
        window_fits(times[0] as int),
    ensures
        allow_run(m, id, times).1.len() == times.len(),
        forall|i: int|
            0 <= i < times.len() ==> #[trigger] allow_run(m, id, times).1[i] == (i
                < RATE_LIMIT_MAX),
{
    let (m1, b) = allow_step(m, id, times[0] as int);
    assert(b);
    assert(m1[id] == LimitData { tries: 1, expiry: (times[0] + WINDOW_NANOS) as i128 });
    let rest = times.drop_first();
    assert forall|i: int| 0 <= i < rest.len() implies #[trigger] rest[i] <= m1[id].expiry by {
        assert(rest[i] == times[i + 1]);
    }
    lemma_counting_run(m1, id, rest, 1);
    let bs = allow_run(m1, id, rest).1;
    assert(allow_run(m, id, times).1 == seq![b] + bs);
    assert forall|i: int|
        0 <= i < times.len() implies #[trigger] allow_run(m, id, times).1[i] == (i
            < RATE_LIMIT_MAX) by {
        if i > 0 {
            assert(allow_run(m, id, times).1[i] == bs[i - 1]);
        }
    }
}

/// Sweeping out closed windows is invisible to later requests: a request
/// made at or after the sweep gets the same answer, and leaves the same
/// entry for its identifier, as it would have without the sweep.
pub proof fn lemma_cleanup_unobservable(
    m: Map<Seq<char>, LimitData>,
    id: Seq<char>,
    swept_at: int,
    now: int,
)
    requires
        swept_at <= now,
    ensures
        allow_step(live_entries(m, swept_at), id, now).1 == allow_step(m, id, now).1,
        allow_step(live_entries(m, swept_at), id, now).0 =~= live_entries(m, swept_at).insert(
            id,
            allow_step(m, id, now).0[id],
        ),
{
}

/// Identifiers are limited independently: a request of `id` leaves the entry
/// of every other identifier as it was.
pub proof fn lemma_identifiers_independent(
    m: Map<Seq<char>, LimitData>,
    id: Seq<char>,
    other: Seq<char>,
    now: int,
)
    requires
        id != other,
    ensures
        allow_step(m, id, now).0.contains_key(other) == m.contains_key(other),
        m.contains_key(other) ==> allow_step(m, id, now).0[other] == m[other],
{
}

/// An in-memory rate limiter keyed by client identifier.
pub struct InMemoryLimiter {
    table: EntryTable,
}

impl View for InMemoryLimiter {
    type V = Map<Seq<char>, LimitData>;

    closed spec fn view(&self) -> Map<Seq<char>, LimitData> {
        self.table@
    }
}

impl InMemoryLimiter {
    #[verifier::type_invariant]
    spec fn inv(self) -> bool {
        self.table.wf()
    }

    /// Creates a limiter that tracks no identifier yet.
    pub fn new() -> (limiter: Self)
        ensures
            limiter@ == Map::<Seq<char>, LimitData>::empty(),
    {
        InMemoryLimiter { table: EntryTable::new() }
    }

    /// Tells whether `allow(.., now)` may be called: a window opened at
    /// `now` must close at a representable instant.
    pub fn can_allow(now: i128) -> (ok: bool)
        ensures
            ok == window_fits(now as int),
    {
        window_fits_at(now)
    }

    /// Decides whether `identifier` may make a request at `now` and records
    /// the attempt.
    ///
    /// The attempt is counted in the identifier's current window, or opens a
    /// new window when there is none or it closed before `now`; the request
    /// is allowed while the window's count is at most `RATE_LIMIT_MAX`.
    pub fn allow(&mut self, identifier: &str, now: i128) -> (allowed: bool)
        requires
            window_fits(now as int),
        ensures
            (final(self)@, allowed) == allow_step(old(self)@, identifier@, now as int),
    {
        proof {
            use_type_invariant(&*self);
        }
        let mut table = EntryTable::new();
        std::mem::swap(&mut table, &mut self.table);
        let allowed = match table.lookup(identifier) {
            Some(data) => {
                if now > data.expiry {
                    table.store(identifier, LimitData { tries: 1, expiry: window_end(now) });
                    true
                } else {
                    let tries = if data.tries < i32::MAX {
                        data.tries + 1
                    } else {
                        i32::MAX
                    };
                    table.store(identifier, LimitData { tries, expiry: data.expiry });
                    tries <= RATE_LIMIT_MAX
                }
            },
            None => {
                table.store(identifier, LimitData { tries: 1, expiry: window_end(now) });
                true
            },
        };
        self.table = table;
        allowed
    }

    /// Forgets every identifier whose window closed before `now`; those
    /// whose window closes at `now` or later are kept.
    pub fn cleanup(&mut self, now: i128)
        ensures
            final(self)@ == live_entries(old(self)@, now as int),
            forall|k: Seq<char>|
                #[trigger] final(self)@.contains_key(k) <==> (old(self)@.contains_key(k) && now
                    <= old(self)@[k].expiry),
            forall|k: Seq<char>|
                #[trigger] final(self)@.contains_key(k) ==> final(self)@[k] == old(self)@[k],
    {
        proof {
            use_type_invariant(&*self);
        }
        let mut table = EntryTable::new();
        std::mem::swap(&mut table, &mut self.table);
        table.retain_live(now);
        self.table = table;
    }

    /// Reads the clock and decides on a request of `identifier` at that
    /// instant, as `allow` does. Returns the instant read and the decision,
    /// or no decision, leaving the limiter unchanged, where `allow` may not be
    /// called at that instant.
    pub fn allow_now(&mut self, identifier: &str) -> (outcome: (i128, Option<bool>))
        ensures
            TIMESTAMP_MIN_NANOS <= outcome.0 <= TIMESTAMP_MAX_NANOS,
            outcome.1 is None <==> !window_fits(outcome.0 as int),
            outcome.1 is None ==> final(self)@ == old(self)@,
            outcome.1 matches Some(allowed) ==> (final(self)@, allowed) == allow_step(
                old(self)@,
                identifier@,
                outcome.0 as int,
            ),
    {
        let now = clock_now();
        if !Self::can_allow(now) {
            return (now, None);
        }
        let allowed = self.allow(identifier, now);
        (now, Some(allowed))
    }

    /// Reads the clock and forgets every identifier whose window closed
    /// before then. Returns the instant read.
    pub fn cleanup_now(&mut self) -> (now: i128)
        ensures
            TIMESTAMP_MIN_NANOS <= now <= TIMESTAMP_MAX_NANOS,
            final(self)@ == live_entries(old(self)@, now as int),
            forall|k: Seq<char>|
                #[trigger] final(self)@.contains_key(k) <==> (old(self)@.contains_key(k) && now
                    <= old(self)@[k].expiry),
            forall|k: Seq<char>|
                #[trigger] final(self)@.contains_key(k) ==> final(self)@[k] == old(self)@[k],
    {
        let now = clock_now();
        self.cleanup(now);
        now
    }

    /// The entry of `identifier`, if it is tracked.
    pub fn entry(&self, identifier: &str) -> (found: Option<LimitData>)
        ensures
            found == (if self@.contains_key(identifier@) {
                Some(self@[identifier@])
            } else {
                None::<LimitData>
            }),
    {
        self.table.lookup(identifier)
    }

    /// The number of identifiers currently tracked.
    pub fn len(&self) -> (n: usize)
        ensures
            n == self@.len(),
    {
        self.table.len()
    }

    /// Whether no identifier is tracked.
    pub fn is_empty(&self) -> (empty: bool)
        ensures
            empty == (self@.len() == 0),
    {
        self.len() == 0
    }
}

impl Default for InMemoryLimiter {
    /// A limiter that tracks no identifier yet.
    fn default() -> (limiter: Self)
        ensures
            limiter@ == Map::<Seq<char>, LimitData>::empty(),
    {
        InMemoryLimiter::new()
    }
}

} // verus!
