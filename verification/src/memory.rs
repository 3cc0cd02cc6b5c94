//! The in-memory limiter whose window slides with every allowed request.
//!
//! An identifier may make `RATE_LIMIT_MAX` allowed requests; each allowed
//! request moves the end of its window to `WINDOW_NANOS` after it. Refused
//! requests are not counted and do not move the window. A request after the
//! window has closed is allowed and starts the count again from zero.
use vstd::prelude::*;

use crate::table::{
    clock_now, live_entries, window_end, window_fits, window_fits_at, EntryTable, LimitData,
    TIMESTAMP_MAX_NANOS, TIMESTAMP_MIN_NANOS, WINDOW_NANOS,
};

verus! {

/// How many allowed requests one window of this limiter admits.
pub const RATE_LIMIT_MAX: i32 = 5;

/// Every attempt count in `m` lies between zero and `RATE_LIMIT_MAX`.
pub open spec fn counts_bounded(m: Map<Seq<char>, LimitData>) -> bool {
    forall|k: Seq<char>| #[trigger] m.contains_key(k) ==> 0 <= m[k].tries <= RATE_LIMIT_MAX
}

/// What one request of `id` at `now` does to the entries `m`: the new
/// entries, and whether the request is allowed.
pub open spec fn allow_step(m: Map<Seq<char>, LimitData>, id: Seq<char>, now: int) -> (
    Map<Seq<char>, LimitData>,
    bool,
) {
    let end = (now + WINDOW_NANOS) as i128;
    if !m.contains_key(id) {
        (m.insert(id, LimitData { tries: 1, expiry: end }), true)
    } else if now > m[id].expiry {
        (m.insert(id, LimitData { tries: 0, expiry: end }), true)
    } else if m[id].tries >= RATE_LIMIT_MAX {
        (m, false)
    } else {
        (m.insert(id, LimitData { tries: (m[id].tries + 1) as i32, expiry: end }), true)
    }
}

/// The results of requests of `id` at the instants `times`, in order, each
/// applied to the entries the previous one left: the final entries and
/// whether each request was allowed.
pub open spec fn allow_run(m: Map<Seq<char>, LimitData>, id: Seq<char>, times: Seq<i128>) -> (
    Map<Seq<char>, LimitData>,
    Seq<bool>,
)
    decreases times.len(),
{
    if times.len() == 0 {
        (m, Seq::empty())
    } else {
        let (m1, b) = allow_step(m, id, times[0] as int);
        let (m2, bs) = allow_run(m1, id, times.drop_first());
        (m2, seq![b] + bs)
    }
}

/// Inside an open window that reaches at least `bound`, with `c` allowed
/// requests already counted, the requests of a run up to `bound` are allowed
/// while fewer than `RATE_LIMIT_MAX` have been.
proof fn lemma_sliding_run(
    m: Map<Seq<char>, LimitData>,
    id: Seq<char>,
    times: Seq<i128>,
    c: int,
    bound: int,
)
    requires
        m.contains_key(id),
        m[id].tries == c,
        0 <= c <= RATE_LIMIT_MAX,
        bound <= m[id].expiry,
        times.len() > 0 ==> bound <= times[0] + WINDOW_NANOS,
        forall|i: int, j: int| 0 <= i <= j < times.len() ==> times[i] <= times[j],
        forall|i: int| 0 <= i < times.len() ==> #[trigger] times[i] <= bound,
        bound + WINDOW_NANOS <= i128::MAX,
    ensures
        allow_run(m, id, times).1.len() == times.len(),
        forall|i: int|
            0 <= i < times.len() ==> #[trigger] allow_run(m, id, times).1[i] == (c + i
                < RATE_LIMIT_MAX),
    decreases times.len(),
{
    if times.len() > 0 {
        let (m1, b) = allow_step(m, id, times[0] as int);
        let rest = times.drop_first();
        assert forall|i: int| 0 <= i < rest.len() implies #[trigger] rest[i] <= bound by {
            assert(rest[i] == times[i + 1]);
        }
        if rest.len() > 0 {
            assert(rest[0] == times[1]);
        }
        if c < RATE_LIMIT_MAX {
            lemma_sliding_run(m1, id, rest, c + 1, bound);
        } else {
            assert(m1 == m);
            lemma_sliding_run(m1, id, rest, c, bound);
        }
        let bs = allow_run(m1, id, rest).1;
        assert(allow_run(m, id, times).1 == seq![b] + bs);
        assert forall|i: int|
            0 <= i < times.len() implies #[trigger] allow_run(m, id, times).1[i] == (c + i
                < RATE_LIMIT_MAX) by {
            if i > 0 {
                assert(allow_run(m, id, times).1[i] == bs[i - 1]);
            }
        }
    }
}

/// Within one window an identifier is allowed exactly `RATE_LIMIT_MAX`
/// requests. When `id` is not tracked yet, a run of requests at
/// non-decreasing instants that all come before the window opened by the
/// first one closes has its first `RATE_LIMIT_MAX` requests allowed and every
/// later one refused.
pub proof fn lemma_window_admits_max(m: Map<Seq<char>, LimitData>, id: Seq<char>, times: Seq<i128>)
    requires
        times.len() > 0,
        !m.contains_key(id),
        forall|i: int, j: int| 0 <= i <= j < times.len() ==> times[i] <= times[j],
        forall|i: int| 0 <= i < times.len() ==> #[trigger] times[i] <= times[0] + WINDOW_NANOS,
        window_fits(times[0] as int),
    ensures
        allow_run(m, id, times).1.len() == times.len(),
        forall|i: int|
            0 <= i < times.len() ==> #[trigger] allow_run(m, id, times).1[i] == (i
                < RATE_LIMIT_MAX),
{
    let (m1, b) = allow_step(m, id, times[0] as int);
    let bound = times[0] + WINDOW_NANOS;
    assert(m1[id] == LimitData { tries: 1, expiry: bound as i128 });
    let rest = times.drop_first();
    assert forall|i: int| 0 <= i < rest.len() implies #[trigger] rest[i] <= bound by {
        assert(rest[i] == times[i + 1]);
    }
    if rest.len() > 0 {
        assert(rest[0] == times[1]);
    }
    lemma_sliding_run(m1, id, rest, 1, bound);
    let bs = allow_run(m1, id, rest).1;
    assert(allow_run(m, id, times).1 == seq![b] + bs);
    assert forall|i: int|
        0 <= i < times.len() implies #[trigger] allow_run(m, id, times).1[i] == (i
            < RATE_LIMIT_MAX) by {
        if i > 0 {
            assert(allow_run(m, id, times).1[i] == bs[i - 1]);
        }
    }
}

/// A request that finds its window closed opens a new one that lasts
/// `WINDOW_NANOS`: when `id`'s window closed before the first instant of a
/// run of requests at non-decreasing instants that all come within
/// `WINDOW_NANOS` of the first, the first request reopens the window without
/// counting, the next `RATE_LIMIT_MAX` are allowed, and every later one is
/// refused. After the first request the window ends `WINDOW_NANOS` after it.
pub proof fn lemma_reopened_window_admits_one_more(
    m: Map<Seq<char>, LimitData>,
    id: Seq<char>,
    times: Seq<i128>,
)
    requires
        times.len() > 0,
        m.contains_key(id),
        m[id].expiry < times[0],
        forall|i: int, j: int| 0 <= i <= j < times.len() ==> times[i] <= times[j],
        forall|i: int| 0 <= i < times.len() ==> #[trigger] times[i] <= times[0] + WINDOW_NANOS,
        window_fits(times[0] as int),
    ensures
        allow_step(m, id, times[0] as int).0[id].expiry == times[0] + WINDOW_NANOS,
        allow_run(m, id, times).1.len() == times.len(),
        forall|i: int|
            0 <= i < times.len() ==> #[trigger] allow_run(m, id, times).1[i] == (i
                <= RATE_LIMIT_MAX),
{
    let (m1, b) = allow_step(m, id, times[0] as int);
    let bound = times[0] + WINDOW_NANOS;
    assert(m1[id] == LimitData { tries: 0, expiry: bound as i128 });
    let rest = times.drop_first();
    assert forall|i: int| 0 <= i < rest.len() implies #[trigger] rest[i] <= bound by {
        assert(rest[i] == times[i + 1]);
    }
    if rest.len() > 0 {
        assert(rest[0] == times[1]);
    }
    lemma_sliding_run(m1, id, rest, 0, bound);
    let bs = allow_run(m1, id, rest).1;
    assert(allow_run(m, id, times).1 == seq![b] + bs);
    assert forall|i: int|
        0 <= i < times.len() implies #[trigger] allow_run(m, id, times).1[i] == (i
            <= RATE_LIMIT_MAX) by {
        if i > 0 {
            assert(allow_run(m, id, times).1[i] == bs[i - 1]);
        }
    }
}

/// Every attempt count stays between zero and `RATE_LIMIT_MAX`, whatever
/// requests are made.
pub proof fn lemma_counts_stay_bounded(m: Map<Seq<char>, LimitData>, id: Seq<char>, now: int)
    requires
        counts_bounded(m),
    ensures
        counts_bounded(allow_step(m, id, now).0),
{
}

/// Sweeping out closed windows does not change the answer to a request made
/// at or after the sweep.
pub proof fn lemma_cleanup_keeps_answers(
    m: Map<Seq<char>, LimitData>,
    id: Seq<char>,
    swept_at: int,
    now: int,
)
    requires
        swept_at <= now,
    ensures
        allow_step(live_entries(m, swept_at), id, now).1 == allow_step(m, id, now).1,
{
}

/// Identifiers are limited independently: a request of `id` leaves the entry
/// of every other identifier as it was.
pub proof fn lemma_identifiers_independent(
    m: Map<Seq<char>, LimitData>,
    id: Seq<char>,
    other: Seq<char>,
    now: int,
)
    requires
        id != other,
    ensures
        allow_step(m, id, now).0.contains_key(other) == m.contains_key(other),
        m.contains_key(other) ==> allow_step(m, id, now).0[other] == m[other],
{
}

/// An in-memory rate limiter keyed by client identifier.
pub struct InMemoryLimiter {
    table: EntryTable,
}

impl View for InMemoryLimiter {
    type V = Map<Seq<char>, LimitData>;

    closed spec fn view(&self) -> Map<Seq<char>, LimitData> {
        self.table@
    }
}

impl InMemoryLimiter {
    #[verifier::type_invariant]
    spec fn inv(self) -> bool {
        &&& self.table.wf()
        &&& counts_bounded(self.table@)
    }

    /// Creates a limiter that tracks no identifier yet.
    pub fn new() -> (limiter: Self)
        ensures
            limiter@ == Map::<Seq<char>, LimitData>::empty(),
    {
        InMemoryLimiter { table: EntryTable::new() }
    }

    /// Tells whether `allow(.., now)` may be called: a window opened at
    /// `now` must close at a representable instant.
    pub fn can_allow(now: i128) -> (ok: bool)
        ensures
            ok == window_fits(now as int),
    {
        window_fits_at(now)
    }

    /// Decides whether `identifier` may make a request at `now`, and records
    /// it when it is allowed.
    pub fn allow(&mut self, identifier: &str, now: i128) -> (allowed: bool)
        requires
            window_fits(now as int),
        ensures
            (final(self)@, allowed) == allow_step(old(self)@, identifier@, now as int),
            counts_bounded(final(self)@),
    {
        proof {
            use_type_invariant(&*self);
        }
        let mut table = EntryTable::new();
        std::mem::swap(&mut table, &mut self.table);
        let allowed = match table.lookup(identifier) {
            None => {
                table.store(identifier, LimitData { tries: 1, expiry: window_end(now) });
                true
            },
            Some(data) => {
                if now > data.expiry {
                    table.store(identifier, LimitData { tries: 0, expiry: window_end(now) });
                    true
                } else if data.tries >= RATE_LIMIT_MAX {
                    false
                } else {
                    table.store(
                        identifier,
                        LimitData { tries: data.tries + 1, expiry: window_end(now) },
                    );
                    true
                }
            },
        };
        self.table = table;
        allowed
    }

    /// Forgets every identifier whose window closed before `now`; those
    /// whose window closes at `now` or later are kept.
    pub fn cleanup(&mut self, now: i128)
        ensures
            final(self)@ == live_entries(old(self)@, now as int),
            forall|k: Seq<char>|
                #[trigger] final(self)@.contains_key(k) <==> (old(self)@.contains_key(k) && now
                    <= old(self)@[k].expiry),
            forall|k: Seq<char>|
                #[trigger] final(self)@.contains_key(k) ==> final(self)@[k] == old(self)@[k],
            counts_bounded(final(self)@),
    {
        proof {
            use_type_invariant(&*self);
        }
        let mut table = EntryTable::new();
        std::mem::swap(&mut table, &mut self.table);
        table.retain_live(now);
        self.table = table;
    }

    /// Reads the clock and decides on a request of `identifier` at that
    /// instant, as `allow` does. Returns the instant read and the decision,
    /// or no decision, leaving the limiter unchanged, where `allow` may not be
    /// called at that instant.
    pub fn allow_now(&mut self, identifier: &str) -> (outcome: (i128, Option<bool>))
        ensures
            TIMESTAMP_MIN_NANOS <= outcome.0 <= TIMESTAMP_MAX_NANOS,
            counts_bounded(final(self)@),
            outcome.1 is None <==> !(window_fits(outcome.0 as int)),
            outcome.1 is None ==> final(self)@ == old(self)@,
            outcome.1 matches Some(allowed) ==> (final(self)@, allowed) == allow_step(
                old(self)@,
                identifier@,
                outcome.0 as int,
            ),
    {
        proof {
            use_type_invariant(&*self);
        }
        let now = clock_now();
        if !Self::can_allow(now) {
            return (now, None);
        }
        let allowed = self.allow(identifier, now);
        (now, Some(allowed))
    }

    /// Reads the clock and forgets every identifier whose window closed
    /// before then. Returns the instant read.
    pub fn cleanup_now(&mut self) -> (now: i128)
        ensures
            TIMESTAMP_MIN_NANOS <= now <= TIMESTAMP_MAX_NANOS,
            final(self)@ == live_entries(old(self)@, now as int),
            forall|k: Seq<char>|
                #[trigger] final(self)@.contains_key(k) <==> (old(self)@.contains_key(k) && now
                    <= old(self)@[k].expiry),
            forall|k: Seq<char>|
                #[trigger] final(self)@.contains_key(k) ==> final(self)@[k] == old(self)@[k],
            counts_bounded(final(self)@),
    {
        let now = clock_now();
        self.cleanup(now);
        now
    }

    /// The entry of `identifier`, if it is tracked.
    pub fn entry(&self, identifier: &str) -> (found: Option<LimitData>)
        ensures
            found == (if self@.contains_key(identifier@) {
                Some(self@[identifier@])
            } else {
                None::<LimitData>
            }),
    {
        self.table.lookup(identifier)
    }

    /// The number of identifiers currently tracked.
    pub fn len(&self) -> (n: usize)
        ensures
            n == self@.len(),
    {
        self.table.len()
    }

    /// Whether no identifier is tracked.
    pub fn is_empty(&self) -> (empty: bool)
        ensures
            empty == (self@.len() == 0),
    {
        self.len() == 0
    }
}

} // verus!
