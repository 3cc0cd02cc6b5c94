//! The table of per-identifier counters that the in-memory limiters keep,
//! and the clock arithmetic they share.
//!
//! Instants are counted in nanoseconds since the Unix epoch, the scale on
//! which a `jiff::Timestamp` reports itself.
use vstd::prelude::*;
use vstd::hash_map::StringHashMap;

verus! {

/// Length of one counting window: sixty seconds, in nanoseconds.
pub const WINDOW_NANOS: i128 = 60_000_000_000;

/// The latest representable instant, 9999-12-30T22:00:00.999999999Z, in
/// nanoseconds since the Unix epoch. Moving a timestamp past it fails.
pub const TIMESTAMP_MAX_NANOS: i128 = 253_402_207_200_999_999_999;

/// The earliest representable instant, -9999-01-02T01:59:59Z, in
/// nanoseconds since the Unix epoch.
pub const TIMESTAMP_MIN_NANOS: i128 = -377_705_023_201_000_000_000;

/// Reads the system clock with `jiff::Timestamp::now` and reports the instant
/// in nanoseconds since the Unix epoch with `Timestamp::as_nanosecond`. Every
/// timestamp lies between `Timestamp::MIN` and `Timestamp::MAX`; which instant
/// comes back depends on the clock and is not stated. jiff panics when the
/// system clock lies outside that range.
#[verifier::external_body]
pub(crate) fn clock_now() -> (now: i128)
    ensures
        TIMESTAMP_MIN_NANOS <= now <= TIMESTAMP_MAX_NANOS,
{
    jiff::Timestamp::now().as_nanosecond()
}

/// A window opened at `now` closes at a representable instant.
pub open spec fn window_fits(now: int) -> bool {
    now + WINDOW_NANOS <= TIMESTAMP_MAX_NANOS
}

/// Tells whether a window opened at `now` closes at a representable instant,
/// that is, whether `window_end(now)` may be called.
pub fn window_fits_at(now: i128) -> (fits: bool)
    ensures
        fits == window_fits(now as int),
{
    now <= TIMESTAMP_MAX_NANOS - WINDOW_NANOS
}

/// The instant at which a window opened at `now` closes.
pub fn window_end(now: i128) -> (end: i128)
    requires
        window_fits(now as int),
    ensures
        end == now + WINDOW_NANOS,
{
    now + WINDOW_NANOS
}

/// What is remembered of one identifier: how many attempts it has made in
/// its current window, and when that window closes.
#[derive(Clone, Copy, Debug)]
pub struct LimitData {
    pub tries: i32,
    pub expiry: i128,
}

/// The entries of `m` whose window has not closed before `now` (closing at
/// `now` or later).
pub open spec fn live_entries(m: Map<Seq<char>, LimitData>, now: int) -> Map<
    Seq<char>,
    LimitData,
> {
    Map::new(|k: Seq<char>| m.contains_key(k) && now <= m[k].expiry, |k: Seq<char>| m[k])
}

/// Sweeping at `now` keeps exactly the entries whose window has not closed
/// before `now`, each unchanged, and forgets every other one.
pub proof fn lemma_sweep_keeps_exactly_open_windows(
    m: Map<Seq<char>, LimitData>,
    now: int,
    k: Seq<char>,
)
    ensures
        live_entries(m, now).contains_key(k) <==> (m.contains_key(k) && now <= m[k].expiry),
        live_entries(m, now).contains_key(k) ==> live_entries(m, now)[k] == m[k],
{
}

/// `k` is the view of one of `keys[lo..hi]`.
pub open spec fn lists(keys: Seq<String>, lo: int, hi: int, k: Seq<char>) -> bool {
    exists|j: int| lo <= j < hi && #[trigger] keys[j]@ == k
}

/// A map from identifiers to their counters, together with the list of its
/// keys so that it can be walked.
pub struct EntryTable {
    entries: StringHashMap<LimitData>,
    keys: Vec<String>,
}

impl View for EntryTable {
    type V = Map<Seq<char>, LimitData>;

    closed spec fn view(&self) -> Map<Seq<char>, LimitData> {
        self.entries@
    }
}

impl EntryTable {
    /// The key list names every entry of the map exactly once.
    pub closed spec fn wf(&self) -> bool {
        &&& forall|a: int, b: int|
            0 <= a < self.keys@.len() && 0 <= b < self.keys@.len() && a != b
                ==> self.keys@[a]@ != self.keys@[b]@
        &&& forall|a: int|
            0 <= a < self.keys@.len() ==> self.entries@.contains_key(#[trigger] self.keys@[a]@)
        &&& forall|k: Seq<char>|
            #[trigger] self.entries@.contains_key(k) ==> lists(
                self.keys@,
                0,
                self.keys@.len() as int,
                k,
            )
    }

    /// An empty table.
    pub fn new() -> (t: Self)
        ensures
            t.wf(),
            t@ == Map::<Seq<char>, LimitData>::empty(),
    {
        EntryTable { entries: StringHashMap::new(), keys: Vec::new() }
    }

    /// The number of identifiers in the table.
    pub fn len(&self) -> (n: usize)
        ensures
            n == self@.len(),
    {
        self.entries.len()
    }

    /// The entry of `id`, if it has one.
    pub fn lookup(&self, id: &str) -> (found: Option<LimitData>)
        ensures
            found == (if self@.contains_key(id@) {
                Some(self@[id@])
            } else {
                None::<LimitData>
            }),
    {
        match self.entries.get(id) {
            Some(d) => Some(*d),
            None => None,
        }
    }

    /// Sets the entry of `id` to `data`, adding `id` if it is new.
    pub fn store(&mut self, id: &str, data: LimitData)
        requires
            old(self).wf(),
        ensures
            final(self).wf(),
            final(self)@ == old(self)@.insert(id@, data),
    {
        if self.entries.contains_key(id) {
            self.entries.insert(id.to_owned(), data);
            proof {
                assert forall|k: Seq<char>| #[trigger]
                    self.entries@.contains_key(k) implies lists(
                    self.keys@,
                    0,
                    self.keys@.len() as int,
                    k,
                ) by {
                    assert(old(self).entries@.contains_key(k));
                }
            }
        } else {
            let key = id.to_owned();
            self.keys.push(key.clone());
            self.entries.insert(key, data);
            proof {
                let last = self.keys@.len() - 1;
                assert(self.keys@[last]@ == id@);
                assert forall|a: int|
                    0 <= a < self.keys@.len() implies self.entries@.contains_key(
                    #[trigger] self.keys@[a]@,
                ) by {
                    if a < last {
                        assert(self.keys@[a] == old(self).keys@[a]);
                    }
                }
                assert forall|a: int, b: int|
                    0 <= a < self.keys@.len() && 0 <= b < self.keys@.len() && a
                        != b implies self.keys@[a]@ != self.keys@[b]@ by {
                    if a < last {
                        assert(self.keys@[a] == old(self).keys@[a]);
                        assert(old(self).entries@.contains_key(old(self).keys@[a]@));
                    }
                    if b < last {
                        assert(self.keys@[b] == old(self).keys@[b]);
                        assert(old(self).entries@.contains_key(old(self).keys@[b]@));
                    }
                }
                assert forall|k: Seq<char>| #[trigger]
                    self.entries@.contains_key(k) implies lists(
                    self.keys@,
                    0,
                    self.keys@.len() as int,
                    k,
                ) by {
                    if k == id@ {
                        assert(self.keys@[last]@ == k);
                    } else {
                        assert(old(self).entries@.contains_key(k));
                        let j = choose|j: int|
                            0 <= j < old(self).keys@.len() && #[trigger] old(self).keys@[j]@ == k;
                        assert(self.keys@[j] == old(self).keys@[j]);
                    }
                }
            }
        }
    }

    /// Drops every entry whose window closed before `now`, keeping those
    /// that close at `now` or later.
    pub fn retain_live(&mut self, now: i128)
        requires
            old(self).wf(),
        ensures
            final(self).wf(),
            final(self)@ == live_entries(old(self)@, now as int),
    {
        let ghost m = self.entries@;
        let mut pending: Vec<String> = Vec::new();
        std::mem::swap(&mut pending, &mut self.keys);
        let ghost o = pending@;
        let n = pending.len();
        let mut i: usize = 0;
        while i < n
            invariant
                n == pending@.len(),
                pending@ == o,
                i <= n,
                forall|a: int, b: int|
                    0 <= a < o.len() && 0 <= b < o.len() && a != b ==> o[a]@ != o[b]@,
                forall|a: int| 0 <= a < o.len() ==> m.contains_key(#[trigger] o[a]@),
                forall|k: Seq<char>| #[trigger] m.contains_key(k) ==> lists(o, 0, o.len() as int, k),
                forall|k: Seq<char>|
                    #[trigger] self.entries@.contains_key(k) <==> (m.contains_key(k) && (now
                        <= m[k].expiry || lists(o, i as int, o.len() as int, k))),
                forall|k: Seq<char>|
                    self.entries@.contains_key(k) ==> #[trigger] self.entries@[k] == m[k],
                forall|a: int, b: int|
                    0 <= a < self.keys@.len() && 0 <= b < self.keys@.len() && a != b
                        ==> self.keys@[a]@ != self.keys@[b]@,
                forall|a: int|
                    0 <= a < self.keys@.len() ==> lists(o, 0, i as int, #[trigger] self.keys@[a]@),
                forall|a: int|
                    0 <= a < self.keys@.len() ==> self.entries@.contains_key(
                        #[trigger] self.keys@[a]@,
                    ) && now <= m[self.keys@[a]@].expiry,
                forall|k: Seq<char>|
                    m.contains_key(k) && now <= m[k].expiry && #[trigger] lists(o, 0, i as int, k)
                        ==> lists(self.keys@, 0, self.keys@.len() as int, k),
            decreases n - i,
        {
            let key = &pending[i];
            let ghost k0 = o[i as int]@;
            let ghost before = self.keys@;
            let ghost entries_before = self.entries@;
            proof {
                assert(lists(o, i as int, o.len() as int, k0));
                assert forall|j: int| i < j < o.len() implies #[trigger] o[j]@ != k0 by {}
                assert(!lists(o, i + 1, o.len() as int, k0));
                assert forall|k: Seq<char>|
                    k != k0 implies #[trigger] lists(o, i as int, o.len() as int, k) == lists(
                    o,
                    i + 1,
                    o.len() as int,
                    k,
                ) by {
                    if lists(o, i as int, o.len() as int, k) {
                        let j = choose|j: int| i <= j < o.len() && #[trigger] o[j]@ == k;
                        assert(j != i);
                    }
                }
                assert forall|a: int| 0 <= a < before.len() implies #[trigger] before[a]@ != k0 by {
                    assert(lists(o, 0, i as int, before[a]@));
                    let j = choose|j: int| 0 <= j < i && #[trigger] o[j]@ == before[a]@;
                    assert(j != i);
                }
            }
            let live = match self.entries.get(key.as_str()) {
                Some(d) => now <= d.expiry,
                None => false,
            };
            if live {
                self.keys.push(key.clone());
                proof {
                    let last = before.len() as int;
                    assert(self.keys@[last]@ == k0);
                    assert forall|a: int|
                        0 <= a < self.keys@.len() implies lists(
                        o,
                        0,
                        i + 1,
                        #[trigger] self.keys@[a]@,
                    ) by {
                        if a < last {
                            assert(self.keys@[a] == before[a]);
                            assert(lists(o, 0, i as int, before[a]@));
                            let j = choose|j: int| 0 <= j < i && #[trigger] o[j]@ == before[a]@;
                            assert(o[j]@ == self.keys@[a]@);
                        } else {
                            assert(o[i as int]@ == self.keys@[a]@);
                        }
                    }
                    assert forall|a: int|
                        0 <= a < self.keys@.len() implies self.entries@.contains_key(
                        #[trigger] self.keys@[a]@,
                    ) && now <= m[self.keys@[a]@].expiry by {
                        if a < last {
                            assert(self.keys@[a] == before[a]);
                        }
                    }
                    assert forall|a: int, b: int|
                        0 <= a < self.keys@.len() && 0 <= b < self.keys@.len() && a
                            != b implies self.keys@[a]@ != self.keys@[b]@ by {
                        if a < last {
                            assert(self.keys@[a] == before[a]);
                        }
                        if b < last {
                            assert(self.keys@[b] == before[b]);
                        }
                    }
                    assert forall|k: Seq<char>|
                        m.contains_key(k) && now <= m[k].expiry && #[trigger] lists(
                            o,
                            0,
                            i + 1,
                            k,
                        ) implies lists(self.keys@, 0, self.keys@.len() as int, k) by {
                        let j = choose|j: int| 0 <= j < i + 1 && #[trigger] o[j]@ == k;
                        if j == i {
                            assert(self.keys@[last]@ == k);
                        } else {
                            assert(lists(o, 0, i as int, k));
                            assert(lists(before, 0, before.len() as int, k));
                            let b = choose|b: int| 0 <= b < before.len() && #[trigger] before[b]@ == k;
                            assert(self.keys@[b] == before[b]);
                        }
                    }
                }
            } else {
                self.entries.remove(key.as_str());
                proof {
                    assert forall|a: int|
                        0 <= a < self.keys@.len() implies lists(
                        o,
                        0,
                        i + 1,
                        #[trigger] self.keys@[a]@,
                    ) by {
                        assert(lists(o, 0, i as int, self.keys@[a]@));
                        let j = choose|j: int| 0 <= j < i && #[trigger] o[j]@ == self.keys@[a]@;
                    }
                    assert forall|k: Seq<char>|
                        m.contains_key(k) && now <= m[k].expiry && #[trigger] lists(
                            o,
                            0,
                            i + 1,
                            k,
                        ) implies lists(self.keys@, 0, self.keys@.len() as int, k) by {
                        let j = choose|j: int| 0 <= j < i + 1 && #[trigger] o[j]@ == k;
                        if j == i {
                            assert(entries_before.contains_key(k0));
                            assert(!(now <= m[k0].expiry));
                        } else {
                            assert(lists(o, 0, i as int, k));
                        }
                    }
                }
            }
            i += 1;
        }
        proof {
            assert forall|k: Seq<char>| !#[trigger] lists(o, n as int, o.len() as int, k) by {}
            assert forall|k: Seq<char>| #[trigger]
                self.entries@.contains_key(k) implies lists(
                self.keys@,
                0,
                self.keys@.len() as int,
                k,
            ) by {
                assert(lists(o, 0, o.len() as int, k));
            }
            assert(self.entries@ =~= live_entries(m, now as int));
        }
    }
}

} // verus!
