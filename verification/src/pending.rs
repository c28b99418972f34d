//! The per-key pending-update table: the debounce bookkeeping of the loop.

use vstd::prelude::*;

verus! {

/// How long (in milliseconds) a desired value must stay unchanged before it
/// is applied.
pub const DEBOUNCE_MS: u64 = 30;

/// A buffered, not-yet-applied wallpaper change for one output.
pub struct PendingUpdate {
    /// The output this update is for.
    pub key: String,
    /// The wallpaper path that should be applied.
    pub path: String,
    /// When the debounce window for this value started, in milliseconds.
    pub queued_at: u64,
}

/// The mathematical shadow of one pending update.
pub ghost struct PendingV {
    pub key: Seq<char>,
    pub path: Seq<char>,
    pub queued_at: u64,
}

impl View for PendingUpdate {
    type V = PendingV;

    open spec fn view(&self) -> PendingV {
        PendingV { key: self.key@, path: self.path@, queued_at: self.queued_at }
    }
}

/// An entry is due once its debounce window has fully elapsed.
pub open spec fn is_due(p: PendingV, now: u64) -> bool {
    now >= p.queued_at + DEBOUNCE_MS
}

/// The remaining wait of one entry: zero once it is due, otherwise the time
/// to its deadline.
pub open spec fn wait_of(p: PendingV, now: u64) -> int {
    if is_due(p, now) {
        0
    } else {
        p.queued_at + DEBOUNCE_MS - now
    }
}

/// The index of the entry for key `k`, or -1 when there is none. The table
/// invariant keeps keys unique, so the match found here is the only one.
pub open spec fn key_index(s: Seq<PendingV>, k: Seq<char>) -> int
    decreases s.len(),
{
    if s.len() == 0 {
        -1
    } else if s.last().key == k {
        s.len() - 1
    } else {
        key_index(s.drop_last(), k)
    }
}

/// The entry pending for key `k`, if any.
pub open spec fn lookup(s: Seq<PendingV>, k: Seq<char>) -> Option<PendingV> {
    if key_index(s, k) >= 0 {
        Some(s[key_index(s, k)])
    } else {
        None
    }
}

/// What one resolved observation does to the table: a new key gets a fresh
/// entry, a changed value restarts the window, and a value that is already
/// pending leaves the table untouched.
pub open spec fn upsert_model(s: Seq<PendingV>, k: Seq<char>, path: Seq<char>, now: u64) -> Seq<
    PendingV,
> {
    let i = key_index(s, k);
    if i < 0 {
        s.push(PendingV { key: k, path: path, queued_at: now })
    } else if s[i].path != path {
        s.update(i, PendingV { key: k, path: path, queued_at: now })
    } else {
        s
    }
}

/// The due entries of the table, in table order.
pub open spec fn due_of(s: Seq<PendingV>, now: u64) -> Seq<PendingV>
    decreases s.len(),
{
    if s.len() == 0 {
        Seq::empty()
    } else if is_due(s.last(), now) {
        due_of(s.drop_last(), now).push(s.last())
    } else {
        due_of(s.drop_last(), now)
    }
}

/// The entries that are not yet due, in table order.
pub open spec fn not_due_of(s: Seq<PendingV>, now: u64) -> Seq<PendingV>
    decreases s.len(),
{
    if s.len() == 0 {
        Seq::empty()
    } else if is_due(s.last(), now) {
        not_due_of(s.drop_last(), now)
    } else {
        not_due_of(s.drop_last(), now).push(s.last())
    }
}

/// The least remaining wait over all entries; meaningful only when the
/// table is non-empty.
pub open spec fn min_wait(s: Seq<PendingV>, now: u64) -> int
    decreases s.len(),
{
    if s.len() == 0 {
        0
    } else if s.len() == 1 {
        wait_of(s[0], now)
    } else {
        let m = min_wait(s.drop_last(), now);
        let w = wait_of(s.last(), now);
        if w < m {
            w
        } else {
            m
        }
    }
}

/// `min_wait` really is the least remaining wait: some entry waits exactly
/// that long, and no entry waits less. Together with the flush contract
/// this is why racing a timer armed with it never misses a deadline and
/// never wakes early.
pub proof fn lemma_min_wait_bounds(s: Seq<PendingV>, now: u64)
    requires
        s.len() > 0,
    ensures
        exists|i: int| 0 <= i < s.len() && #[trigger] wait_of(s[i], now) == min_wait(s, now),
        forall|i: int| 0 <= i < s.len() ==> wait_of(s[i], now) >= min_wait(s, now),
    decreases s.len(),
{
    if s.len() == 1 {
        assert(wait_of(s[0], now) == min_wait(s, now));
    } else {
        lemma_min_wait_bounds(s.drop_last(), now);
        let m = min_wait(s.drop_last(), now);
        let w = wait_of(s.last(), now);
        if w < m {
            assert(wait_of(s[s.len() - 1], now) == min_wait(s, now));
        } else {
            let i = choose|i: int|
                0 <= i < s.drop_last().len() && #[trigger] wait_of(s.drop_last()[i], now) == m;
            assert(s.drop_last()[i] == s[i]);
            assert(wait_of(s[i], now) == min_wait(s, now));
        }
        assert forall|i: int| 0 <= i < s.len() implies wait_of(s[i], now) >= min_wait(s, now) by {
            if i < s.len() - 1 {
                assert(s.drop_last()[i] == s[i]);
            }
        }
    }
}

/// No two entries are for the same key.
pub open spec fn keys_unique(s: Seq<PendingV>) -> bool {
    forall|i: int, j: int| 0 <= i < j < s.len() ==> s[i].key != s[j].key
}

/// Every deadline fits in the timestamp type.
pub open spec fn stamps_bounded(s: Seq<PendingV>) -> bool {
    forall|i: int| 0 <= i < s.len() ==> s[i].queued_at + DEBOUNCE_MS <= u64::MAX
}

/// The pending-update table: at most one buffered change per output.
pub struct PendingTable {
    pub entries: Vec<PendingUpdate>,
}

impl View for PendingTable {
    type V = Seq<PendingV>;

    open spec fn view(&self) -> Seq<PendingV> {
        self.entries@.map_values(|e: PendingUpdate| e@)
    }
}

pub proof fn lemma_key_index_props(s: Seq<PendingV>, k: Seq<char>)
    ensures
        key_index(s, k) == -1 || (0 <= key_index(s, k) < s.len() && s[key_index(s, k)].key == k),
        key_index(s, k) == -1 ==> forall|j: int| 0 <= j < s.len() ==> s[j].key != k,
    decreases s.len(),
{
    if s.len() > 0 && s.last().key != k {
        lemma_key_index_props(s.drop_last(), k);
        if key_index(s, k) == -1 {
            assert forall|j: int| 0 <= j < s.len() implies s[j].key != k by {
                if j < s.len() - 1 {
                    assert(s.drop_last()[j] == s[j]);
                }
            }
        }
    }
}

pub proof fn lemma_key_index_at(s: Seq<PendingV>, k: Seq<char>, i: int)
    requires
        keys_unique(s),
        0 <= i < s.len(),
        s[i].key == k,
    ensures
        key_index(s, k) == i,
    decreases s.len(),
{
    if i < s.len() - 1 {
        assert(s.last().key != k);
        assert(keys_unique(s.drop_last()));
        lemma_key_index_at(s.drop_last(), k, i);
    }
}

impl PendingTable {
    /// The table invariant: one entry per key, deadlines representable.
    pub open spec fn wf(&self) -> bool {
        keys_unique(self@) && stamps_bounded(self@)
    }

    /// A fresh, empty table.
    pub fn new() -> (r: PendingTable)
        ensures
            r.wf(),
            r@ == Seq::<PendingV>::empty(),
    {
        let r = PendingTable { entries: Vec::new() };
        proof {
            assert(r@ =~= Seq::<PendingV>::empty());
        }
        r
    }

    /// How many outputs currently have a buffered change.
    pub fn len(&self) -> (n: usize)
        ensures
            n == self@.len(),
    {
        self.entries.len()
    }

    /// Fold one resolved observation into the table.
    pub fn upsert(&mut self, key: &String, path: &String, now: u64)
        requires
            old(self).wf(),
            now + DEBOUNCE_MS <= u64::MAX,
        ensures
            final(self).wf(),
            final(self)@ == upsert_model(old(self)@, key@, path@, now),
    {
        let ghost s0 = self@;
        let n = self.entries.len();
        let mut i: usize = 0;
        while i < n
            invariant
                self@ == s0,
                s0 == old(self)@,
                keys_unique(s0),
                stamps_bounded(s0),
                now + DEBOUNCE_MS <= u64::MAX,
                n == s0.len(),
                0 <= i <= n,
                forall|j: int| 0 <= j < i ==> s0[j].key != key@,
            decreases n - i,
        {
            if self.entries[i].key == *key {
                proof {
                    lemma_key_index_at(s0, key@, i as int);
                    assert(s0[i as int].key == key@);
                }
                if self.entries[i].path == *path {
                    // The same value is already pending: the window keeps
                    // running, nothing is reset.
                    proof {
                        assert(s0[i as int].path == path@);
                        assert(upsert_model(s0, key@, path@, now) == s0);
                    }
                    return;
                }
                let fresh = PendingUpdate { key: key.clone(), path: path.clone(), queued_at: now };
                self.entries[i] = fresh;
                proof {
                    let nv = PendingV { key: key@, path: path@, queued_at: now };
                    assert(self@ =~= s0.update(i as int, nv));
                    assert(keys_unique(self@)) by {
                        assert forall|a: int, b: int| 0 <= a < b < self@.len() implies self@[a].key
                            != self@[b].key by {
                            assert(self@[a].key == s0[a].key);
                            assert(self@[b].key == s0[b].key);
                        }
                    }
                    assert(stamps_bounded(self@)) by {
                        assert forall|a: int|
                            0 <= a < self@.len() implies self@[a].queued_at + DEBOUNCE_MS
                            <= u64::MAX by {
                            if a != i as int {
                                assert(self@[a] == s0[a]);
                            }
                        }
                    }
                }
                return;
            }
            i = i + 1;
        }
        proof {
            lemma_key_index_props(s0, key@);
            assert(key_index(s0, key@) == -1) by {
                if key_index(s0, key@) >= 0 {
                    assert(s0[key_index(s0, key@)].key == key@);
                }
            }
        }
        let fresh = PendingUpdate { key: key.clone(), path: path.clone(), queued_at: now };
        self.entries.push(fresh);
        proof {
            assert(self@ =~= s0.push(PendingV { key: key@, path: path@, queued_at: now }));
        }
    }

    /// Remove and return every due entry, in table order.
    pub fn take_due(&mut self, now: u64) -> (r: Vec<PendingUpdate>)
        requires
            old(self).wf(),
        ensures
            final(self).wf(),
            final(self)@ == not_due_of(old(self)@, now),
            r@.map_values(|e: PendingUpdate| e@) == due_of(old(self)@, now),
    {
        let ghost s0 = self@;
        let mut out: Vec<PendingUpdate> = Vec::new();
        let mut i: usize = 0;
        while i < self.entries.len()
            invariant
                keys_unique(s0),
                stamps_bounded(s0),
                i <= self.entries.len(),
                i + out@.len() <= s0.len(),
                self@ =~= not_due_of(s0.take(i + out@.len()), now) + s0.skip(i + out@.len()),
                out@.map_values(|e: PendingUpdate| e@) =~= due_of(s0.take(i + out@.len()), now),
                i == not_due_of(s0.take(i + out@.len()), now).len(),
            decreases self.entries.len() - i,
        {
            let ghost p: int = i + out@.len();
            proof {
                assert(s0.take(p + 1) =~= s0.take(p).push(s0[p]));
                assert(s0.take(p + 1).drop_last() =~= s0.take(p));
                assert(s0.take(p + 1).last() == s0[p]);
                assert(s0.skip(p) =~= seq![s0[p]] + s0.skip(p + 1));
                assert(self@[i as int] == s0[p]);
            }
            let due = now >= self.entries[i].queued_at
                && now - self.entries[i].queued_at >= DEBOUNCE_MS;
            proof {
                assert(s0[p].queued_at + DEBOUNCE_MS <= u64::MAX);
                assert(due == is_due(s0[p], now));
            }
            if due {
                let ghost kept = not_due_of(s0.take(p), now);
                let ghost out0 = out@;
                let ghost t0 = self@;
                proof {
                    assert(t0 =~= kept + s0.skip(p));
                    assert(i as int == kept.len());
                }
                let e = self.entries.remove(i);
                proof {
                    assert(self@ =~= t0.remove(i as int));
                    assert forall|j: int|
                        0 <= j < self@.len() implies self@[j] == (kept + s0.skip(p + 1))[j] by {
                        if j < i as int {
                            assert(t0[j] == kept[j]);
                        } else {
                            assert(self@[j] == t0[j + 1]);
                            assert(t0[j + 1] == s0.skip(p)[j + 1 - i]);
                            assert(s0.skip(p)[j + 1 - i] == s0[p + 1 + (j - i)]);
                        }
                    }
                    assert(self@ =~= kept + s0.skip(p + 1));
                }
                out.push(e);
                proof {
                    assert(e@ == s0[p]);
                    assert(due_of(s0.take(p + 1), now) =~= due_of(s0.take(p), now).push(s0[p]));
                    assert(not_due_of(s0.take(p + 1), now) =~= kept);
                    assert(out@ =~= out0.push(e));
                    assert(out@.map_values(|e: PendingUpdate| e@) =~= out0.map_values(
                        |e: PendingUpdate| e@,
                    ).push(s0[p]));
                    assert(self@ =~= not_due_of(s0.take(p + 1), now) + s0.skip(p + 1));
                    assert(out@.map_values(|e: PendingUpdate| e@) =~= due_of(
                        s0.take(p + 1),
                        now,
                    ));
                }
            } else {
                i = i + 1;
                proof {
                    assert(!is_due(s0[p], now));
                    assert(not_due_of(s0.take(p + 1), now) =~= not_due_of(s0.take(p), now).push(
                        s0[p],
                    ));
                    assert(due_of(s0.take(p + 1), now) =~= due_of(s0.take(p), now));
                    assert(self@ =~= not_due_of(s0.take(p + 1), now) + s0.skip(p + 1));
                }
            }
        }
        proof {
            assert(i + out@.len() == s0.len());
            assert(s0.take(s0.len() as int) =~= s0);
            assert(self@ =~= not_due_of(s0, now));
            assert(keys_unique(self@) && stamps_bounded(self@)) by {
                lemma_not_due_sub(s0, now);
            }
        }
        out
    }

    /// The least remaining wait over all pending entries, or `None` when
    /// the table is empty. `Some(0)` means some entry is already due.
    pub fn earliest_wait(&self, now: u64) -> (r: Option<u64>)
        requires
            self.wf(),
        ensures
            r is None <==> self@.len() == 0,
            self@.len() > 0 ==> r == Some(min_wait(self@, now) as u64),
    {
        let n = self.entries.len();
        if n == 0 {
            return None;
        }
        let mut m: u64 = self.remaining(0, now);
        let mut i: usize = 1;
        proof {
            assert(self@.take(1) =~= seq![self@[0]]);
        }
        while i < n
            invariant
                self.wf(),
                n == self@.len(),
                1 <= i <= n,
                m == min_wait(self@.take(i as int), now),
            decreases n - i,
        {
            proof {
                assert(self@.take(i + 1).drop_last() =~= self@.take(i as int));
                assert(self@.take(i + 1).last() == self@[i as int]);
            }
            let w = self.remaining(i, now);
            if w < m {
                m = w;
            }
            i = i + 1;
        }
        proof {
            assert(self@.take(n as int) =~= self@);
        }
        Some(m)
    }

    /// The remaining wait of the entry at `i`: zero when it is already due.
    fn remaining(&self, i: usize, now: u64) -> (w: u64)
        requires
            self.wf(),
            i < self@.len(),
        ensures
            w == wait_of(self@[i as int], now),
    {
        proof {
            assert(self@[i as int].queued_at + DEBOUNCE_MS <= u64::MAX);
        }
        let deadline = self.entries[i].queued_at + DEBOUNCE_MS;
        if now >= deadline {
            0
        } else {
            deadline - now
        }
    }
}

/// Entries kept past a flush are a sub-sequence of the old table, so the
/// table invariant survives flushing.
pub proof fn lemma_not_due_sub(s: Seq<PendingV>, now: u64)
    requires
        keys_unique(s),
        stamps_bounded(s),
    ensures
        keys_unique(not_due_of(s, now)),
        stamps_bounded(not_due_of(s, now)),
        forall|i: int|
            0 <= i < not_due_of(s, now).len() ==> exists|j: int|
                0 <= j < s.len() && s[j] == #[trigger] not_due_of(s, now)[i],
    decreases s.len(),
{
    lemma_not_due_sub_inner(s, now);
    let r = not_due_of(s, now);
    assert forall|i: int| 0 <= i < r.len() implies r[i].queued_at + DEBOUNCE_MS <= u64::MAX by {
        let j = choose|j: int| 0 <= j < s.len() && s[j] == r[i];
    }
}

proof fn lemma_not_due_sub_inner(s: Seq<PendingV>, now: u64)
    requires
        keys_unique(s),
    ensures
        keys_unique(not_due_of(s, now)),
        forall|i: int|
            0 <= i < not_due_of(s, now).len() ==> exists|j: int|
                0 <= j < s.len() && s[j] == #[trigger] not_due_of(s, now)[i],
    decreases s.len(),
{
    if s.len() > 0 {
        assert(keys_unique(s.drop_last()));
        lemma_not_due_sub_inner(s.drop_last(), now);
        let r = not_due_of(s, now);
        let rp = not_due_of(s.drop_last(), now);
        if !is_due(s.last(), now) {
            assert(r =~= rp.push(s.last()));
            assert forall|i: int| 0 <= i < r.len() implies exists|j: int|
                0 <= j < s.len() && s[j] == #[trigger] r[i] by {
                if i < rp.len() {
                    let j = choose|j: int| 0 <= j < s.drop_last().len() && s.drop_last()[j] == rp[i];
                    assert(s[j] == r[i]);
                } else {
                    assert(s[s.len() - 1] == r[i]);
                }
            }
            assert(keys_unique(r)) by {
                assert forall|i: int, j: int| 0 <= i < j < r.len() implies r[i].key != r[j].key by {
                    if j < rp.len() {
                        // both inside the recursive part, covered by the
                        // recursive call
                    } else {
                        let wi = choose|w: int|
                            0 <= w < s.drop_last().len() && s.drop_last()[w] == rp[i];
                        assert(s[wi].key != s.last().key);
                    }
                }
            }
        } else {
            assert(r =~= rp);
            assert forall|i: int| 0 <= i < r.len() implies exists|j: int|
                0 <= j < s.len() && s[j] == #[trigger] r[i] by {
                let j = choose|j: int| 0 <= j < s.drop_last().len() && s.drop_last()[j] == rp[i];
                assert(s[j] == r[i]);
            }
        }
    }
}

} // verus!
