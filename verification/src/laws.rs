//! The debounce laws: what the pending-update table guarantees across
//! sequences of observations, proved over the table model.

use vstd::prelude::*;

use crate::pending::DEBOUNCE_MS;
use crate::pending::PendingV;
use crate::pending::due_of;
use crate::pending::is_due;
use crate::pending::key_index;
use crate::pending::lemma_key_index_props;
use crate::pending::lookup;
use crate::pending::not_due_of;
use crate::pending::upsert_model;

verus! {

/// How an update at one index moves `key_index` for any key: the updated
/// key keeps its slot, every other key is unaffected.
pub proof fn lemma_key_index_update(s: Seq<PendingV>, i: int, p: PendingV, k: Seq<char>)
    requires
        0 <= i < s.len(),
        s[i].key == p.key,
    ensures
        k == p.key && key_index(s, k) == i ==> key_index(s.update(i, p), k) == i,
        k != p.key ==> key_index(s.update(i, p), k) == key_index(s, k),
    decreases s.len(),
{
    let u = s.update(i, p);
    if i == s.len() - 1 {
        assert(u.last() == p);
        if k != p.key {
            assert(s.last().key != k);
            assert(u.drop_last() =~= s.drop_last());
        }
    } else {
        assert(u.last() == s.last());
        assert(u.drop_last() =~= s.drop_last().update(i, p));
        assert(s.drop_last()[i] == s[i]);
        lemma_key_index_update(s.drop_last(), i, p, k);
    }
}

/// What appending a fresh entry does to `lookup`: the new key now maps to
/// the new entry, every other key is unaffected.
pub proof fn lemma_lookup_push(s: Seq<PendingV>, p: PendingV, k: Seq<char>)
    ensures
        k == p.key ==> lookup(s.push(p), k) == Some(p),
        k != p.key ==> lookup(s.push(p), k) == lookup(s, k),
{
    let u = s.push(p);
    assert(u.last() == p);
    assert(u.drop_last() =~= s);
    if k != p.key {
        lemma_key_index_props(s, k);
        if key_index(s, k) >= 0 {
            assert(u[key_index(s, k)] == s[key_index(s, k)]);
        }
    }
}

/// What replacing the entry at a key's slot does to `lookup`: the key now
/// maps to the replacement, every other key is unaffected.
pub proof fn lemma_lookup_update(s: Seq<PendingV>, i: int, p: PendingV, k: Seq<char>)
    requires
        0 <= i < s.len(),
        s[i].key == p.key,
        key_index(s, p.key) == i,
    ensures
        k == p.key ==> lookup(s.update(i, p), k) == Some(p),
        k != p.key ==> lookup(s.update(i, p), k) == lookup(s, k),
{
    let u = s.update(i, p);
    lemma_key_index_update(s, i, p, k);
    if k == p.key {
        assert(u[i] == p);
    } else {
        lemma_key_index_props(s, k);
        lemma_key_index_props(u, k);
        if key_index(s, k) >= 0 {
            assert(s[key_index(s, k)].key == k);
            assert(key_index(s, k) != i);
            assert(u[key_index(s, k)] == s[key_index(s, k)]);
        }
    }
}

/// What one observation does to its own key's entry, and that it leaves
/// every other key alone.
pub proof fn lemma_upsert_lookup(s: Seq<PendingV>, k: Seq<char>, path: Seq<char>, now: u64)
    ensures
        lookup(s, k) is None ==> lookup(upsert_model(s, k, path, now), k) == Some(
            PendingV { key: k, path: path, queued_at: now },
        ),
        forall|k2: Seq<char>|
            k2 != k ==> lookup(upsert_model(s, k, path, now), k2) == lookup(s, k2),
        lookup(s, k) matches Some(e) && e.path != path ==> lookup(
            upsert_model(s, k, path, now),
            k,
        ) == Some(PendingV { key: k, path: path, queued_at: now }),
        lookup(s, k) matches Some(e) && e.path == path ==> upsert_model(s, k, path, now) == s,
{
    let p = PendingV { key: k, path: path, queued_at: now };
    let i = key_index(s, k);
    lemma_key_index_props(s, k);
    if i < 0 {
        lemma_lookup_push(s, p, k);
        assert forall|k2: Seq<char>| k2 != k implies lookup(upsert_model(s, k, path, now), k2)
            == lookup(s, k2) by {
            lemma_lookup_push(s, p, k2);
        }
    } else {
        assert(s[i].key == k);
        if s[i].path != path {
            lemma_lookup_update(s, i, p, k);
            assert forall|k2: Seq<char>| k2 != k implies lookup(upsert_model(s, k, path, now), k2)
                == lookup(s, k2) by {
                lemma_lookup_update(s, i, p, k2);
            }
        }
    }
}

/// Observations for one key never affect the pending entry of any other
/// key: the table is a set of independent per-output debounce windows.
pub proof fn lemma_cross_key_independence(
    s: Seq<PendingV>,
    k: Seq<char>,
    path: Seq<char>,
    now: u64,
    k2: Seq<char>,
)
    requires
        k2 != k,
    ensures
        lookup(upsert_model(s, k, path, now), k2) == lookup(s, k2),
{
    lemma_upsert_lookup(s, k, path, now);
}

/// A burst of observations for one key that resolves to values A, B, A
/// within a single debounce window leaves exactly one pending entry: value
/// A, queued at the last value-changing observation. It is not due at any
/// time before that observation's deadline, so the value is applied once,
/// no earlier than one window after the burst's last change.
pub proof fn lemma_debounce_coalesces(
    s0: Seq<PendingV>,
    k: Seq<char>,
    a: Seq<char>,
    b: Seq<char>,
    t1: u64,
    t2: u64,
    t3: u64,
)
    requires
        lookup(s0, k) is None,
        a != b,
        t1 <= t2 <= t3,
        t3 < t1 + DEBOUNCE_MS,
    ensures
        ({
            let s1 = upsert_model(s0, k, a, t1);
            let s2 = upsert_model(s1, k, b, t2);
            let s3 = upsert_model(s2, k, a, t3);
            &&& lookup(s1, k) == Some(PendingV { key: k, path: a, queued_at: t1 })
            &&& lookup(s2, k) == Some(PendingV { key: k, path: b, queued_at: t2 })
            &&& lookup(s3, k) == Some(PendingV { key: k, path: a, queued_at: t3 })
            &&& forall|now: u64|
                now <= t3 ==> !is_due(PendingV { key: k, path: a, queued_at: t1 }, now) && !is_due(
                    PendingV { key: k, path: b, queued_at: t2 },
                    now,
                )
            &&& forall|now: u64|
                now < t3 + DEBOUNCE_MS ==> !is_due(
                    PendingV { key: k, path: a, queued_at: t3 },
                    now,
                )
            &&& forall|now: u64|
                now >= t3 + DEBOUNCE_MS ==> is_due(
                    PendingV { key: k, path: a, queued_at: t3 },
                    now,
                )
        }),
{
    let s1 = upsert_model(s0, k, a, t1);
    let s2 = upsert_model(s1, k, b, t2);
    lemma_upsert_lookup(s0, k, a, t1);
    lemma_upsert_lookup(s1, k, b, t2);
    lemma_upsert_lookup(s2, k, a, t3);
}

/// Repeated observations that resolve to the value already pending do not
/// move the deadline: the entry keeps the window started by the first
/// observation, so the applier fires at `queued_at + window`, not later.
pub proof fn lemma_noop_keeps_deadline(
    s0: Seq<PendingV>,
    k: Seq<char>,
    a: Seq<char>,
    t1: u64,
    t2: u64,
)
    requires
        lookup(s0, k) is None,
    ensures
        ({
            let s1 = upsert_model(s0, k, a, t1);
            &&& lookup(s1, k) == Some(PendingV { key: k, path: a, queued_at: t1 })
            &&& upsert_model(s1, k, a, t2) == s1
            &&& forall|now: u64|
                is_due(PendingV { key: k, path: a, queued_at: t1 }, now) <==> now >= t1
                    + DEBOUNCE_MS
        }),
{
    let s1 = upsert_model(s0, k, a, t1);
    lemma_upsert_lookup(s0, k, a, t1);
    lemma_upsert_lookup(s1, k, a, t2);
}

/// An empty table does no work: nothing flushes, nothing is kept back, so
/// an idle loop has no applier calls to make and nothing to wake up for.
pub proof fn lemma_idle_no_work(s: Seq<PendingV>, now: u64)
    requires
        s.len() == 0,
    ensures
        due_of(s, now) == Seq::<PendingV>::empty(),
        not_due_of(s, now) == Seq::<PendingV>::empty(),
{
}

} // verus!
