//! The laws of the coalescing engine, stated and proved once and for all.
//!
//! These proof functions relate the specification functions that the
//! executable operations are contracted against: the per-path fold of the
//! merge policy, the definitive overwrite of `Create`/`Remove`, the
//! `Modify`/`Access` refresh asymmetry, the maturity threshold of the
//! flush, and the order-independence of events on disjoint paths.

use vstd::prelude::*;

use crate::kind::{overwrite_bound, rank, EventKind};
use crate::store::{apply_event, immature_keys, is_mature, mature_batch, merge_step, StoreEntry};

verus! {

/// One event of the ingest history, at the specification level: a kind,
/// the (views of the) paths it applied to, and its arrival time.
pub ghost struct EventRec {
    /// The classification of the change.
    pub kind: EventKind,
    /// The views of the paths the change applied to.
    pub paths: Seq<Seq<char>>,
    /// The monotonic arrival time, in milliseconds.
    pub time: u64,
}

/// The store map after a whole history of events has been folded in,
/// left to right.
pub open spec fn ingest_all(m: Map<Seq<char>, StoreEntry>, evs: Seq<EventRec>) -> Map<
    Seq<char>,
    StoreEntry,
>
    decreases evs.len(),
{
    if evs.len() == 0 {
        m
    } else {
        apply_event(
            ingest_all(m, evs.drop_last()),
            evs.last().kind,
            evs.last().paths,
            evs.last().time,
        )
    }
}

/// The `(kind, time)` pairs of the events of a history that apply to one
/// path `p`, in order.
pub open spec fn events_on_path(evs: Seq<EventRec>, p: Seq<char>) -> Seq<(EventKind, u64)>
    decreases evs.len(),
{
    if evs.len() == 0 {
        Seq::empty()
    } else {
        let r = events_on_path(evs.drop_last(), p);
        if evs.last().paths.contains(p) {
            r.push((evs.last().kind, evs.last().time))
        } else {
            r
        }
    }
}

/// The left-to-right fold of the merge table over a sequence of
/// `(kind, time)` pairs on one path, starting from a prior entry.
pub open spec fn fold_entry(prior: Option<StoreEntry>, evs: Seq<(EventKind, u64)>) -> Option<
    StoreEntry,
>
    decreases evs.len(),
{
    if evs.len() == 0 {
        prior
    } else {
        Option::Some(merge_step(fold_entry(prior, evs.drop_last()), evs.last().0, evs.last().1))
    }
}

/// One step of the merge policy is idempotent: applying the same event
/// twice in a row leaves what the first application left.
pub proof fn lemma_merge_step_idempotent(prior: Option<StoreEntry>, kind: EventKind, now: u64)
    ensures
        merge_step(Option::Some(merge_step(prior, kind, now)), kind, now) == merge_step(
            prior,
            kind,
            now,
        ),
{
}

/// Pointwise reading of [`apply_event`]: a path listed in the event moves
/// to the merge of its prior entry with the event; every other path keeps
/// its entry exactly.
pub proof fn lemma_apply_event_at(
    m: Map<Seq<char>, StoreEntry>,
    kind: EventKind,
    paths: Seq<Seq<char>>,
    now: u64,
    p: Seq<char>,
)
    ensures
        apply_event(m, kind, paths, now).get(p) == if paths.contains(p) {
            Option::Some(merge_step(m.get(p), kind, now))
        } else {
            m.get(p)
        },
    decreases paths.len(),
{
    if paths.len() == 0 {
    } else {
        let init = paths.drop_last();
        let q = paths.last();
        lemma_apply_event_at(m, kind, init, now, p);
        if paths.contains(p) {
            if p == q {
                if init.contains(p) {
                    lemma_merge_step_idempotent(m.get(p), kind, now);
                }
            } else {
                assert(init.contains(p)) by {
                    let w = choose|w: int| 0 <= w < paths.len() && paths[w] == p;
                    assert(init[w] == p);
                }
            }
        } else {
            assert(!init.contains(p)) by {
                if init.contains(p) {
                    let w = choose|w: int| 0 <= w < init.len() && init[w] == p;
                    assert(paths[w] == p);
                }
            }
            assert(p != q) by {
                assert(paths[paths.len() - 1] == q);
            }
        }
    }
}

/// For every history of events, the entry a path holds is the
/// left-to-right fold of the merge table over exactly the events that
/// listed that path.
pub proof fn lemma_single_path_fold(
    m: Map<Seq<char>, StoreEntry>,
    evs: Seq<EventRec>,
    p: Seq<char>,
)
    ensures
        ingest_all(m, evs).get(p) == fold_entry(m.get(p), events_on_path(evs, p)),
    decreases evs.len(),
{
    if evs.len() == 0 {
    } else {
        let init = evs.drop_last();
        let e = evs.last();
        lemma_single_path_fold(m, init, p);
        lemma_apply_event_at(ingest_all(m, init), e.kind, e.paths, e.time, p);
        if e.paths.contains(p) {
            let s = events_on_path(evs, p);
            assert(s.drop_last() == events_on_path(init, p));
            assert(s.last() == (e.kind, e.time));
        }
    }
}

/// A `Create` or `Remove` event makes the stored entry's kind and
/// timestamp exactly that event's, regardless of prior state: nothing
/// masks a definitive event, and it always restarts its debounce window.
pub proof fn lemma_definitive_overwrites(prior: Option<StoreEntry>, kind: EventKind, now: u64)
    requires
        kind is Create || kind is Remove,
    ensures
        merge_step(prior, kind, now) == (StoreEntry { kind, time: now }),
{
}

/// A `Modify` arriving on a path whose pending entry is already a
/// `Modify` is a no-op: the earlier kind *and* timestamp are retained, so
/// repeated modifications do not refresh the debounce window.
pub proof fn lemma_modify_keeps_first(e: StoreEntry, kind: EventKind, now: u64)
    requires
        e.kind is Modify,
        kind is Modify,
    ensures
        merge_step(Option::Some(e), kind, now) == e,
{
}

/// An `Access` arriving on a path whose pending entry is an `Access`
/// overwrites it: the kind and timestamp become the second event's, so
/// continued access activity keeps refreshing the debounce window.
pub proof fn lemma_access_refreshes(e: StoreEntry, kind: EventKind, now: u64)
    requires
        e.kind is Access,
        kind is Access,
    ensures
        merge_step(Option::Some(e), kind, now) == (StoreEntry { kind, time: now }),
{
}

/// More generally: an incoming event leaves an existing entry completely
/// untouched exactly when the existing rank exceeds the incoming kind's
/// overwrite bound.
pub proof fn lemma_ignored_leaves_entry(e: StoreEntry, kind: EventKind, now: u64)
    requires
        rank(e.kind) > overwrite_bound(kind),
    ensures
        merge_step(Option::Some(e), kind, now) == e,
{
}

/// The maturity threshold: an entry last updated at `t0` is in the batch
/// of a flush at check time `now` exactly when `now >= t0 + timeout` —
/// absent from every earlier batch, present from the first check at or
/// past the threshold.
pub proof fn lemma_batch_membership(
    m: Map<Seq<char>, StoreEntry>,
    now: u64,
    timeout: u64,
    p: Seq<char>,
)
    requires
        m.dom().contains(p),
    ensures
        is_mature(m[p].time, now, timeout) <==> now >= m[p].time + timeout,
        mature_batch(m, now, timeout).dom().contains(p) <==> now >= m[p].time + timeout,
        mature_batch(m, now, timeout).dom().contains(p) ==> mature_batch(m, now, timeout)[p]
            == m[p].kind,
        m.restrict(immature_keys(m, now, timeout)).dom().contains(p) <==> now
            < m[p].time + timeout,
{
}

/// Order-independence: two events on disjoint path sets yield the same
/// store whichever arrives first.
pub proof fn lemma_disjoint_paths_commute(
    m: Map<Seq<char>, StoreEntry>,
    e1: EventRec,
    e2: EventRec,
)
    requires
        forall|p: Seq<char>| e1.paths.contains(p) ==> !e2.paths.contains(p),
    ensures
        apply_event(apply_event(m, e1.kind, e1.paths, e1.time), e2.kind, e2.paths, e2.time)
            == apply_event(apply_event(m, e2.kind, e2.paths, e2.time), e1.kind, e1.paths, e1.time),
{
    let a = apply_event(apply_event(m, e1.kind, e1.paths, e1.time), e2.kind, e2.paths, e2.time);
    let b = apply_event(apply_event(m, e2.kind, e2.paths, e2.time), e1.kind, e1.paths, e1.time);
    assert forall|p: Seq<char>| a.get(p) == b.get(p) by {
        lemma_apply_event_at(m, e1.kind, e1.paths, e1.time, p);
        lemma_apply_event_at(m, e2.kind, e2.paths, e2.time, p);
        lemma_apply_event_at(
            apply_event(m, e1.kind, e1.paths, e1.time),
            e2.kind,
            e2.paths,
            e2.time,
            p,
        );
        lemma_apply_event_at(
            apply_event(m, e2.kind, e2.paths, e2.time),
            e1.kind,
            e1.paths,
            e1.time,
            p,
        );
    }
    assert forall|p: Seq<char>| a.dom().contains(p) <==> b.dom().contains(p) by {
        assert(a.get(p) == b.get(p));
    }
    assert forall|p: Seq<char>| a.dom().contains(p) implies a[p] == b[p] by {
        assert(a.get(p) == b.get(p));
    }
    assert(a =~= b);
}

} // verus!
