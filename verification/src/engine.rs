//! The debouncing engine: ingest on one side, periodic flush on the other.
//!
//! [`Debouncer`] owns the pending store and the configured timeout. The
//! watcher's delivery context calls [`Debouncer::ingest`] once per raw
//! notification; the flush schedule calls [`Debouncer::tick`] once per
//! period, and delivers the returned [`Batch`] — possibly empty — to the
//! consumer unconditionally, as a heartbeat. The caller serializes the two
//! (one exclusion domain); each call here is one critical section.

use vstd::prelude::*;

use crate::kind::EventKind;
use crate::store::{
    apply_event, immature_keys, mature_batch, paths_view, Batch, CoalesceStore, StoreEntry,
};

verus! {

/// One raw notification from the watcher: a kind, and the paths it
/// applies to. Consumed immediately; never stored.
pub struct RawEvent {
    /// The classification of the change.
    pub kind: EventKind,
    /// The paths the change applies to.
    pub paths: Vec<String>,
}

/// A per-event failure reported by the watcher in place of an event.
/// The engine drops it silently: no store mutation, no propagation.
#[derive(Clone, Copy, Debug, PartialEq, Eq, Structural)]
pub struct WatchError {
}

/// The event-coalescing engine: the pending store plus the configured
/// debounce timeout, in milliseconds.
pub struct Debouncer {
    store: CoalesceStore,
    timeout: u64,
}

impl View for Debouncer {
    type V = Map<Seq<char>, StoreEntry>;

    closed spec fn view(&self) -> Map<Seq<char>, StoreEntry> {
        self.store@
    }
}

impl Debouncer {
    /// The engine's internal invariant.
    pub closed spec fn wf(self) -> bool {
        self.store.wf()
    }

    /// The configured debounce timeout, in milliseconds.
    pub closed spec fn timeout_spec(self) -> u64 {
        self.timeout
    }

    /// A fresh engine with the given timeout: nothing is pending.
    pub fn new(timeout: u64) -> (d: Debouncer)
        ensures
            d.wf(),
            d@ == Map::<Seq<char>, StoreEntry>::empty(),
            d.timeout_spec() == timeout,
    {
        Debouncer { store: CoalesceStore::new(), timeout }
    }

    /// The configured debounce timeout, in milliseconds.
    pub fn timeout(&self) -> (t: u64)
        ensures
            t == self.timeout_spec(),
    {
        self.timeout
    }

    /// Handle one delivery from the watcher at time `now`.
    ///
    /// A successful event is folded into the store, path by path, under
    /// the merge policy. A failure is dropped silently: the store is left
    /// completely unchanged, and nothing is propagated or retried.
    pub fn ingest(&mut self, incoming: Result<RawEvent, WatchError>, now: u64)
        requires
            old(self).wf(),
        ensures
            final(self).wf(),
            final(self).timeout_spec() == old(self).timeout_spec(),
            match incoming {
                Result::Ok(ev) => final(self)@ == apply_event(
                    old(self)@,
                    ev.kind,
                    paths_view(ev.paths@),
                    now,
                ),
                Result::Err(_) => final(self)@ == old(self)@,
            },
    {
        match incoming {
            Result::Ok(ev) => {
                self.store.apply(&ev.kind, &ev.paths, now);
            },
            Result::Err(_) => {
            },
        }
    }

    /// One flush tick at check time `now`: every entry whose age has
    /// reached the timeout leaves the store and appears, verbatim, in the
    /// returned batch; every immature entry stays untouched. The batch is
    /// returned on every tick — empty when nothing matured — so the
    /// consumer sees a steady heartbeat.
    pub fn tick(&mut self, now: u64) -> (batch: Batch)
        requires
            old(self).wf(),
        ensures
            final(self).wf(),
            final(self).timeout_spec() == old(self).timeout_spec(),
            batch.wf(),
            batch@ == mature_batch(old(self)@, now, old(self).timeout_spec()),
            final(self)@ == old(self)@.restrict(
                immature_keys(old(self)@, now, old(self).timeout_spec()),
            ),
            old(self)@ == Map::<Seq<char>, StoreEntry>::empty() ==> batch@ == Map::<
                Seq<char>,
                EventKind,
            >::empty() && final(self)@ == old(self)@,
    {
        let timeout = self.timeout;
        let batch = self.store.flush(now, timeout);
        proof {
            if old(self)@ == Map::<Seq<char>, StoreEntry>::empty() {
                assert(batch@ =~= Map::<Seq<char>, EventKind>::empty());
                assert(self@ =~= old(self)@);
            }
        }
        batch
    }

    /// The entry pending for `path`, if any.
    pub fn pending(&self, path: &String) -> (r: Option<&StoreEntry>)
        requires
            self.wf(),
        ensures
            match r {
                Option::Some(e) => self@.dom().contains(path@) && *e == self@[path@],
                Option::None => !self@.dom().contains(path@),
            },
    {
        self.store.lookup(path)
    }

    /// The number of paths currently pending.
    pub fn pending_len(&self) -> (n: usize)
        requires
            self.wf(),
        ensures
            n == self@.dom().len(),
    {
        self.store.len()
    }
}

} // verus!
