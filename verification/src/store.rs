//! The pending-event store and its merge and flush operations.
//!
//! [`CoalesceStore`] maps each pending path to a [`StoreEntry`]: the kind of
//! the last event that won the overwrite decision, and the monotonic
//! timestamp (in milliseconds) at which it did. The store is viewed in
//! specifications as a `Map<Seq<char>, StoreEntry>`.
//!
//! Two operations drive it: [`CoalesceStore::apply`] folds one incoming
//! event (kind plus path set) into the store under the merge policy of
//! [`crate::kind`], and [`CoalesceStore::flush`] removes every matured
//! entry — one whose age has reached the timeout — into a [`Batch`],
//! leaving immature entries untouched.

use vstd::prelude::*;

use crate::kind::{can_overwrite, overwrites_existing, EventKind};

verus! {

/// One pending record: the kind to deliver for a path, and the time of its
/// last accepted update.
#[derive(Clone, Copy, Debug, PartialEq, Eq, Structural)]
pub struct StoreEntry {
    /// The coalesced kind pending for the path.
    pub kind: EventKind,
    /// Monotonic timestamp, in milliseconds, of the last accepted update.
    pub time: u64,
}

/// One step of the merge policy: the entry a path holds after an event of
/// kind `kind` at time `now` arrives, given the prior entry (if any).
///
/// A first event always installs itself. A later event replaces the entry
/// exactly when [`can_overwrite`] allows it, resetting the timestamp to
/// `now`; otherwise the prior entry is kept completely untouched.
pub open spec fn merge_step(prior: Option<StoreEntry>, kind: EventKind, now: u64) -> StoreEntry {
    match prior {
        Option::None => StoreEntry { kind, time: now },
        Option::Some(e) => if can_overwrite(kind, e.kind) {
            StoreEntry { kind, time: now }
        } else {
            e
        },
    }
}

/// Does the association sequence `s` hold the key `p`?
pub open spec fn seq_has_key<V>(s: Seq<(String, V)>, p: Seq<char>) -> bool {
    exists|i: int| 0 <= i < s.len() && s[i].0@ == p
}

/// Some index of `s` holding the key `p` (meaningful only when
/// [`seq_has_key`] holds; unique when keys are unique).
pub open spec fn seq_key_index<V>(s: Seq<(String, V)>, p: Seq<char>) -> int {
    choose|i: int| 0 <= i < s.len() && s[i].0@ == p
}

/// No two positions of `s` hold the same key.
pub open spec fn keys_unique<V>(s: Seq<(String, V)>) -> bool {
    forall|i: int, j: int| 0 <= i < j < s.len() ==> s[i].0@ != s[j].0@
}

/// The finite map that an association sequence denotes.
pub open spec fn keyed_map<V>(s: Seq<(String, V)>) -> Map<Seq<char>, V> {
    Map::new(|p: Seq<char>| seq_has_key(s, p), |p: Seq<char>| s[seq_key_index(s, p)].1)
}

/// Under unique keys, the map agrees with every position of the sequence.
pub proof fn lemma_keyed_map_at<V>(s: Seq<(String, V)>, i: int)
    requires
        keys_unique(s),
        0 <= i < s.len(),
    ensures
        keyed_map(s).dom().contains(s[i].0@),
        keyed_map(s)[s[i].0@] == s[i].1,
{
    let p = s[i].0@;
    assert(seq_has_key(s, p));
    let j = seq_key_index(s, p);
    assert(0 <= j < s.len() && s[j].0@ == p);
    if i < j {
        assert(s[i].0@ != s[j].0@);
    } else if j < i {
        assert(s[j].0@ != s[i].0@);
    }
    assert(j == i);
}

/// Replacing the pair at a position by one with the same key updates the
/// denoted map at exactly that key.
pub proof fn lemma_keyed_map_update<V>(s: Seq<(String, V)>, i: int, x: (String, V))
    requires
        keys_unique(s),
        0 <= i < s.len(),
        x.0@ == s[i].0@,
    ensures
        keys_unique(s.update(i, x)),
        keyed_map(s.update(i, x)) == keyed_map(s).insert(x.0@, x.1),
{
    let t = s.update(i, x);
    assert forall|a: int, b: int| 0 <= a < b < t.len() implies t[a].0@ != t[b].0@ by {
        assert(s[a].0@ != s[b].0@);
    }
    assert forall|p: Seq<char>| seq_has_key(t, p) == seq_has_key(s, p) by {
        if seq_has_key(t, p) {
            let a = choose|a: int| 0 <= a < t.len() && t[a].0@ == p;
            assert(s[a].0@ == p);
        }
        if seq_has_key(s, p) {
            let a = choose|a: int| 0 <= a < s.len() && s[a].0@ == p;
            assert(t[a].0@ == p);
        }
    }
    assert forall|p: Seq<char>| seq_has_key(t, p) implies keyed_map(t)[p] == keyed_map(s).insert(
        x.0@,
        x.1,
    )[p] by {
        let a = choose|a: int| 0 <= a < t.len() && t[a].0@ == p;
        lemma_keyed_map_at(t, a);
        if p == x.0@ {
            if a < i {
                assert(s[a].0@ != s[i].0@);
            } else if i < a {
                assert(s[i].0@ != s[a].0@);
            }
            assert(a == i);
        } else {
            assert(a != i);
            lemma_keyed_map_at(s, a);
        }
    }
    assert(keyed_map(t) =~= keyed_map(s).insert(x.0@, x.1));
}

/// Appending a pair with a fresh key updates the denoted map at exactly
/// that key.
pub proof fn lemma_keyed_map_push<V>(s: Seq<(String, V)>, x: (String, V))
    requires
        keys_unique(s),
        !seq_has_key(s, x.0@),
    ensures
        keys_unique(s.push(x)),
        keyed_map(s.push(x)) == keyed_map(s).insert(x.0@, x.1),
{
    let t = s.push(x);
    assert forall|a: int, b: int| 0 <= a < b < t.len() implies t[a].0@ != t[b].0@ by {
        if b < s.len() {
            assert(s[a].0@ != s[b].0@);
        } else {
            assert(t[b] == x);
            assert(t[a] == s[a]);
            assert(!(s[a].0@ == x.0@));
        }
    }
    assert forall|p: Seq<char>| seq_has_key(t, p) == (seq_has_key(s, p) || p == x.0@) by {
        if seq_has_key(t, p) {
            let a = choose|a: int| 0 <= a < t.len() && t[a].0@ == p;
            if a < s.len() {
                assert(s[a].0@ == p);
            } else {
                assert(t[a] == x);
            }
        }
        if seq_has_key(s, p) {
            let a = choose|a: int| 0 <= a < s.len() && s[a].0@ == p;
            assert(t[a].0@ == p);
        }
        if p == x.0@ {
            assert(t[s.len() as int].0@ == p);
        }
    }
    assert forall|p: Seq<char>| seq_has_key(t, p) implies keyed_map(t)[p] == keyed_map(s).insert(
        x.0@,
        x.1,
    )[p] by {
        let a = choose|a: int| 0 <= a < t.len() && t[a].0@ == p;
        lemma_keyed_map_at(t, a);
        if p == x.0@ {
            if a < s.len() {
                assert(seq_has_key(s, p));
            }
            assert(t[a] == x);
        } else {
            assert(a < s.len());
            lemma_keyed_map_at(s, a);
        }
    }
    assert(keyed_map(t) =~= keyed_map(s).insert(x.0@, x.1));
}

/// The views of a sequence of path strings.
pub open spec fn paths_view(ps: Seq<String>) -> Seq<Seq<char>> {
    ps.map_values(|p: String| p@)
}

/// The store map after one event `(kind, paths)` at time `now` has been
/// folded in, path by path, left to right: each listed path moves to the
/// result of [`merge_step`] on its prior entry, every other path keeps its
/// entry.
pub open spec fn apply_event(
    m: Map<Seq<char>, StoreEntry>,
    kind: EventKind,
    paths: Seq<Seq<char>>,
    now: u64,
) -> Map<Seq<char>, StoreEntry>
    decreases paths.len(),
{
    if paths.len() == 0 {
        m
    } else {
        let prev = apply_event(m, kind, paths.drop_last(), now);
        prev.insert(paths.last(), merge_step(prev.get(paths.last()), kind, now))
    }
}

/// Is an entry last updated at `t` mature at check time `now`, for the
/// given timeout? Mature means its age has reached the timeout. A check
/// time earlier than the update (impossible on a monotonic clock) leaves
/// the entry immature.
pub open spec fn is_mature(t: u64, now: u64, timeout: u64) -> bool {
    t <= now && now - t >= timeout
}

/// The batch a flush at `now` emits from pending state `m`: exactly the
/// mature paths, each mapped to its pending kind, verbatim.
pub open spec fn mature_batch(m: Map<Seq<char>, StoreEntry>, now: u64, timeout: u64) -> Map<
    Seq<char>,
    EventKind,
> {
    Map::new(
        |p: Seq<char>| m.dom().contains(p) && is_mature(m[p].time, now, timeout),
        |p: Seq<char>| m[p].kind,
    )
}

/// The paths of `m` that a flush at `now` leaves pending: the immature
/// ones.
pub open spec fn immature_keys(m: Map<Seq<char>, StoreEntry>, now: u64, timeout: u64) -> Set<
    Seq<char>,
> {
    Set::new(|p: Seq<char>| m.dom().contains(p) && !is_mature(m[p].time, now, timeout))
}

/// The immature suffix-fold of the flush partition: the pairs of `s`, in
/// order, whose entries are not yet mature at `now`.
pub open spec fn immature_entries(
    s: Seq<(String, StoreEntry)>,
    now: u64,
    timeout: u64,
) -> Seq<(String, StoreEntry)>
    decreases s.len(),
{
    if s.len() == 0 {
        Seq::empty()
    } else {
        let r = immature_entries(s.drop_last(), now, timeout);
        if is_mature(s.last().1.time, now, timeout) {
            r
        } else {
            r.push(s.last())
        }
    }
}

/// The mature side of the flush partition: each mature pair of `s`, in
/// order, reduced to its `(path, kind)`.
pub open spec fn mature_entries(
    s: Seq<(String, StoreEntry)>,
    now: u64,
    timeout: u64,
) -> Seq<(String, EventKind)>
    decreases s.len(),
{
    if s.len() == 0 {
        Seq::empty()
    } else {
        let r = mature_entries(s.drop_last(), now, timeout);
        if is_mature(s.last().1.time, now, timeout) {
            r.push((s.last().0, s.last().1.kind))
        } else {
            r
        }
    }
}

/// The flush partition, read back as maps: the immature side denotes the
/// original map restricted to its immature keys, and the mature side
/// denotes exactly the batch of mature `(path, kind)` pairs.
pub proof fn lemma_partition_maps(s: Seq<(String, StoreEntry)>, now: u64, timeout: u64)
    requires
        keys_unique(s),
    ensures
        keys_unique(immature_entries(s, now, timeout)),
        keys_unique(mature_entries(s, now, timeout)),
        keyed_map(immature_entries(s, now, timeout)) == keyed_map(s).restrict(
            immature_keys(keyed_map(s), now, timeout),
        ),
        keyed_map(mature_entries(s, now, timeout)) == mature_batch(keyed_map(s), now, timeout),
    decreases s.len(),
{
    let ke = immature_entries(s, now, timeout);
    let ma = mature_entries(s, now, timeout);
    if s.len() == 0 {
        assert(keyed_map(ke) =~= keyed_map(s).restrict(immature_keys(keyed_map(s), now, timeout)));
        assert(keyed_map(ma) =~= mature_batch(keyed_map(s), now, timeout));
    } else {
        let t = s.drop_last();
        let x = s.last();
        assert forall|a: int, b: int| 0 <= a < b < t.len() implies t[a].0@ != t[b].0@ by {
            assert(s[a].0@ != s[b].0@);
        }
        lemma_partition_maps(t, now, timeout);
        let ke_t = immature_entries(t, now, timeout);
        let ma_t = mature_entries(t, now, timeout);
        assert(!seq_has_key(t, x.0@)) by {
            if seq_has_key(t, x.0@) {
                let a = choose|a: int| 0 <= a < t.len() && t[a].0@ == x.0@;
                assert(s[a].0@ != s[s.len() - 1].0@);
            }
        }
        lemma_keyed_map_push(t, x);
        assert(t.push(x) =~= s);
        if is_mature(x.1.time, now, timeout) {
            assert(!seq_has_key(ma_t, x.0@)) by {
                if seq_has_key(ma_t, x.0@) {
                    assert(keyed_map(ma_t).dom().contains(x.0@));
                    assert(keyed_map(t).dom().contains(x.0@));
                }
            }
            lemma_keyed_map_push(ma_t, (x.0, x.1.kind));
            assert(keyed_map(ma) =~= mature_batch(keyed_map(s), now, timeout));
            assert(keyed_map(ke) =~= keyed_map(s).restrict(
                immature_keys(keyed_map(s), now, timeout),
            ));
        } else {
            assert(!seq_has_key(ke_t, x.0@)) by {
                if seq_has_key(ke_t, x.0@) {
                    assert(keyed_map(ke_t).dom().contains(x.0@));
                    assert(keyed_map(t).dom().contains(x.0@));
                }
            }
            lemma_keyed_map_push(ke_t, x);
            assert(keyed_map(ma) =~= mature_batch(keyed_map(s), now, timeout));
            assert(keyed_map(ke) =~= keyed_map(s).restrict(
                immature_keys(keyed_map(s), now, timeout),
            ));
        }
    }
}

/// One batch of coalesced changes, delivered to the consumer on a flush
/// tick: each matured path with the kind that was pending for it.
pub struct Batch {
    /// The matured `(path, kind)` pairs; no path appears twice.
    pub items: Vec<(String, EventKind)>,
}

impl View for Batch {
    type V = Map<Seq<char>, EventKind>;

    open spec fn view(&self) -> Map<Seq<char>, EventKind> {
        keyed_map(self.items@)
    }
}

impl Batch {
    /// The batch's invariant: no path appears twice among its items.
    pub open spec fn wf(self) -> bool {
        keys_unique(self.items@)
    }

    /// The kind delivered for `path` in this batch, if any.
    pub fn get(&self, path: &String) -> (r: Option<&EventKind>)
        requires
            self.wf(),
        ensures
            match r {
                Option::Some(k) => self@.dom().contains(path@) && *k == self@[path@],
                Option::None => !self@.dom().contains(path@),
            },
    {
        let mut i: usize = 0;
        while i < self.items.len()
            invariant
                i <= self.items@.len(),
                keys_unique(self.items@),
                forall|j: int| 0 <= j < i ==> self.items@[j].0@ != path@,
            decreases self.items@.len() - i,
        {
            if self.items[i].0 == *path {
                proof {
                    lemma_keyed_map_at(self.items@, i as int);
                }
                return Option::Some(&self.items[i].1);
            }
            i = i + 1;
        }
        Option::None
    }

    /// The number of paths delivered in this batch.
    pub fn len(&self) -> (n: usize)
        requires
            self.wf(),
        ensures
            n == self@.dom().len(),
    {
        proof {
            lemma_keyed_map_len(self.items@);
        }
        self.items.len()
    }

    /// Is this batch empty?
    pub fn is_empty(&self) -> (b: bool)
        requires
            self.wf(),
        ensures
            b == (self@.dom().len() == 0),
    {
        self.len() == 0
    }
}

/// The pending store: each path seen since its last flush, with the kind
/// and timestamp that the merge policy has retained for it.
pub struct CoalesceStore {
    entries: Vec<(String, StoreEntry)>,
}

impl View for CoalesceStore {
    type V = Map<Seq<char>, StoreEntry>;

    closed spec fn view(&self) -> Map<Seq<char>, StoreEntry> {
        keyed_map(self.entries@)
    }
}

impl CoalesceStore {
    /// The store's internal invariant: no path appears twice.
    pub closed spec fn wf(self) -> bool {
        keys_unique(self.entries@)
    }

    /// An empty store: nothing is pending.
    pub fn new() -> (s: CoalesceStore)
        ensures
            s.wf(),
            s@ == Map::<Seq<char>, StoreEntry>::empty(),
    {
        let s = CoalesceStore { entries: Vec::new() };
        proof {
            assert(s@ =~= Map::<Seq<char>, StoreEntry>::empty());
        }
        s
    }

    /// The position of `path` among the entries, if it is pending.
    fn position_of(&self, path: &String) -> (r: Option<usize>)
        ensures
            match r {
                Option::Some(i) => i < self.entries@.len() && self.entries@[i as int].0@ == path@,
                Option::None => !seq_has_key(self.entries@, path@),
            },
    {
        let mut i: usize = 0;
        while i < self.entries.len()
            invariant
                i <= self.entries@.len(),
                forall|j: int| 0 <= j < i ==> self.entries@[j].0@ != path@,
            decreases self.entries@.len() - i,
        {
            if self.entries[i].0 == *path {
                return Option::Some(i);
            }
            i = i + 1;
        }
        Option::None
    }

    /// The entry pending for `path`, if any.
    pub fn lookup(&self, path: &String) -> (r: Option<&StoreEntry>)
        requires
            self.wf(),
        ensures
            match r {
                Option::Some(e) => self@.dom().contains(path@) && *e == self@[path@],
                Option::None => !self@.dom().contains(path@),
            },
    {
        match self.position_of(path) {
            Option::Some(i) => {
                proof {
                    lemma_keyed_map_at(self.entries@, i as int);
                }
                Option::Some(&self.entries[i].1)
            },
            Option::None => Option::None,
        }
    }

    /// The number of paths pending in the store.
    pub fn len(&self) -> (n: usize)
        requires
            self.wf(),
        ensures
            n == self@.dom().len(),
    {
        proof {
            lemma_keyed_map_len(self.entries@);
        }
        self.entries.len()
    }

    /// Fold one event for a single path into the store: one step of the
    /// merge policy of [`crate::kind`].
    pub fn apply_one(&mut self, kind: &EventKind, path: String, now: u64)
        requires
            old(self).wf(),
        ensures
            final(self).wf(),
            final(self)@ == old(self)@.insert(
                path@,
                merge_step(old(self)@.get(path@), *kind, now),
            ),
    {
        let entry = StoreEntry { kind: *kind, time: now };
        match self.position_of(&path) {
            Option::Some(i) => {
                proof {
                    lemma_keyed_map_at(self.entries@, i as int);
                }
                if overwrites_existing(kind, &self.entries[i].1.kind) {
                    let ghost s0 = self.entries@;
                    self.entries[i] = (path, entry);
                    proof {
                        lemma_keyed_map_update(s0, i as int, (self.entries@[i as int]));
                        assert(self.entries@ =~= s0.update(i as int, self.entries@[i as int]));
                    }
                } else {
                    proof {
                        assert(merge_step(old(self)@.get(path@), *kind, now) == old(self)@[path@]);
                        assert(old(self)@.insert(path@, old(self)@[path@]) =~= old(self)@);
                    }
                }
            },
            Option::None => {
                let ghost s0 = self.entries@;
                self.entries.push((path, entry));
                proof {
                    lemma_keyed_map_push(s0, (self.entries@.last()));
                    assert(self.entries@ =~= s0.push(self.entries@.last()));
                }
            },
        }
    }

    /// Fold one whole event — one kind applied to its set of paths — into
    /// the store. This is the ingest side's single critical section.
    pub fn apply(&mut self, kind: &EventKind, paths: &Vec<String>, now: u64)
        requires
            old(self).wf(),
        ensures
            final(self).wf(),
            final(self)@ == apply_event(old(self)@, *kind, paths_view(paths@), now),
    {
        let ghost ps = paths_view(paths@);
        let n = paths.len();
        let mut k: usize = 0;
        while k < n
            invariant
                n == paths@.len(),
                k <= n,
                ps == paths_view(paths@),
                self.wf(),
                self@ == apply_event(old(self)@, *kind, ps.take(k as int), now),
            decreases n - k,
        {
            let p = paths[k].clone();
            self.apply_one(kind, p, now);
            proof {
                assert(ps.take(k + 1).drop_last() =~= ps.take(k as int));
                assert(ps.take(k + 1).last() == paths@[k as int]@);
            }
            k = k + 1;
        }
        proof {
            assert(ps.take(n as int) =~= ps);
        }
    }

    /// One flush pass at check time `now`: remove every mature entry —
    /// one whose age has reached `timeout` — into the returned batch,
    /// keeping every immature entry completely untouched. This is the
    /// flush side's single critical section; the batch is delivered on
    /// every tick, even when it is empty.
    pub fn flush(&mut self, now: u64, timeout: u64) -> (batch: Batch)
        requires
            old(self).wf(),
        ensures
            final(self).wf(),
            batch.wf(),
            batch@ == mature_batch(old(self)@, now, timeout),
            final(self)@ == old(self)@.restrict(immature_keys(old(self)@, now, timeout)),
    {
        let ghost s0 = self.entries@;
        let mut kept: Vec<(String, StoreEntry)> = Vec::new();
        let mut out: Vec<(String, EventKind)> = Vec::new();
        let n = self.entries.len();
        let mut i: usize = 0;
        while i < n
            invariant
                self.entries@ == s0,
                n == s0.len(),
                i <= n,
                kept@ == immature_entries(s0.take(i as int), now, timeout),
                out@ == mature_entries(s0.take(i as int), now, timeout),
            decreases n - i,
        {
            let p = self.entries[i].0.clone();
            let e = self.entries[i].1;
            proof {
                assert(s0.take(i + 1).drop_last() =~= s0.take(i as int));
                assert(s0.take(i + 1).last() == s0[i as int]);
            }
            if now >= e.time && now - e.time >= timeout {
                out.push((p, e.kind));
            } else {
                kept.push((p, e));
            }
            i = i + 1;
        }
        proof {
            assert(s0.take(n as int) =~= s0);
            lemma_partition_maps(s0, now, timeout);
        }
        self.entries = kept;
        Batch { items: out }
    }
}

/// Under unique keys, the denoted map has exactly one key per position.
pub proof fn lemma_keyed_map_len<V>(s: Seq<(String, V)>)
    requires
        keys_unique(s),
    ensures
        keyed_map(s).dom().finite(),
        keyed_map(s).dom().len() == s.len(),
    decreases s.len(),
{
    if s.len() == 0 {
        assert(keyed_map(s).dom() =~= Set::<Seq<char>>::empty());
    } else {
        let t = s.drop_last();
        assert forall|a: int, b: int| 0 <= a < b < t.len() implies t[a].0@ != t[b].0@ by {
            assert(s[a].0@ != s[b].0@);
        }
        lemma_keyed_map_len(t);
        assert(!seq_has_key(t, s.last().0@)) by {
            if seq_has_key(t, s.last().0@) {
                let a = choose|a: int| 0 <= a < t.len() && t[a].0@ == s.last().0@;
                assert(s[a].0@ != s[s.len() - 1].0@);
            }
        }
        lemma_keyed_map_push(t, s.last());
        assert(t.push(s.last()) =~= s);
        assert(keyed_map(s).dom() =~= keyed_map(t).dom().insert(s.last().0@));
        assert(!keyed_map(t).dom().contains(s.last().0@));
    }
}

} // verus!
