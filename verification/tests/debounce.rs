//! End-to-end tests of the coalescing store, the merge policy and the
//! periodic flush, driven through the public engine API.

use debouncer::engine::{Debouncer, RawEvent, WatchError};
use debouncer::kind::{AccessKind, CreateKind, EventKind, ModifyKind, RemoveKind};
use debouncer::store::CoalesceStore;

fn all_kinds() -> Vec<EventKind> {
    vec![
        EventKind::Any,
        EventKind::Other,
        EventKind::Access(AccessKind::Read),
        EventKind::Modify(ModifyKind::Data),
        EventKind::Create(CreateKind::File),
        EventKind::Remove(RemoveKind::File),
    ]
}

fn rank(k: &EventKind) -> u8 {
    match k {
        EventKind::Create(_) | EventKind::Remove(_) => 3,
        EventKind::Modify(_) => 2,
        EventKind::Access(_) => 1,
        EventKind::Any | EventKind::Other => 0,
    }
}

fn overwrite_bound(k: &EventKind) -> u8 {
    match k {
        EventKind::Create(_) | EventKind::Remove(_) => 3,
        EventKind::Modify(_) | EventKind::Access(_) => 1,
        EventKind::Any | EventKind::Other => 0,
    }
}

fn one_path(p: &str) -> Vec<String> {
    vec![p.to_string()]
}

/// The stored kind after any (existing, incoming) pair follows the merge
/// table: overwrite exactly when rank(existing) <= bound(incoming).
#[test]
fn merge_table_exhaustive() {
    for existing in all_kinds() {
        for incoming in all_kinds() {
            let mut store = CoalesceStore::new();
            let path = "file.txt".to_string();
            store.apply(&existing, &one_path("file.txt"), 10);
            store.apply(&incoming, &one_path("file.txt"), 20);
            let entry = *store.lookup(&path).expect("path must be pending");
            if rank(&existing) <= overwrite_bound(&incoming) {
                assert_eq!(entry.kind, incoming);
                assert_eq!(entry.time, 20);
            } else {
                assert_eq!(entry.kind, existing);
                assert_eq!(entry.time, 10);
            }
        }
    }
}

/// A first event on a fresh path always installs itself, whatever its kind.
#[test]
fn first_event_always_installs() {
    for kind in all_kinds() {
        let mut store = CoalesceStore::new();
        let path = "fresh".to_string();
        store.apply(&kind, &one_path("fresh"), 7);
        let entry = *store.lookup(&path).expect("path must be pending");
        assert_eq!(entry.kind, kind);
        assert_eq!(entry.time, 7);
    }
}

/// Create and Remove overwrite any existing entry, even another
/// Create/Remove, and reset the timestamp.
#[test]
fn create_remove_overwrite_everything() {
    for existing in all_kinds() {
        for incoming in [
            EventKind::Create(CreateKind::Folder),
            EventKind::Remove(RemoveKind::Any),
        ] {
            let mut store = CoalesceStore::new();
            let path = "p".to_string();
            store.apply(&existing, &one_path("p"), 100);
            store.apply(&incoming, &one_path("p"), 250);
            let entry = *store.lookup(&path).expect("path must be pending");
            assert_eq!(entry.kind, incoming);
            assert_eq!(entry.time, 250);
        }
    }
}

/// Two consecutive Modify events on one path: the second is a no-op, the
/// stored timestamp remains the first event's.
#[test]
fn modify_modify_keeps_first_timestamp() {
    let mut store = CoalesceStore::new();
    let path = "m".to_string();
    store.apply(&EventKind::Modify(ModifyKind::Data), &one_path("m"), 30);
    store.apply(&EventKind::Modify(ModifyKind::Metadata), &one_path("m"), 80);
    let entry = *store.lookup(&path).expect("path must be pending");
    assert_eq!(entry.kind, EventKind::Modify(ModifyKind::Data));
    assert_eq!(entry.time, 30);
}

/// Two consecutive Access events on one path: the second overwrites, the
/// stored timestamp becomes the second event's.
#[test]
fn access_access_refreshes_timestamp() {
    let mut store = CoalesceStore::new();
    let path = "a".to_string();
    store.apply(&EventKind::Access(AccessKind::Read), &one_path("a"), 30);
    store.apply(&EventKind::Access(AccessKind::Close), &one_path("a"), 80);
    let entry = *store.lookup(&path).expect("path must be pending");
    assert_eq!(entry.kind, EventKind::Access(AccessKind::Close));
    assert_eq!(entry.time, 80);
}

/// An entry updated at t0 is absent from every batch checked before
/// t0 + timeout, and present in the first batch checked at or past it.
#[test]
fn maturity_window() {
    let mut d = Debouncer::new(100);
    let path = "w".to_string();
    let ev = RawEvent {
        kind: EventKind::Create(CreateKind::File),
        paths: one_path("w"),
    };
    d.ingest(Ok(ev), 10);

    let early = d.tick(109);
    assert!(early.get(&path).is_none());
    assert_eq!(early.len(), 0);
    assert!(d.pending(&path).is_some());

    let due = d.tick(110);
    assert_eq!(*due.get(&path).expect("must be delivered"), EventKind::Create(CreateKind::File));
    assert_eq!(due.len(), 1);
    assert!(d.pending(&path).is_none());

    let after = d.tick(300);
    assert!(after.is_empty());
}

/// Heartbeat: N ticks with no incoming events yield exactly N batches,
/// all empty.
#[test]
fn heartbeat_empty_ticks() {
    let mut d = Debouncer::new(50);
    let mut batches = Vec::new();
    for n in 0..5u64 {
        batches.push(d.tick(50 * (n + 1)));
    }
    assert_eq!(batches.len(), 5);
    for b in &batches {
        assert!(b.is_empty());
        assert_eq!(b.items.len(), 0);
    }
}

/// Events on disjoint paths leave each path's entry independent of the
/// interleaving order.
#[test]
fn disjoint_paths_order_independence() {
    let path_a = "a.txt".to_string();
    let path_b = "b.txt".to_string();
    let ev_a1 = |d: &mut Debouncer, t: u64| {
        d.ingest(
            Ok(RawEvent { kind: EventKind::Modify(ModifyKind::Data), paths: one_path("a.txt") }),
            t,
        )
    };
    let ev_a2 = |d: &mut Debouncer, t: u64| {
        d.ingest(
            Ok(RawEvent { kind: EventKind::Access(AccessKind::Read), paths: one_path("a.txt") }),
            t,
        )
    };
    let ev_b = |d: &mut Debouncer, t: u64| {
        d.ingest(
            Ok(RawEvent { kind: EventKind::Remove(RemoveKind::File), paths: one_path("b.txt") }),
            t,
        )
    };

    let mut d1 = Debouncer::new(100);
    ev_a1(&mut d1, 1);
    ev_a2(&mut d1, 2);
    ev_b(&mut d1, 3);

    let mut d2 = Debouncer::new(100);
    ev_b(&mut d2, 3);
    ev_a1(&mut d2, 1);
    ev_a2(&mut d2, 2);

    assert_eq!(d1.pending(&path_a), d2.pending(&path_a));
    assert_eq!(d1.pending(&path_b), d2.pending(&path_b));
    assert_eq!(d1.pending_len(), 2);
    assert_eq!(d2.pending_len(), 2);
}

/// End-to-end: timeout 100ms; Modify at 0ms, Access at 50ms. The Access
/// cannot overwrite the Modify, so the stored kind stays Modify with its
/// original timestamp, and the batch of the first tick at or past 150ms
/// delivers {pathX: Modify}.
#[test]
fn end_to_end_modify_then_access() {
    let path = "pathX".to_string();
    let mut d = Debouncer::new(100);
    d.ingest(
        Ok(RawEvent { kind: EventKind::Modify(ModifyKind::Any), paths: one_path("pathX") }),
        0,
    );
    d.ingest(
        Ok(RawEvent { kind: EventKind::Access(AccessKind::Any), paths: one_path("pathX") }),
        50,
    );

    let entry = *d.pending(&path).expect("path must still be pending");
    assert_eq!(entry.kind, EventKind::Modify(ModifyKind::Any));
    assert_eq!(entry.time, 0);

    let batch = d.tick(150);
    assert_eq!(*batch.get(&path).expect("must be delivered"), EventKind::Modify(ModifyKind::Any));
    assert_eq!(batch.len(), 1);
    assert!(d.pending(&path).is_none());
}

/// A failure delivered in place of an event is dropped silently: no store
/// mutation at all.
#[test]
fn watcher_failure_dropped_silently() {
    let mut d = Debouncer::new(100);
    d.ingest(
        Ok(RawEvent { kind: EventKind::Create(CreateKind::Any), paths: one_path("keep") }),
        5,
    );
    d.ingest(Err(WatchError {}), 6);
    assert_eq!(d.pending_len(), 1);
    let entry = *d.pending(&"keep".to_string()).expect("entry must survive");
    assert_eq!(entry.kind, EventKind::Create(CreateKind::Any));
    assert_eq!(entry.time, 5);
}

/// One event with several paths updates every listed path.
#[test]
fn multi_path_event_updates_each_path() {
    let mut d = Debouncer::new(100);
    d.ingest(
        Ok(RawEvent {
            kind: EventKind::Remove(RemoveKind::Folder),
            paths: vec!["x".to_string(), "y".to_string()],
        }),
        9,
    );
    assert_eq!(d.pending_len(), 2);
    for p in ["x", "y"] {
        let entry = *d.pending(&p.to_string()).expect("listed path must be pending");
        assert_eq!(entry.kind, EventKind::Remove(RemoveKind::Folder));
        assert_eq!(entry.time, 9);
    }
}

/// A flush keeps immature entries verbatim while draining mature ones.
#[test]
fn flush_partitions_mature_from_immature() {
    let mut d = Debouncer::new(100);
    d.ingest(
        Ok(RawEvent { kind: EventKind::Create(CreateKind::File), paths: one_path("old") }),
        0,
    );
    d.ingest(
        Ok(RawEvent { kind: EventKind::Modify(ModifyKind::Data), paths: one_path("new") }),
        80,
    );
    let batch = d.tick(120);
    assert_eq!(batch.len(), 1);
    assert_eq!(*batch.get(&"old".to_string()).expect("mature entry"), EventKind::Create(CreateKind::File));
    assert!(batch.get(&"new".to_string()).is_none());
    let entry = *d.pending(&"new".to_string()).expect("immature entry must stay");
    assert_eq!(entry.kind, EventKind::Modify(ModifyKind::Data));
    assert_eq!(entry.time, 80);
    assert!(d.pending(&"old".to_string()).is_none());
}

/// The Any/Other floor: Any or Other overwrite only each other, and do
/// refresh one another's timestamp.
#[test]
fn any_other_refresh_each_other() {
    let mut store = CoalesceStore::new();
    let path = "q".to_string();
    store.apply(&EventKind::Any, &one_path("q"), 1);
    store.apply(&EventKind::Other, &one_path("q"), 2);
    let entry = *store.lookup(&path).expect("pending");
    assert_eq!(entry.kind, EventKind::Other);
    assert_eq!(entry.time, 2);
    store.apply(&EventKind::Access(AccessKind::Any), &one_path("q"), 3);
    let entry = *store.lookup(&path).expect("pending");
    assert_eq!(entry.kind, EventKind::Access(AccessKind::Any));
    store.apply(&EventKind::Any, &one_path("q"), 4);
    let entry = *store.lookup(&path).expect("pending");
    assert_eq!(entry.kind, EventKind::Access(AccessKind::Any));
    assert_eq!(entry.time, 3);
}
