//! The event kind taxonomy and its severity-ranked overwrite policy.
//!
//! Each incoming event carries an [`EventKind`]. Kinds are ranked by
//! severity: `Create` and `Remove` at the top (rank 3), then `Modify`
//! (rank 2), then `Access` (rank 1), with `Any` and `Other` at the bottom
//! (rank 0). Whether an incoming event may overwrite a pending entry is
//! decided purely from these ranks, by [`can_overwrite`].

use vstd::prelude::*;

verus! {

/// Subkind of an access event (a read-like observation of a path).
#[derive(Clone, Copy, Debug, PartialEq, Eq, Structural)]
pub enum AccessKind {
    Any,
    Read,
    Open,
    Close,
    Other,
}

/// Subkind of a modify event (a change to content, metadata or name).
#[derive(Clone, Copy, Debug, PartialEq, Eq, Structural)]
pub enum ModifyKind {
    Any,
    Data,
    Metadata,
    Name,
    Other,
}

/// Subkind of a create event.
#[derive(Clone, Copy, Debug, PartialEq, Eq, Structural)]
pub enum CreateKind {
    Any,
    File,
    Folder,
    Other,
}

/// Subkind of a remove event.
#[derive(Clone, Copy, Debug, PartialEq, Eq, Structural)]
pub enum RemoveKind {
    Any,
    File,
    Folder,
    Other,
}

/// Classification of one filesystem change, as delivered by the watcher.
///
/// The taxonomy is closed: every raw event arrives already classified as
/// one of these variants. The merge policy looks only at the top-level
/// variant; subkinds ride along untouched.
#[derive(Clone, Copy, Debug, PartialEq, Eq, Structural)]
pub enum EventKind {
    Any,
    Access(AccessKind),
    Create(CreateKind),
    Modify(ModifyKind),
    Remove(RemoveKind),
    Other,
}

/// Severity rank of a kind: `{Create, Remove} = 3 > Modify = 2 > Access = 1
/// > {Any, Other} = 0`.
pub open spec fn rank(k: EventKind) -> int {
    match k {
        EventKind::Create(_) | EventKind::Remove(_) => 3,
        EventKind::Modify(_) => 2,
        EventKind::Access(_) => 1,
        EventKind::Any | EventKind::Other => 0,
    }
}

/// The highest existing rank that an incoming kind is allowed to overwrite.
///
/// `Create`/`Remove` overwrite anything (bound 3). `Modify` and `Access`
/// overwrite only entries of rank at most 1 — so `Modify` does *not*
/// overwrite a pending `Modify` (rank 2), while `Access` *does* refresh a
/// pending `Access` (rank 1). `Any`/`Other` overwrite only rank 0.
pub open spec fn overwrite_bound(k: EventKind) -> int {
    match k {
        EventKind::Create(_) | EventKind::Remove(_) => 3,
        EventKind::Modify(_) | EventKind::Access(_) => 1,
        EventKind::Any | EventKind::Other => 0,
    }
}

/// The overwrite table of the merge policy: an incoming kind replaces an
/// existing pending kind exactly when the existing rank does not exceed the
/// incoming kind's overwrite bound.
pub open spec fn can_overwrite(incoming: EventKind, existing: EventKind) -> bool {
    rank(existing) <= overwrite_bound(incoming)
}

/// Executable severity rank of a kind.
pub fn rank_of(k: &EventKind) -> (r: u8)
    ensures
        r as int == rank(*k),
{
    match k {
        EventKind::Create(_) | EventKind::Remove(_) => 3,
        EventKind::Modify(_) => 2,
        EventKind::Access(_) => 1,
        EventKind::Any | EventKind::Other => 0,
    }
}

/// Executable overwrite decision: does `incoming` replace a pending entry
/// of kind `existing`?
pub fn overwrites_existing(incoming: &EventKind, existing: &EventKind) -> (b: bool)
    ensures
        b == can_overwrite(*incoming, *existing),
{
    match incoming {
        EventKind::Create(_) | EventKind::Remove(_) => true,
        EventKind::Modify(_) | EventKind::Access(_) => rank_of(existing) <= 1,
        EventKind::Any | EventKind::Other => rank_of(existing) == 0,
    }
}

} // verus!
