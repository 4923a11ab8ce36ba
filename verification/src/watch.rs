//! Refreshing the view when the root folder changes: which changes count,
//! and at most one refresh per 300 ms.
use vstd::prelude::*;
use crate::text::{trim, trim_str};

verus! {

/// Kinds of file system change reported by the watcher.
#[derive(Debug, Clone, Copy, PartialEq, Eq, Structural)]
pub enum FsEventKind {
    Any,
    Access,
    Create,
    Modify,
    Remove,
    Other,
}

/// Changes that call for a refresh: something created, modified or removed.
pub open spec fn is_change(k: FsEventKind) -> bool {
    k is Create || k is Modify || k is Remove
}

/// Minimum time between two refreshes, in nanoseconds.
pub open spec fn debounce_ns() -> u64 {
    300_000_000
}

/// Remembers when the last refresh was sent (monotonic nanoseconds).
#[derive(Debug, Clone, Copy, PartialEq, Eq, Structural)]
pub struct Debouncer {
    pub last_ns: u64,
}

/// Time since `last`, zero when `now` is earlier (as `Instant::elapsed`).
pub open spec fn elapsed(last: u64, now: u64) -> int {
    if now >= last {
        now - last
    } else {
        0
    }
}

/// Outcome of one change event: whether a refresh is due, and the time of
/// the last refresh afterwards.
pub open spec fn debounce_step(last: u64, kind: FsEventKind, now: u64) -> (bool, u64) {
    if is_change(kind) && elapsed(last, now) > debounce_ns() {
        (true, now)
    } else {
        (false, last)
    }
}

/// Two refreshes are always more than 300 ms apart: when an event at `t1`
/// triggers one, a later event at `t2` triggers the next only if `t2` is
/// more than 300 ms after `t1`.
pub proof fn law_refreshes_spaced(last: u64, k1: FsEventKind, t1: u64, k2: FsEventKind, t2: u64)
    requires
        debounce_step(last, k1, t1).0,
        t1 <= t2,
        debounce_step(debounce_step(last, k1, t1).1, k2, t2).0,
    ensures
        t2 - t1 > debounce_ns(),
{
}

impl Debouncer {
    /// A debouncer created at `now_ns` that treats the last refresh as a
    /// minute ago, so the first change is reported.
    pub fn new(now_ns: u64) -> (d: Debouncer)
        requires
            now_ns >= 60_000_000_000,
        ensures
            d.last_ns == now_ns - 60_000_000_000,
    {
        Debouncer { last_ns: now_ns - 60_000_000_000 }
    }

    /// Handles a change of kind `kind` seen at `now_ns`: a refresh is due
    /// when it creates, modifies or removes something and more than 300 ms
    /// have passed since the last refresh, which then becomes `now_ns`.
    pub fn on_event(&mut self, kind: FsEventKind, now_ns: u64) -> (emit: bool)
        ensures
            (emit, final(self).last_ns) == debounce_step(old(self).last_ns, kind, now_ns),
    {
        let is_change = match kind {
            FsEventKind::Create | FsEventKind::Remove | FsEventKind::Modify => true,
            _ => false,
        };
        let el = if now_ns >= self.last_ns {
            now_ns - self.last_ns
        } else {
            0
        };
        if is_change && el > 300_000_000 {
            self.last_ns = now_ns;
            true
        } else {
            false
        }
    }
}

/// Whether a root folder is set at all: a blank one is not watched.
pub fn should_watch(root: &str) -> (r: bool)
    ensures
        r == (trim(root@).len() > 0),
{
    let t = trim_str(root);
    t.len() > 0
}

} // verus!
