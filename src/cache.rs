//! The status cache coordinator: a bounded, time-expiring, least-recently-used
//! map from key to status, with at most one fetch in flight per key.
//!
//! The coordinator makes the decisions; whoever drives it performs the
//! fetches. A request calls [`StatusCache::begin`] with a handle on which it
//! will be answered. On a hit it has its answer. Otherwise its handle is
//! queued under the key, and exactly one request, the driver, is told to
//! fetch. When that fetch ends, [`StatusCache::complete`] records a success
//! and hands back every queued handle, all of which get that one outcome.

use vstd::prelude::*;

use crate::address::{KeyView, ServerAddr};
use crate::probe::{FetchError, ServerStatus, StatusView};

verus! {

/// One cached status, with the times (in clock ticks) at which it was made
/// and last read.
pub struct CacheEntry {
    key: ServerAddr,
    value: ServerStatus,
    created_at: u64,
    last_accessed_at: u64,
}

pub ghost struct EntryView {
    pub key: KeyView,
    pub value: StatusView,
    pub created_at: u64,
    pub last_accessed_at: u64,
}

impl View for CacheEntry {
    type V = EntryView;

    closed spec fn view(&self) -> EntryView {
        EntryView {
            key: self.key@,
            value: self.value@,
            created_at: self.created_at,
            last_accessed_at: self.last_accessed_at,
        }
    }
}

/// A fetch in flight, with the handles of everyone waiting for it.
struct Pending<W> {
    key: ServerAddr,
    waiters: Vec<W>,
}

pub ghost struct PendingView<W> {
    pub key: KeyView,
    pub waiters: Seq<W>,
}

impl<W> View for Pending<W> {
    type V = PendingView<W>;

    closed spec fn view(&self) -> PendingView<W> {
        PendingView { key: self.key@, waiters: self.waiters@ }
    }
}

/// The outcome of a lookup.
pub enum Lookup {
    /// A live entry answered; no fetch is needed.
    Hit(ServerStatus),
    /// No entry and no fetch in flight: the caller must fetch and then
    /// call `complete`.
    Drive,
    /// A fetch is in flight: the caller's handle will be answered with its
    /// outcome.
    Join,
}

pub ghost enum LookupView {
    Hit(StatusView),
    Drive,
    Join,
}

impl View for Lookup {
    type V = LookupView;

    open spec fn view(&self) -> LookupView {
        match self {
            Lookup::Hit(s) => LookupView::Hit(s@),
            Lookup::Drive => LookupView::Drive,
            Lookup::Join => LookupView::Join,
        }
    }
}

/// The coordinator's state, generic over the waiters' answer handles.
pub struct StatusCache<W> {
    /// Least recently used first.
    entries: Vec<CacheEntry>,
    pending: Vec<Pending<W>>,
    capacity: usize,
    time_to_live: u64,
    time_to_idle: Option<u64>,
}

pub ghost struct CacheView<W> {
    /// Least recently used first.
    pub entries: Seq<EntryView>,
    pub pending: Seq<PendingView<W>>,
    pub capacity: nat,
    pub time_to_live: u64,
    pub time_to_idle: Option<u64>,
}

impl<W> View for StatusCache<W> {
    type V = CacheView<W>;

    closed spec fn view(&self) -> CacheView<W> {
        CacheView {
            entries: self.entries@.map_values(|e: CacheEntry| e@),
            pending: self.pending@.map_values(|p: Pending<W>| p@),
            capacity: self.capacity as nat,
            time_to_live: self.time_to_live,
            time_to_idle: self.time_to_idle,
        }
    }
}

pub open spec fn unique_entry_keys(es: Seq<EntryView>) -> bool {
    forall|i: int, j: int|
        0 <= i < es.len() && 0 <= j < es.len() && i != j ==> es[i].key != es[j].key
}

pub open spec fn unique_pending_keys<W>(ps: Seq<PendingView<W>>) -> bool {
    forall|i: int, j: int|
        0 <= i < ps.len() && 0 <= j < ps.len() && i != j ==> ps[i].key != ps[j].key
}

pub open spec fn has_entry(es: Seq<EntryView>, k: KeyView) -> bool {
    exists|i: int| 0 <= i < es.len() && (#[trigger] es[i]).key == k
}

pub open spec fn has_pending<W>(ps: Seq<PendingView<W>>, k: KeyView) -> bool {
    exists|i: int| 0 <= i < ps.len() && (#[trigger] ps[i]).key == k
}

impl<W> CacheView<W> {
    /// At most `capacity` entries; one entry and one fetch per key at most;
    /// no fetch for a key that has an entry.
    pub open spec fn inv(self) -> bool {
        &&& self.entries.len() <= self.capacity
        &&& unique_entry_keys(self.entries)
        &&& unique_pending_keys(self.pending)
        &&& forall|i: int| #![auto] 0 <= i < self.pending.len()
            ==> !has_entry(self.entries, self.pending[i].key)
    }
}

/// Where the entry for `k` stands.
pub open spec fn entry_pos(es: Seq<EntryView>, k: KeyView) -> Option<int> {
    if has_entry(es, k) {
        Some(choose|i: int| 0 <= i < es.len() && (#[trigger] es[i]).key == k)
    } else {
        None
    }
}

/// Where the fetch for `k` stands.
pub open spec fn pending_pos<W>(ps: Seq<PendingView<W>>, k: KeyView) -> Option<int> {
    if has_pending(ps, k) {
        Some(choose|i: int| 0 <= i < ps.len() && (#[trigger] ps[i]).key == k)
    } else {
        None
    }
}

/// An entry is live until its age reaches the time to live, or its idle
/// time reaches the time to idle where one is set.
pub open spec fn is_live(e: EntryView, now: u64, ttl: u64, tti: Option<u64>) -> bool {
    &&& !(now >= e.created_at && now - e.created_at >= ttl)
    &&& match tti {
        Some(t) => !(now >= e.last_accessed_at && now - e.last_accessed_at >= t),
        None => true,
    }
}

/// A lookup of `k` at time `now` by a caller with handle `w`: a live entry
/// answers and becomes the most recently used; otherwise a stale entry is
/// dropped, and the caller joins the fetch in flight or starts one.
pub open spec fn begin_step<W>(v: CacheView<W>, k: KeyView, now: u64, w: W) -> (
    CacheView<W>,
    LookupView,
) {
    let pos = entry_pos(v.entries, k);
    if pos is Some && is_live(v.entries[pos->0], now, v.time_to_live, v.time_to_idle) {
        let e = v.entries[pos->0];
        let touched = EntryView {
            key: e.key,
            value: e.value,
            created_at: e.created_at,
            last_accessed_at: now,
        };
        (
            CacheView {
                entries: v.entries.remove(pos->0).push(touched),
                pending: v.pending,
                capacity: v.capacity,
                time_to_live: v.time_to_live,
                time_to_idle: v.time_to_idle,
            },
            LookupView::Hit(e.value),
        )
    } else {
        let entries = if pos is Some {
            v.entries.remove(pos->0)
        } else {
            v.entries
        };
        match pending_pos(v.pending, k) {
            Some(j) => (
                CacheView {
                    entries,
                    pending: v.pending.remove(j).push(
                        PendingView { key: k, waiters: v.pending[j].waiters.push(w) },
                    ),
                    capacity: v.capacity,
                    time_to_live: v.time_to_live,
                    time_to_idle: v.time_to_idle,
                },
                LookupView::Join,
            ),
            None => (
                CacheView {
                    entries,
                    pending: v.pending.push(PendingView { key: k, waiters: seq![w] }),
                    capacity: v.capacity,
                    time_to_live: v.time_to_live,
                    time_to_idle: v.time_to_idle,
                },
                LookupView::Drive,
            ),
        }
    }
}

/// The entries after `e` is stored: any older entry for its key goes, and
/// at capacity the least recently used entry is evicted first.
pub open spec fn install(es: Seq<EntryView>, capacity: nat, e: EntryView) -> Seq<EntryView> {
    let rest = match entry_pos(es, e.key) {
        Some(i) => es.remove(i),
        None => es,
    };
    if capacity == 0 {
        rest
    } else if rest.len() >= capacity {
        rest.drop_first().push(e)
    } else {
        rest.push(e)
    }
}

/// The end of the fetch for `k` at time `now`, with the fetched status or
/// `None` on failure: the fetch's waiters are released, and only a success
/// is stored.
pub open spec fn complete_step<W>(
    v: CacheView<W>,
    k: KeyView,
    result: Option<StatusView>,
    now: u64,
) -> (CacheView<W>, Seq<W>) {
    let pending = match pending_pos(v.pending, k) {
        Some(j) => v.pending.remove(j),
        None => v.pending,
    };
    let waiters = match pending_pos(v.pending, k) {
        Some(j) => v.pending[j].waiters,
        None => Seq::empty(),
    };
    let entries = match result {
        Some(s) => install(
            v.entries,
            v.capacity,
            EntryView { key: k, value: s, created_at: now, last_accessed_at: now },
        ),
        None => v.entries,
    };
    (
        CacheView {
            entries,
            pending,
            capacity: v.capacity,
            time_to_live: v.time_to_live,
            time_to_idle: v.time_to_idle,
        },
        waiters,
    )
}

pub open spec fn success_view(r: Result<ServerStatus, FetchError>) -> Option<StatusView> {
    match r {
        Ok(s) => Some(s@),
        Err(_) => None,
    }
}

proof fn lemma_entry_pos(es: Seq<EntryView>, k: KeyView, i: int)
    requires
        unique_entry_keys(es),
        0 <= i < es.len(),
        es[i].key == k,
    ensures
        entry_pos(es, k) == Some(i),
{
    assert(has_entry(es, k));
}

proof fn lemma_pending_pos<W>(ps: Seq<PendingView<W>>, k: KeyView, i: int)
    requires
        unique_pending_keys(ps),
        0 <= i < ps.len(),
        ps[i].key == k,
    ensures
        pending_pos(ps, k) == Some(i),
{
    assert(has_pending(ps, k));
}

proof fn lemma_remove_entry(es: Seq<EntryView>, i: int)
    requires
        unique_entry_keys(es),
        0 <= i < es.len(),
    ensures
        unique_entry_keys(es.remove(i)),
        !has_entry(es.remove(i), es[i].key),
        forall|k: KeyView| has_entry(es.remove(i), k) ==> has_entry(es, k),
{
    let r = es.remove(i);
    assert forall|a: int| 0 <= a < r.len() implies #[trigger] r[a] == es[if a < i {
        a
    } else {
        a + 1
    }] by {}
    assert forall|k: KeyView| has_entry(r, k) implies has_entry(es, k) by {
        let a = choose|a: int| 0 <= a < r.len() && (#[trigger] r[a]).key == k;
        let b = if a < i { a } else { a + 1 };
        assert(es[b].key == k);
    }
}

proof fn lemma_push_entry(es: Seq<EntryView>, e: EntryView)
    requires
        unique_entry_keys(es),
        !has_entry(es, e.key),
    ensures
        unique_entry_keys(es.push(e)),
        forall|k: KeyView| has_entry(es.push(e), k) <==> (has_entry(es, k) || k == e.key),
{
    let r = es.push(e);
    assert forall|k: KeyView| has_entry(r, k) <==> (has_entry(es, k) || k == e.key) by {
        if has_entry(r, k) {
            let a = choose|a: int| 0 <= a < r.len() && (#[trigger] r[a]).key == k;
            if a < es.len() {
                assert(es[a].key == k);
            }
        }
        if has_entry(es, k) {
            let a = choose|a: int| 0 <= a < es.len() && (#[trigger] es[a]).key == k;
            assert(r[a].key == k);
        }
        if k == e.key {
            assert(r[es.len() as int].key == k);
        }
    }
    assert forall|a: int, b: int|
        0 <= a < r.len() && 0 <= b < r.len() && a != b implies r[a].key != r[b].key by {
        if a < es.len() && b == es.len() {
            assert(es[a].key == r[a].key);
        }
        if b < es.len() && a == es.len() {
            assert(es[b].key == r[b].key);
        }
    }
}

proof fn lemma_remove_pending<W>(ps: Seq<PendingView<W>>, j: int)
    requires
        unique_pending_keys(ps),
        0 <= j < ps.len(),
    ensures
        unique_pending_keys(ps.remove(j)),
        !has_pending(ps.remove(j), ps[j].key),
        forall|a: int|
            0 <= a < ps.remove(j).len() ==> #[trigger] ps.remove(j)[a] == ps[if a < j {
                a
            } else {
                a + 1
            }],
{
    let r = ps.remove(j);
    assert forall|a: int| 0 <= a < r.len() implies #[trigger] r[a] == ps[if a < j {
        a
    } else {
        a + 1
    }] by {}
}

/// Every step keeps the coordinator's invariant.
pub proof fn lemma_begin_keeps_inv<W>(v: CacheView<W>, k: KeyView, now: u64, w: W)
    requires
        v.inv(),
    ensures
        begin_step(v, k, now, w).0.inv(),
{
    let pos = entry_pos(v.entries, k);
    let v2 = begin_step(v, k, now, w).0;
    let entries = if pos is Some {
        v.entries.remove(pos->0)
    } else {
        v.entries
    };
    if pos is Some {
        let i = pos->0;
        lemma_remove_entry(v.entries, i);
        assert(v.entries[i].key == k);
    }
    assert(forall|kk: KeyView| has_entry(entries, kk) ==> has_entry(v.entries, kk));
    if pos is Some && is_live(v.entries[pos->0], now, v.time_to_live, v.time_to_idle) {
        let e = v.entries[pos->0];
        let touched = EntryView {
            key: e.key,
            value: e.value,
            created_at: e.created_at,
            last_accessed_at: now,
        };
        lemma_push_entry(entries, touched);
        assert forall|j: int| #![auto] 0 <= j < v2.pending.len() implies !has_entry(
            v2.entries,
            v2.pending[j].key,
        ) by {
            assert(!has_entry(v.entries, v.pending[j].key));
        }
    } else {
        assert(!has_entry(entries, k)) by {
            if has_entry(entries, k) {
                assert(has_entry(v.entries, k));
            }
        }
        match pending_pos(v.pending, k) {
            Some(j) => {
                lemma_remove_pending(v.pending, j);
                let rest = v.pending.remove(j);
                let p = PendingView { key: k, waiters: v.pending[j].waiters.push(w) };
                assert forall|a: int, b: int|
                    0 <= a < v2.pending.len() && 0 <= b < v2.pending.len() && a != b implies v2.pending[a].key
                    != v2.pending[b].key by {
                    if a < rest.len() && b == rest.len() {
                        assert(rest[a].key != k);
                    }
                    if b < rest.len() && a == rest.len() {
                        assert(rest[b].key != k);
                    }
                }
                assert forall|a: int| #![auto] 0 <= a < v2.pending.len() implies !has_entry(
                    v2.entries,
                    v2.pending[a].key,
                ) by {
                    if a < rest.len() {
                        let b = if a < j { a } else { a + 1 };
                        assert(v2.pending[a] == v.pending[b]);
                        assert(!has_entry(v.entries, v.pending[b].key));
                    }
                }
            },
            None => {
                let p = PendingView { key: k, waiters: seq![w] };
                assert forall|a: int, b: int|
                    0 <= a < v2.pending.len() && 0 <= b < v2.pending.len() && a != b implies v2.pending[a].key
                    != v2.pending[b].key by {
                    if a < v.pending.len() && b == v.pending.len() {
                        assert(v.pending[a].key != k);
                    }
                    if b < v.pending.len() && a == v.pending.len() {
                        assert(v.pending[b].key != k);
                    }
                }
                assert forall|a: int| #![auto] 0 <= a < v2.pending.len() implies !has_entry(
                    v2.entries,
                    v2.pending[a].key,
                ) by {
                    if a < v.pending.len() {
                        assert(v2.pending[a] == v.pending[a]);
                        assert(!has_entry(v.entries, v.pending[a].key));
                    }
                }
            },
        }
    }
}

proof fn lemma_install(es: Seq<EntryView>, capacity: nat, e: EntryView)
    requires
        unique_entry_keys(es),
        es.len() <= capacity,
    ensures
        unique_entry_keys(install(es, capacity, e)),
        install(es, capacity, e).len() <= capacity,
        forall|k: KeyView|
            has_entry(install(es, capacity, e), k) ==> (has_entry(es, k) || k == e.key),
{
    let rest = match entry_pos(es, e.key) {
        Some(i) => es.remove(i),
        None => es,
    };
    match entry_pos(es, e.key) {
        Some(i) => {
            lemma_remove_entry(es, i);
        },
        None => {},
    }
    assert(!has_entry(rest, e.key));
    assert(forall|k: KeyView| has_entry(rest, k) ==> has_entry(es, k));
    if capacity == 0 {
    } else if rest.len() >= capacity {
        lemma_remove_entry(rest, 0);
        assert(rest.drop_first() =~= rest.remove(0));
        lemma_push_entry(rest.remove(0), e);
    } else {
        lemma_push_entry(rest, e);
    }
}

pub proof fn lemma_complete_keeps_inv<W>(
    v: CacheView<W>,
    k: KeyView,
    result: Option<StatusView>,
    now: u64,
)
    requires
        v.inv(),
    ensures
        complete_step(v, k, result, now).0.inv(),
{
    let v2 = complete_step(v, k, result, now).0;
    match pending_pos(v.pending, k) {
        Some(j) => {
            lemma_remove_pending(v.pending, j);
            assert(v.pending[j].key == k);
        },
        None => {},
    }
    assert(!has_pending(v2.pending, k));
    assert forall|a: int| 0 <= a < v2.pending.len() implies exists|b: int|
        0 <= b < v.pending.len() && #[trigger] v2.pending[a] == v.pending[b] by {
        match pending_pos(v.pending, k) {
            Some(j) => {
                let b = if a < j { a } else { a + 1 };
                assert(v2.pending[a] == v.pending[b]);
            },
            None => {
                assert(v2.pending[a] == v.pending[a]);
            },
        }
    }
    match result {
        Some(s) => {
            let e = EntryView { key: k, value: s, created_at: now, last_accessed_at: now };
            lemma_install(v.entries, v.capacity, e);
        },
        None => {},
    }
    assert forall|a: int| #![auto] 0 <= a < v2.pending.len() implies !has_entry(
        v2.entries,
        v2.pending[a].key,
    ) by {
        let b = choose|b: int| 0 <= b < v.pending.len() && #[trigger] v2.pending[a] == v.pending[b];
        assert(!has_entry(v.entries, v.pending[b].key));
        if v2.pending[a].key == k {
            assert(has_pending(v2.pending, k));
        }
    }
}

impl<W> StatusCache<W> {
    pub closed spec fn wf(&self) -> bool {
        self@.inv()
    }

    /// An empty coordinator.
    pub fn new(capacity: usize, time_to_live: u64, time_to_idle: Option<u64>) -> (r: Self)
        ensures
            r.wf(),
            r@.entries.len() == 0,
            r@.pending.len() == 0,
            r@.capacity == capacity,
            r@.time_to_live == time_to_live,
            r@.time_to_idle == time_to_idle,
    {
        let r = StatusCache {
            entries: Vec::new(),
            pending: Vec::new(),
            capacity,
            time_to_live,
            time_to_idle,
        };
        assert(r@.entries =~= Seq::<EntryView>::empty());
        assert(r@.pending =~= Seq::<PendingView<W>>::empty());
        r
    }

    fn find_entry(&self, key: &ServerAddr) -> (r: Option<usize>)
        requires
            unique_entry_keys(self@.entries),
        ensures
            match r {
                Some(i) => entry_pos(self@.entries, key@) == Some(i as int),
                None => entry_pos(self@.entries, key@) is None,
            },
    {
        let mut i: usize = 0;
        while i < self.entries.len()
            invariant
                unique_entry_keys(self@.entries),
                i <= self.entries@.len(),
                self@.entries.len() == self.entries@.len(),
                forall|j: int| 0 <= j < i ==> (#[trigger] self@.entries[j]).key != key@,
            decreases self.entries@.len() - i,
        {
            assert(self@.entries[i as int] == self.entries@[i as int]@);
            if self.entries[i].key.same_key(key) {
                proof {
                    lemma_entry_pos(self@.entries, key@, i as int);
                }
                return Some(i);
            }
            i = i + 1;
        }
        None
    }

    fn find_pending(&self, key: &ServerAddr) -> (r: Option<usize>)
        requires
            unique_pending_keys(self@.pending),
        ensures
            match r {
                Some(i) => pending_pos(self@.pending, key@) == Some(i as int),
                None => pending_pos(self@.pending, key@) is None,
            },
    {
        let mut i: usize = 0;
        while i < self.pending.len()
            invariant
                unique_pending_keys(self@.pending),
                i <= self.pending@.len(),
                self@.pending.len() == self.pending@.len(),
                forall|j: int| 0 <= j < i ==> (#[trigger] self@.pending[j]).key != key@,
            decreases self.pending@.len() - i,
        {
            assert(self@.pending[i as int] == self.pending@[i as int]@);
            if self.pending[i].key.same_key(key) {
                proof {
                    lemma_pending_pos(self@.pending, key@, i as int);
                }
                return Some(i);
            }
            i = i + 1;
        }
        None
    }

    /// Looks `key` up at time `now` for a caller who will be answered on
    /// `waiter`. See [`begin_step`].
    pub fn begin(&mut self, key: &ServerAddr, now: u64, waiter: W) -> (r: Lookup)
        requires
            old(self).wf(),
        ensures
            final(self).wf(),
            (final(self)@, r@) == begin_step(old(self)@, key@, now, waiter),
    {
        proof {
            lemma_begin_keeps_inv(self@, key@, now, waiter);
        }
        let ghost v = self@;
        let found = self.find_entry(key);
        if let Some(i) = found {
            assert(self@.entries[i as int] == self.entries@[i as int]@);
            if entry_is_live(&self.entries[i], now, self.time_to_live, self.time_to_idle) {
                let mut e = self.entries.remove(i);
                e.last_accessed_at = now;
                let value = e.value.duplicate();
                self.entries.push(e);
                assert(self@.entries =~= begin_step(v, key@, now, waiter).0.entries);
                return Lookup::Hit(value);
            }
            self.entries.remove(i);
        }
        assert(self@.entries =~= begin_step(v, key@, now, waiter).0.entries);
        match self.find_pending(key) {
            Some(j) => {
                let mut p = self.pending.remove(j);
                p.waiters.push(waiter);
                self.pending.push(p);
                assert(self@.pending =~= begin_step(v, key@, now, waiter).0.pending);
                Lookup::Join
            },
            None => {
                let mut waiters = Vec::new();
                waiters.push(waiter);
                self.pending.push(Pending { key: key.duplicate(), waiters });
                assert(self@.pending =~= begin_step(v, key@, now, waiter).0.pending);
                Lookup::Drive
            },
        }
    }

    /// Ends the fetch for `key` at time `now` with its result, and returns
    /// the handles of everyone waiting for it. See [`complete_step`].
    pub fn complete(&mut self, key: &ServerAddr, result: &Result<ServerStatus, FetchError>, now: u64) -> (r: Vec<W>)
        requires
            old(self).wf(),
        ensures
            final(self).wf(),
            (final(self)@, r@) == complete_step(old(self)@, key@, success_view(*result), now),
    {
        proof {
            lemma_complete_keeps_inv(self@, key@, success_view(*result), now);
        }
        let ghost v = self@;
        let waiters = match self.find_pending(key) {
            Some(j) => {
                let p = self.pending.remove(j);
                assert(p@ == v.pending[j as int]);
                p.waiters
            },
            None => Vec::new(),
        };
        assert(self@.pending =~= complete_step(v, key@, success_view(*result), now).0.pending);
        if let Ok(s) = result {
            let ghost e = EntryView { key: key@, value: s@, created_at: now, last_accessed_at: now };
            if let Some(i) = self.find_entry(key) {
                self.entries.remove(i);
            }
            if self.capacity > 0 {
                if self.entries.len() >= self.capacity {
                    self.entries.remove(0);
                }
                self.entries.push(
                    CacheEntry {
                        key: key.duplicate(),
                        value: s.duplicate(),
                        created_at: now,
                        last_accessed_at: now,
                    },
                );
            }
            assert(self@.entries =~= install(v.entries, v.capacity, e));
        }
        waiters
    }

    /// The number of cached entries, live or not yet dropped.
    pub fn len(&self) -> (r: usize)
        ensures
            r == self@.entries.len(),
    {
        self.entries.len()
    }

    /// Whether an entry for `key` is stored, live or not yet dropped.
    pub fn contains(&self, key: &ServerAddr) -> (r: bool)
        requires
            self.wf(),
        ensures
            r == has_entry(self@.entries, key@),
    {
        self.find_entry(key).is_some()
    }

    /// Whether a fetch for `key` is in flight.
    pub fn in_flight(&self, key: &ServerAddr) -> (r: bool)
        requires
            self.wf(),
        ensures
            r == has_pending(self@.pending, key@),
    {
        self.find_pending(key).is_some()
    }
}

fn entry_is_live(e: &CacheEntry, now: u64, ttl: u64, tti: Option<u64>) -> (r: bool)
    ensures
        r == is_live(e@, now, ttl, tti),
{
    if now >= e.created_at && now - e.created_at >= ttl {
        return false;
    }
    match tti {
        Some(t) => !(now >= e.last_accessed_at && now - e.last_accessed_at >= t),
        None => true,
    }
}

/// Whether a live entry for `k` answers a lookup at `now`.
pub open spec fn answers<W>(v: CacheView<W>, k: KeyView, now: u64) -> bool {
    entry_pos(v.entries, k) is Some && is_live(
        v.entries[entry_pos(v.entries, k)->0],
        now,
        v.time_to_live,
        v.time_to_idle,
    )
}

/// Lookups of `k` made one after another, each at its time with its handle;
/// the state after them and each one's outcome.
pub open spec fn begin_all<W>(v: CacheView<W>, k: KeyView, calls: Seq<(u64, W)>) -> (
    CacheView<W>,
    Seq<LookupView>,
)
    decreases calls.len(),
{
    if calls.len() == 0 {
        (v, Seq::empty())
    } else {
        let before = begin_all(v, k, calls.drop_last());
        let after = begin_step(before.0, k, calls.last().0, calls.last().1);
        (after.0, before.1.push(after.1))
    }
}

proof fn lemma_pending_gone<W>(v: CacheView<W>, k: KeyView)
    requires
        v.inv(),
    ensures
        !has_pending(
            match pending_pos(v.pending, k) {
                Some(j) => v.pending.remove(j),
                None => v.pending,
            },
            k,
        ),
        forall|kk: KeyView|
            has_pending(
                match pending_pos(v.pending, k) {
                    Some(j) => v.pending.remove(j),
                    None => v.pending,
                },
                kk,
            ) ==> has_pending(v.pending, kk),
{
    match pending_pos(v.pending, k) {
        Some(j) => {
            lemma_remove_pending(v.pending, j);
            let r = v.pending.remove(j);
            assert forall|kk: KeyView| has_pending(r, kk) implies has_pending(v.pending, kk) by {
                let a = choose|a: int| 0 <= a < r.len() && (#[trigger] r[a]).key == kk;
                let b = if a < j { a } else { a + 1 };
                assert(v.pending[b].key == kk);
            }
        },
        None => {},
    }
}

proof fn lemma_begin_all<W>(v: CacheView<W>, k: KeyView, calls: Seq<(u64, W)>)
    requires
        v.inv(),
        calls.len() >= 1,
        !has_pending(v.pending, k),
        !answers(v, k, calls[0].0),
    ensures
        begin_all(v, k, calls).0.inv(),
        begin_all(v, k, calls).1.len() == calls.len(),
        begin_all(v, k, calls).1[0] == LookupView::Drive,
        forall|i: int| 1 <= i < calls.len() ==> begin_all(v, k, calls).1[i] == LookupView::Join,
        has_pending(begin_all(v, k, calls).0.pending, k),
        begin_all(v, k, calls).0.pending[pending_pos(
            begin_all(v, k, calls).0.pending,
            k,
        )->0].waiters == calls.map_values(|c: (u64, W)| c.1),
    decreases calls.len(),
{
    let ws = calls.map_values(|c: (u64, W)| c.1);
    if calls.len() == 1 {
        let before = begin_all(v, k, calls.drop_last());
        assert(calls.drop_last().len() == 0);
        assert(before.0 == v);
        lemma_begin_keeps_inv(v, k, calls[0].0, calls[0].1);
        let v1 = begin_step(v, k, calls[0].0, calls[0].1).0;
        assert(v1.pending[v.pending.len() as int].key == k);
        lemma_pending_pos(v1.pending, k, v.pending.len() as int);
        assert(ws =~= seq![calls[0].1]);
    } else {
        let prefix = calls.drop_last();
        assert(prefix[0] == calls[0]);
        lemma_begin_all(v, k, prefix);
        let before = begin_all(v, k, prefix);
        let vb = before.0;
        let last = calls.last();
        let j = pending_pos(vb.pending, k)->0;
        assert(!has_entry(vb.entries, k)) by {
            assert(!has_entry(vb.entries, vb.pending[j].key));
        }
        lemma_begin_keeps_inv(vb, k, last.0, last.1);
        let v1 = begin_step(vb, k, last.0, last.1).0;
        let n = vb.pending.len() - 1;
        assert(v1.pending[n].key == k);
        lemma_pending_pos(v1.pending, k, n);
        assert(prefix.map_values(|c: (u64, W)| c.1).push(last.1) =~= ws);
    }
}

/// Single flight: when no fetch for `k` is in flight and no live entry
/// answers, of any run of lookups of `k` made before the fetch ends the first
/// drives the fetch and every other one joins it; ending the fetch then hands
/// its one outcome to every caller of the run, in order.
pub proof fn lemma_single_flight<W>(
    v: CacheView<W>,
    k: KeyView,
    calls: Seq<(u64, W)>,
    result: Option<StatusView>,
    now: u64,
)
    requires
        v.inv(),
        calls.len() >= 1,
        !has_pending(v.pending, k),
        !answers(v, k, calls[0].0),
    ensures
        begin_all(v, k, calls).1[0] == LookupView::Drive,
        forall|i: int| 1 <= i < calls.len() ==> begin_all(v, k, calls).1[i] == LookupView::Join,
        complete_step(begin_all(v, k, calls).0, k, result, now).1 == calls.map_values(
            |c: (u64, W)| c.1,
        ),
{
    lemma_begin_all(v, k, calls);
}

/// A failed fetch stores nothing: the entries stay as they were, none is
/// there for `k`, and the next lookup of `k` drives a new fetch.
pub proof fn lemma_failure_not_cached<W>(v: CacheView<W>, k: KeyView, now: u64, later: u64, w: W)
    requires
        v.inv(),
        has_pending(v.pending, k),
    ensures
        complete_step(v, k, None, now).0.entries == v.entries,
        !has_entry(complete_step(v, k, None, now).0.entries, k),
        begin_step(complete_step(v, k, None, now).0, k, later, w).1 == LookupView::Drive,
{
    let j = choose|j: int| 0 <= j < v.pending.len() && (#[trigger] v.pending[j]).key == k;
    assert(!has_entry(v.entries, v.pending[j].key));
    lemma_pending_gone(v, k);
}

proof fn lemma_installed<W>(v: CacheView<W>, k: KeyView, s: StatusView, t: u64)
    requires
        v.inv(),
        v.capacity > 0,
    ensures
        entry_pos(complete_step(v, k, Some(s), t).0.entries, k) == Some(
            complete_step(v, k, Some(s), t).0.entries.len() - 1,
        ),
        complete_step(v, k, Some(s), t).0.entries.last() == (EntryView {
            key: k,
            value: s,
            created_at: t,
            last_accessed_at: t,
        }),
        !has_pending(complete_step(v, k, Some(s), t).0.pending, k),
        complete_step(v, k, Some(s), t).0.inv(),
{
    let e = EntryView { key: k, value: s, created_at: t, last_accessed_at: t };
    lemma_install(v.entries, v.capacity, e);
    lemma_complete_keeps_inv(v, k, Some(s), t);
    lemma_pending_gone(v, k);
    let es = install(v.entries, v.capacity, e);
    lemma_entry_pos(es, k, es.len() - 1);
}

/// A stored status answers every lookup of its key until its time to live
/// (and time to idle, where one is set) has run out.
pub proof fn lemma_served_before_expiry<W>(
    v: CacheView<W>,
    k: KeyView,
    s: StatusView,
    t: u64,
    later: u64,
    w: W,
)
    requires
        v.inv(),
        v.capacity > 0,
        t <= later,
        later - t < v.time_to_live,
        v.time_to_idle matches Some(tti) ==> later - t < tti,
    ensures
        begin_step(complete_step(v, k, Some(s), t).0, k, later, w).1 == LookupView::Hit(s),
{
    lemma_installed(v, k, s, t);
}

/// Once its time to live has passed, a stored status no longer answers: the
/// next lookup of its key drives a new fetch.
pub proof fn lemma_expires_after_ttl<W>(
    v: CacheView<W>,
    k: KeyView,
    s: StatusView,
    t: u64,
    later: u64,
    w: W,
)
    requires
        v.inv(),
        v.capacity > 0,
        t <= later,
        later - t >= v.time_to_live,
    ensures
        begin_step(complete_step(v, k, Some(s), t).0, k, later, w).1 == LookupView::Drive,
{
    lemma_installed(v, k, s, t);
}

/// At capacity, storing a status for a key that has no entry evicts the
/// least recently used entry and keeps the rest: the evicted key is then
/// absent, and its next lookup drives a new fetch.
pub proof fn lemma_evicts_least_recently_used<W>(
    v: CacheView<W>,
    k: KeyView,
    s: StatusView,
    t: u64,
    later: u64,
    w: W,
)
    requires
        v.inv(),
        v.capacity > 0,
        v.entries.len() == v.capacity,
        !has_entry(v.entries, k),
    ensures
        complete_step(v, k, Some(s), t).0.entries == v.entries.drop_first().push(
            EntryView { key: k, value: s, created_at: t, last_accessed_at: t },
        ),
        !has_entry(complete_step(v, k, Some(s), t).0.entries, v.entries[0].key),
        begin_step(complete_step(v, k, Some(s), t).0, v.entries[0].key, later, w).1
            == LookupView::Drive,
{
    let e = EntryView { key: k, value: s, created_at: t, last_accessed_at: t };
    let lru = v.entries[0].key;
    let v2 = complete_step(v, k, Some(s), t).0;
    lemma_remove_entry(v.entries, 0);
    assert(v.entries.drop_first() =~= v.entries.remove(0));
    assert(lru != k);
    lemma_push_entry(v.entries.remove(0), e);
    assert(has_entry(v.entries, lru)) by {
        assert(v.entries[0].key == lru);
    }
    lemma_pending_gone(v, k);
    assert(!has_pending(v2.pending, lru)) by {
        if has_pending(v2.pending, lru) {
            assert(has_pending(v.pending, lru));
            let j = choose|j: int| 0 <= j < v.pending.len() && (#[trigger] v.pending[j]).key == lru;
            assert(!has_entry(v.entries, v.pending[j].key));
        }
    }
}

} // verus!
