//! An in-memory model of the durable event store. Rows are keyed by the
//! canonical event identifier; storing an event whose key is already present
//! updates only the external reference, and only when the stored one is still
//! absent — every other column is immutable once a row exists, so repeated
//! ingestion never overwrites a value that was set earlier.

use vstd::prelude::*;
use crate::errors::DatabaseError;
use crate::event::clone_opt_string;
use crate::event::Event;
use crate::event::EventData;
use crate::order::sort_events_by_start;
use crate::order::sorted_by_start;
use crate::order::spec_sort_by_start;
use crate::order::views_of;
use crate::text::clean_str;
use crate::text::spec_clean;
use crate::time::is_retained;
use crate::time::spec_retained;

verus! {

/// The position of the row keyed by `uid`, searching from position `i`.
pub open spec fn find_uid_from(rows: Seq<Event>, uid: Seq<char>, i: int) -> Option<int>
    decreases rows.len() - i,
{
    if i < 0 || i >= rows.len() {
        None
    } else if rows[i]@.event_uid == uid {
        Some(i)
    } else {
        find_uid_from(rows, uid, i + 1)
    }
}

/// The single-event upsert: a new key appends a row; an existing key updates
/// only the external reference, and only when the stored one is absent.
pub open spec fn spec_upsert(rows: Seq<Event>, ev: Event) -> Seq<Event> {
    match find_uid_from(rows, ev@.event_uid, 0) {
        Option::None => rows.push(ev),
        Option::Some(i) => if rows[i].api_id is None {
            rows.update(i, Event { api_id: ev.api_id, ..rows[i] })
        } else {
            rows
        },
    }
}

/// The batch upsert: the single-event upsert applied left to right.
pub open spec fn spec_upsert_all(rows: Seq<Event>, evs: Seq<Event>) -> Seq<Event>
    decreases evs.len(),
{
    if evs.len() == 0 {
        rows
    } else {
        spec_upsert_all(spec_upsert(rows, evs[0]), evs.skip(1))
    }
}

/// A stored row as the read path returns it: the URL re-cleaned defensively.
pub open spec fn spec_resanitized(e: EventData) -> EventData {
    EventData {
        url: match e.url {
            Option::Some(u) => Option::Some(spec_clean(u)),
            Option::None => Option::None,
        },
        ..e
    }
}

/// What the read path sees of the stored rows at time `now`: the retained
/// rows, each re-sanitized, in storage order.
pub open spec fn spec_read_rows(rows: Seq<EventData>, now: int) -> Seq<EventData>
    decreases rows.len(),
{
    if rows.len() == 0 {
        Seq::empty()
    } else {
        let rest = spec_read_rows(rows.drop_last(), now);
        if spec_retained(rows.last().end, now) {
            rest.push(spec_resanitized(rows.last()))
        } else {
            rest
        }
    }
}

/// The retained rows of `rows` at time `now` whose start lies in
/// `[lo, hi]`, re-sanitized, in storage order.
pub open spec fn spec_read_rows_in_range(rows: Seq<EventData>, lo: int, hi: int, now: int) -> Seq<
    EventData,
>
    decreases rows.len(),
{
    if rows.len() == 0 {
        Seq::empty()
    } else {
        let rest = spec_read_rows_in_range(rows.drop_last(), lo, hi, now);
        let e = rows.last();
        if spec_retained(e.end, now) && lo <= e.start <= hi {
            rest.push(spec_resanitized(e))
        } else {
            rest
        }
    }
}

/// Number of retained rows at time `now`.
pub open spec fn spec_retained_count(rows: Seq<EventData>, now: int) -> int
    decreases rows.len(),
{
    if rows.len() == 0 {
        0int
    } else {
        spec_retained_count(rows.drop_last(), now) + if spec_retained(rows.last().end, now) {
            1int
        } else {
            0int
        }
    }
}

proof fn lemma_find_uid_none(rows: Seq<Event>, uid: Seq<char>, i: int)
    requires
        find_uid_from(rows, uid, i) is None,
        0 <= i,
    ensures
        forall|j: int| i <= j < rows.len() ==> #[trigger] rows[j]@.event_uid != uid,
    decreases rows.len() - i,
{
    if i < rows.len() {
        lemma_find_uid_none(rows, uid, i + 1);
    }
}

/// An in-memory event store: rows keyed uniquely by canonical identifier.
pub struct EventStore {
    events: Vec<Event>,
}

impl EventStore {
    /// The stored rows, in insertion order.
    pub closed spec fn rows(&self) -> Seq<Event> {
        self.events@
    }

    /// Well-formed: no two rows share an identifier.
    pub open spec fn wf(&self) -> bool {
        unique_uids(self.rows())
    }

    /// An empty store.
    pub fn new() -> (r: EventStore)
        ensures
            r.rows() =~= Seq::<Event>::empty(),
            r.wf(),
    {
        EventStore { events: Vec::new() }
    }

    /// Stores one event: inserts a row keyed by its identifier; on a key
    /// conflict, updates only the external reference, and only when the
    /// stored one is still absent. Never fails.
    pub fn save_event(&mut self, event: &Event) -> (r: Result<(), DatabaseError>)
        requires
            old(self).wf(),
        ensures
            final(self).wf(),
            final(self).rows() == spec_upsert(old(self).rows(), *event),
            r is Ok,
    {
        let ghost rows0 = self.rows();
        let ghost uid = event@.event_uid;
        let n = self.events.len();
        let mut i: usize = 0;
        while i < n
            invariant
                n == self.events@.len(),
                i <= n,
                self.events@ == rows0,
                rows0 == old(self).rows(),
                uid == event@.event_uid,
                unique_uids(rows0),
                find_uid_from(rows0, uid, 0) == find_uid_from(rows0, uid, i as int),
            decreases n - i,
        {
            let hit = self.events[i].event_uid == event.event_uid;
            proof {
                assert(hit == (rows0[i as int]@.event_uid == uid));
            }
            if hit {
                let row = self.events.remove(i);
                let updated = if row.api_id.is_none() {
                    Event { api_id: clone_opt_string(&event.api_id), ..row }
                } else {
                    row
                };
                self.events.insert(i, updated);
                proof {
                    assert(find_uid_from(rows0, uid, i as int) == Some(i as int));
                    assert(self.events@ =~= rows0.update(i as int, updated));
                    if rows0[i as int].api_id is None {
                        assert(updated == (Event { api_id: event.api_id, ..rows0[i as int] }));
                    } else {
                        assert(updated == rows0[i as int]);
                        assert(rows0.update(i as int, updated) =~= rows0);
                    }
                    assert forall|a: int, b: int| 0 <= a < b < self.rows().len() implies
                        self.rows()[a]@.event_uid != self.rows()[b]@.event_uid by {
                        assert(rows0[a]@.event_uid != rows0[b]@.event_uid);
                        assert(self.rows()[a]@.event_uid == rows0[a]@.event_uid);
                        assert(self.rows()[b]@.event_uid == rows0[b]@.event_uid);
                    }
                }
                return Ok(());
            }
            proof {
                assert(rows0[i as int]@.event_uid != uid);
                assert(find_uid_from(rows0, uid, i as int) == find_uid_from(
                    rows0,
                    uid,
                    i as int + 1,
                ));
            }
            i = i + 1;
        }
        proof {
            assert(find_uid_from(rows0, uid, n as int) is None);
            lemma_find_uid_none(rows0, uid, 0);
        }
        self.events.push(event.clone());
        proof {
            assert(self.events@ =~= rows0.push(*event));
            assert forall|a: int, b: int| 0 <= a < b < self.rows().len() implies
                self.rows()[a]@.event_uid != self.rows()[b]@.event_uid by {
                if b < rows0.len() {
                    assert(rows0[a]@.event_uid != rows0[b]@.event_uid);
                } else {
                    assert(self.rows()[b] == *event);
                    assert(rows0[a]@.event_uid != uid);
                }
            }
        }
        Ok(())
    }

    /// Stores a list of events, applying the single-event upsert to each in
    /// order, and reports how many were applied. In this store no single
    /// upsert can fail, so every event is applied.
    pub fn save_events(&mut self, events: &Vec<Event>) -> (r: usize)
        requires
            old(self).wf(),
        ensures
            final(self).wf(),
            final(self).rows() == spec_upsert_all(old(self).rows(), events@),
            r == events@.len(),
    {
        let ghost rows0 = self.rows();
        let n = events.len();
        let mut saved: usize = 0;
        let mut j: usize = 0;
        proof {
            assert(events@.skip(0) =~= events@);
        }
        while j < n
            invariant
                self.wf(),
                n == events@.len(),
                j <= n,
                saved == j,
                spec_upsert_all(rows0, events@) == spec_upsert_all(
                    self.rows(),
                    events@.skip(j as int),
                ),
            decreases n - j,
        {
            let ghost pre = self.rows();
            let res = self.save_event(&events[j]);
            proof {
                assert(events@.skip(j as int)[0] == events@[j as int]);
                assert(events@.skip(j as int).skip(1) =~= events@.skip(j as int + 1));
                assert(spec_upsert_all(pre, events@.skip(j as int)) == spec_upsert_all(
                    spec_upsert(pre, events@[j as int]),
                    events@.skip(j as int + 1),
                ));
            }
            match res {
                Ok(_) => {
                    saved = saved + 1;
                },
                Err(_) => (),
            }
            j = j + 1;
        }
        proof {
            assert(events@.skip(n as int) =~= Seq::<Event>::empty());
        }
        saved
    }

    /// Reads the currently retained rows, ordered ascending by start, with
    /// each URL re-sanitized defensively.
    pub fn get_all_events(&self, now: i64) -> (r: Vec<Event>)
        ensures
            views_of(r@) == spec_sort_by_start(spec_read_rows(views_of(self.rows()), now as int)),
            views_of(r@).to_multiset() == spec_read_rows(
                views_of(self.rows()),
                now as int,
            ).to_multiset(),
            sorted_by_start(views_of(r@)),
    {
        let n = self.events.len();
        let mut picked: Vec<Event> = Vec::new();
        let mut i: usize = 0;
        proof {
            assert(views_of(self.rows().take(0)) =~= Seq::<EventData>::empty());
            assert(views_of(picked@) =~= spec_read_rows(views_of(self.rows().take(0)), now as int));
        }
        while i < n
            invariant
                n == self.events@.len(),
                i <= n,
                views_of(picked@) == spec_read_rows(
                    views_of(self.rows().take(i as int)),
                    now as int,
                ),
            decreases n - i,
        {
            let ghost pre = picked@;
            let row = &self.events[i];
            if is_retained(row.end, now) {
                let cleaned_url = match &row.url {
                    Some(u) => Some(clean_str(u.as_str())),
                    None => None,
                };
                let out_row = Event { url: cleaned_url, ..row.clone() };
                proof {
                    assert(out_row@ == spec_resanitized(row@));
                }
                picked.push(out_row);
            }
            proof {
                let tv = views_of(self.rows().take(i as int + 1));
                assert(tv.drop_last() =~= views_of(self.rows().take(i as int)));
                assert(tv.last() == self.rows()[i as int]@);
                assert(views_of(picked@) =~= spec_read_rows(tv, now as int));
            }
            i = i + 1;
        }
        proof {
            assert(self.rows().take(n as int) =~= self.rows());
        }
        sort_events_by_start(picked)
    }

    /// Reads the retained rows whose start lies between `start` and `end`
    /// (inclusive), never reaching further back than the retention window,
    /// ordered ascending by start, URLs re-sanitized.
    pub fn get_events_in_range(&self, start: i64, end: i64, now: i64) -> (r: Vec<Event>)
        ensures
            views_of(r@) == spec_sort_by_start(
                spec_read_rows_in_range(
                    views_of(self.rows()),
                    if start as int > now - crate::time::RETENTION_WINDOW_SECS {
                        start as int
                    } else {
                        now - crate::time::RETENTION_WINDOW_SECS
                    },
                    end as int,
                    now as int,
                ),
            ),
            views_of(r@).to_multiset() == spec_read_rows_in_range(
                views_of(self.rows()),
                if start as int > now - crate::time::RETENTION_WINDOW_SECS {
                    start as int
                } else {
                    now - crate::time::RETENTION_WINDOW_SECS
                },
                end as int,
                now as int,
            ).to_multiset(),
            sorted_by_start(views_of(r@)),
    {
        let lo = match now.checked_sub(crate::time::RETENTION_WINDOW_SECS) {
            Some(cutoff) => if start > cutoff {
                start
            } else {
                cutoff
            },
            None => start,
        };
        let ghost lo_spec: int = if start as int > now as int
            - crate::time::RETENTION_WINDOW_SECS as int {
            start as int
        } else {
            now as int - crate::time::RETENTION_WINDOW_SECS as int
        };
        proof {
            assert(lo as int == lo_spec);
        }
        let n = self.events.len();
        let mut picked: Vec<Event> = Vec::new();
        let mut i: usize = 0;
        proof {
            assert(views_of(self.rows().take(0)) =~= Seq::<EventData>::empty());
            assert(views_of(picked@) =~= spec_read_rows_in_range(
                views_of(self.rows().take(0)),
                lo_spec,
                end as int,
                now as int,
            ));
        }
        while i < n
            invariant
                n == self.events@.len(),
                i <= n,
                lo as int == lo_spec,
                views_of(picked@) == spec_read_rows_in_range(
                    views_of(self.rows().take(i as int)),
                    lo_spec,
                    end as int,
                    now as int,
                ),
            decreases n - i,
        {
            let ghost pre = picked@;
            let row = &self.events[i];
            if is_retained(row.end, now) && row.start >= lo && row.start <= end {
                let cleaned_url = match &row.url {
                    Some(u) => Some(clean_str(u.as_str())),
                    None => None,
                };
                let out_row = Event { url: cleaned_url, ..row.clone() };
                proof {
                    assert(out_row@ == spec_resanitized(row@));
                }
                picked.push(out_row);
            }
            proof {
                let tv = views_of(self.rows().take(i as int + 1));
                assert(tv.drop_last() =~= views_of(self.rows().take(i as int)));
                assert(tv.last() == self.rows()[i as int]@);
                assert(views_of(picked@) =~= spec_read_rows_in_range(
                    tv,
                    lo_spec,
                    end as int,
                    now as int,
                ));
            }
            i = i + 1;
        }
        proof {
            assert(self.rows().take(n as int) =~= self.rows());
        }
        sort_events_by_start(picked)
    }

    /// Number of currently retained rows.
    pub fn get_event_count(&self, now: i64) -> (r: usize)
        ensures
            r as int == spec_retained_count(views_of(self.rows()), now as int),
    {
        let n = self.events.len();
        let mut count: usize = 0;
        let mut i: usize = 0;
        proof {
            assert(views_of(self.rows().take(0)) =~= Seq::<EventData>::empty());
        }
        while i < n
            invariant
                n == self.events@.len(),
                i <= n,
                count <= i,
                count as int == spec_retained_count(
                    views_of(self.rows().take(i as int)),
                    now as int,
                ),
            decreases n - i,
        {
            if is_retained(self.events[i].end, now) {
                count = count + 1;
            }
            proof {
                let tv = views_of(self.rows().take(i as int + 1));
                assert(tv.drop_last() =~= views_of(self.rows().take(i as int)));
                assert(tv.last() == self.rows()[i as int]@);
            }
            i = i + 1;
        }
        proof {
            assert(self.rows().take(n as int) =~= self.rows());
        }
        count
    }

    /// Removes every row, reporting how many were removed.
    pub fn clear_all_events(&mut self) -> (r: u64)
        requires
            old(self).rows().len() <= u64::MAX,
        ensures
            final(self).rows() =~= Seq::<Event>::empty(),
            final(self).wf(),
            r == old(self).rows().len(),
    {
        let n = self.events.len();
        self.events.clear();
        n as u64
    }
}

/// Storing an event whose key already carries an external reference never
/// clears or replaces that reference, and disturbs no other row: re-running
/// persistence cannot regress an enriched row.
pub proof fn lemma_upsert_preserves_api_id(rows: Seq<Event>, ev: Event, i: int)
    requires
        unique_uids(rows),
        0 <= i < rows.len(),
        rows[i]@.event_uid == ev@.event_uid,
        rows[i].api_id is Some,
    ensures
        spec_upsert(rows, ev) == rows,
        spec_upsert(rows, ev)[i].api_id == rows[i].api_id,
{
    lemma_find_uid_first(rows, ev@.event_uid, 0, i);
}

/// A store has absorbed an event when a row carries its key and nothing would
/// change by storing it again: the row's reference is set, or the event
/// brings none.
pub open spec fn absorbed(rows: Seq<Event>, ev: Event) -> bool {
    exists|i: int|
        0 <= i < rows.len() && #[trigger] rows[i]@.event_uid == ev@.event_uid && (rows[i].api_id
            is Some || ev.api_id is None)
}

/// Keys are pairwise distinct.
pub open spec fn unique_uids(rows: Seq<Event>) -> bool {
    forall|a: int, b: int|
        0 <= a < b < rows.len() ==> #[trigger] rows[a]@.event_uid != #[trigger] rows[b]@.event_uid
}

/// Storing an event absorbs it.
proof fn lemma_upsert_absorbs(rows: Seq<Event>, ev: Event)
    requires
        unique_uids(rows),
    ensures
        absorbed(spec_upsert(rows, ev), ev),
{
    let uid = ev@.event_uid;
    let r = spec_upsert(rows, ev);
    match find_uid_from(rows, uid, 0) {
        Option::None => {
            assert(r[rows.len() as int]@.event_uid == uid);
        },
        Option::Some(i) => {
            lemma_find_uid_some(rows, uid, 0);
            if rows[i].api_id is None {
                assert(r[i]@.event_uid == uid);
                assert(r[i].api_id == ev.api_id);
            } else {
                assert(r[i]@.event_uid == uid);
            }
        },
    }
}

proof fn lemma_find_uid_some(rows: Seq<Event>, uid: Seq<char>, j: int)
    requires
        0 <= j,
        find_uid_from(rows, uid, j) is Some,
    ensures
        j <= find_uid_from(rows, uid, j)->0 < rows.len(),
        rows[find_uid_from(rows, uid, j)->0]@.event_uid == uid,
    decreases rows.len() - j,
{
    if j < rows.len() && rows[j]@.event_uid != uid {
        lemma_find_uid_some(rows, uid, j + 1);
    }
}

/// Storing any event disturbs no absorption: a row's reference is never
/// cleared, so what was absorbed stays absorbed.
proof fn lemma_upsert_keeps_absorbed(rows: Seq<Event>, ev: Event, other: Event)
    requires
        unique_uids(rows),
        absorbed(rows, other),
    ensures
        absorbed(spec_upsert(rows, ev), other),
{
    let r = spec_upsert(rows, ev);
    let i = choose|i: int|
        0 <= i < rows.len() && #[trigger] rows[i]@.event_uid == other@.event_uid && (rows[i].api_id
            is Some || other.api_id is None);
    match find_uid_from(rows, ev@.event_uid, 0) {
        Option::None => {
            assert(r[i]@.event_uid == other@.event_uid);
            assert(r[i].api_id == rows[i].api_id);
        },
        Option::Some(k) => {
            lemma_find_uid_some(rows, ev@.event_uid, 0);
            if rows[k].api_id is None && k == i {
                assert(r[i]@.event_uid == other@.event_uid);
                assert(other.api_id is None);
            } else {
                assert(r[i]@.event_uid == other@.event_uid);
                assert(r[i].api_id == rows[i].api_id);
            }
        },
    }
}

/// Storing an absorbed event changes nothing.
proof fn lemma_upsert_absorbed_identity(rows: Seq<Event>, ev: Event)
    requires
        unique_uids(rows),
        absorbed(rows, ev),
    ensures
        spec_upsert(rows, ev) == rows,
{
    let uid = ev@.event_uid;
    let i = choose|i: int|
        0 <= i < rows.len() && #[trigger] rows[i]@.event_uid == uid && (rows[i].api_id is Some
            || ev.api_id is None);
    lemma_find_uid_first(rows, uid, 0, i);
    if rows[i].api_id is None {
        assert(ev.api_id is None);
        assert((Event { api_id: ev.api_id, ..rows[i] }) == rows[i]);
        assert(rows.update(i, rows[i]) =~= rows);
    }
}

/// The single-event upsert keeps keys unique.
proof fn lemma_upsert_keeps_unique(rows: Seq<Event>, ev: Event)
    requires
        unique_uids(rows),
    ensures
        unique_uids(spec_upsert(rows, ev)),
{
    let uid = ev@.event_uid;
    let r = spec_upsert(rows, ev);
    match find_uid_from(rows, uid, 0) {
        Option::None => {
            lemma_find_uid_none(rows, uid, 0);
            assert forall|a: int, b: int| 0 <= a < b < r.len() implies r[a]@.event_uid
                != r[b]@.event_uid by {
                if b < rows.len() {
                    assert(rows[a]@.event_uid != rows[b]@.event_uid);
                } else {
                    assert(r[b] == ev);
                    assert(rows[a]@.event_uid != uid);
                }
            }
        },
        Option::Some(i) => {
            lemma_find_uid_some(rows, uid, 0);
            assert forall|a: int, b: int| 0 <= a < b < r.len() implies r[a]@.event_uid
                != r[b]@.event_uid by {
                assert(r[a]@.event_uid == rows[a]@.event_uid);
                assert(r[b]@.event_uid == rows[b]@.event_uid);
            }
        },
    }
}

/// The batch upsert keeps keys unique.
proof fn lemma_upsert_all_keeps_unique(rows: Seq<Event>, evs: Seq<Event>)
    requires
        unique_uids(rows),
    ensures
        unique_uids(spec_upsert_all(rows, evs)),
    decreases evs.len(),
{
    if evs.len() > 0 {
        lemma_upsert_keeps_unique(rows, evs[0]);
        lemma_upsert_all_keeps_unique(spec_upsert(rows, evs[0]), evs.skip(1));
    }
}

/// The batch upsert disturbs no absorption.
proof fn lemma_upsert_all_keeps_absorbed(rows: Seq<Event>, evs: Seq<Event>, other: Event)
    requires
        unique_uids(rows),
        absorbed(rows, other),
    ensures
        absorbed(spec_upsert_all(rows, evs), other),
    decreases evs.len(),
{
    if evs.len() > 0 {
        lemma_upsert_keeps_absorbed(rows, evs[0], other);
        lemma_upsert_keeps_unique(rows, evs[0]);
        lemma_upsert_all_keeps_absorbed(spec_upsert(rows, evs[0]), evs.skip(1), other);
    }
}

/// After a batch is stored, every event of the batch is absorbed.
proof fn lemma_upsert_all_absorbs(rows: Seq<Event>, evs: Seq<Event>, k: int)
    requires
        unique_uids(rows),
        0 <= k < evs.len(),
    ensures
        absorbed(spec_upsert_all(rows, evs), evs[k]),
    decreases evs.len(),
{
    let next = spec_upsert(rows, evs[0]);
    lemma_upsert_keeps_unique(rows, evs[0]);
    if k == 0 {
        lemma_upsert_absorbs(rows, evs[0]);
        lemma_upsert_all_keeps_absorbed(next, evs.skip(1), evs[0]);
    } else {
        lemma_upsert_all_absorbs(next, evs.skip(1), k - 1);
        assert(evs.skip(1)[k - 1] == evs[k]);
    }
}

/// Ingestion is idempotent: storing the same batch a second time leaves the
/// store exactly as the first run left it.
pub proof fn lemma_upsert_all_idempotent(rows: Seq<Event>, evs: Seq<Event>)
    requires
        unique_uids(rows),
    ensures
        spec_upsert_all(spec_upsert_all(rows, evs), evs) == spec_upsert_all(rows, evs),
{
    let once = spec_upsert_all(rows, evs);
    lemma_upsert_all_keeps_unique(rows, evs);
    assert forall|k: int| 0 <= k < evs.len() implies absorbed(once, evs[k]) by {
        lemma_upsert_all_absorbs(rows, evs, k);
    }
    lemma_upsert_all_identity_when_absorbed(once, evs);
}

/// Storing a batch of absorbed events changes nothing.
proof fn lemma_upsert_all_identity_when_absorbed(rows: Seq<Event>, evs: Seq<Event>)
    requires
        unique_uids(rows),
        forall|k: int| 0 <= k < evs.len() ==> absorbed(rows, #[trigger] evs[k]),
    ensures
        spec_upsert_all(rows, evs) == rows,
    decreases evs.len(),
{
    if evs.len() > 0 {
        lemma_upsert_absorbed_identity(rows, evs[0]);
        assert(forall|k: int| 0 <= k < evs.skip(1).len() ==> absorbed(rows, #[trigger] evs.skip(1)[k]));
        lemma_upsert_all_identity_when_absorbed(rows, evs.skip(1));
    }
}

/// When row `i` carries the key and keys are unique, the search finds `i`.
proof fn lemma_find_uid_first(rows: Seq<Event>, uid: Seq<char>, j: int, i: int)
    requires
        forall|a: int, b: int|
            0 <= a < b < rows.len() ==> #[trigger] rows[a]@.event_uid != #[trigger] rows[b]@.event_uid,
        0 <= j <= i < rows.len(),
        rows[i]@.event_uid == uid,
    ensures
        find_uid_from(rows, uid, j) == Some(i),
    decreases rows.len() - j,
{
    if j < i {
        assert(rows[j]@.event_uid != rows[i]@.event_uid);
        lemma_find_uid_first(rows, uid, j + 1, i);
    }
}

} // verus!
