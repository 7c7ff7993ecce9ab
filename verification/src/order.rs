//! Ordering of event lists. Events are ordered by start instant only; a
//! sorted copy of a list carries exactly the same events, counted with
//! multiplicity.

use vstd::prelude::*;
use crate::event::Event;
use crate::event::EventData;

verus! {

/// The denotations of a list of event records.
pub open spec fn views_of(rows: Seq<Event>) -> Seq<EventData> {
    rows.map_values(|e: Event| e@)
}

/// Ascending by start instant.
pub open spec fn sorted_by_start(rows: Seq<EventData>) -> bool {
    forall|i: int, j: int| 0 <= i < j < rows.len() ==> rows[i].start <= rows[j].start
}

/// `e` inserted after every element of `rows` whose start is no later: the
/// stable insertion step.
pub open spec fn spec_insert_by_start(rows: Seq<EventData>, e: EventData) -> Seq<EventData>
    decreases rows.len(),
{
    if rows.len() > 0 && rows.last().start > e.start {
        spec_insert_by_start(rows.drop_last(), e).push(rows.last())
    } else {
        rows.push(e)
    }
}

/// `rows` sorted ascending by start instant, stably: events with equal starts
/// keep their given order.
pub open spec fn spec_sort_by_start(rows: Seq<EventData>) -> Seq<EventData>
    decreases rows.len(),
{
    if rows.len() == 0 {
        Seq::empty()
    } else {
        spec_insert_by_start(spec_sort_by_start(rows.drop_last()), rows.last())
    }
}

/// On a sorted sequence, the stable insertion step places the new element at
/// the first position whose start is later.
proof fn lemma_insert_by_start_at(rows: Seq<EventData>, e: EventData, pos: int)
    requires
        sorted_by_start(rows),
        0 <= pos <= rows.len(),
        forall|i: int| 0 <= i < pos ==> rows[i].start <= e.start,
        pos < rows.len() ==> rows[pos].start > e.start,
    ensures
        spec_insert_by_start(rows, e) == rows.insert(pos, e),
    decreases rows.len(),
{
    if rows.len() > 0 && rows.last().start > e.start {
        assert(pos < rows.len());
        let head = rows.drop_last();
        assert(sorted_by_start(head));
        assert(forall|i: int| 0 <= i < pos ==> #[trigger] head[i].start == rows[i].start);
        lemma_insert_by_start_at(head, e, pos);
        assert(head.insert(pos, e).push(rows.last()) =~= rows.insert(pos, e));
    } else {
        if pos < rows.len() {
            assert(rows[pos].start <= rows.last().start);
            assert(false);
        }
        assert(rows.push(e) =~= rows.insert(rows.len() as int, e));
    }
}

/// Inserting an element anywhere in a sequence adds exactly that element to
/// its multiset.
proof fn lemma_insert_to_multiset(s: Seq<EventData>, i: int, x: EventData)
    requires
        0 <= i <= s.len(),
    ensures
        s.insert(i, x).to_multiset() =~= s.to_multiset().insert(x),
{
    broadcast use vstd::seq_lib::group_to_multiset_ensures;

    let t = s.insert(i, x);
    assert(t.remove(i) =~= s);
    assert(t[i] == x);
    assert(t.to_multiset().remove(x) =~= s.to_multiset());
    assert(t.contains(x));
    assert(t.to_multiset().count(x) > 0);
    assert forall|a: EventData| t.to_multiset().count(a) == s.to_multiset().insert(x).count(
        a,
    ) by {
        assert(s.to_multiset().count(a) == t.to_multiset().remove(x).count(a));
    }
}

/// Sorts a list of events ascending by start instant. The result holds
/// exactly the events of the input, with multiplicity.
pub fn sort_events_by_start(v: Vec<Event>) -> (r: Vec<Event>)
    ensures
        views_of(r@) == spec_sort_by_start(views_of(v@)),
        views_of(r@).to_multiset() == views_of(v@).to_multiset(),
        sorted_by_start(views_of(r@)),
{
    broadcast use vstd::seq_lib::group_to_multiset_ensures;

    let n = v.len();
    let mut out: Vec<Event> = Vec::new();
    let mut k: usize = 0;
    proof {
        assert(views_of(v@.take(0)) =~= Seq::<EventData>::empty());
        assert(views_of(out@) =~= Seq::<EventData>::empty());
        assert(views_of(out@).to_multiset() =~= views_of(v@.take(0)).to_multiset());
        assert(views_of(out@) =~= spec_sort_by_start(views_of(v@.take(0))));
    }
    while k < n
        invariant
            n == v@.len(),
            k <= n,
            views_of(out@) == spec_sort_by_start(views_of(v@.take(k as int))),
            views_of(out@).to_multiset() == views_of(v@.take(k as int)).to_multiset(),
            out@.len() == k,
            sorted_by_start(views_of(out@)),
        decreases n - k,
    {
        let e = v[k].clone();
        let mut pos: usize = 0;
        while pos < out.len() && out[pos].start <= e.start
            invariant
                pos <= out@.len(),
                e == v@[k as int],
                forall|i: int| 0 <= i < pos ==> views_of(out@)[i].start <= e@.start,
                sorted_by_start(views_of(out@)),
            decreases out@.len() - pos,
        {
            proof {
                assert(views_of(out@)[pos as int] == out@[pos as int]@);
            }
            pos = pos + 1;
        }
        proof {
            let ov = views_of(out@);
            if (pos as int) < ov.len() {
                assert(ov[pos as int] == out@[pos as int]@);
                assert(ov[pos as int].start > e@.start);
            }
        }
        let ghost before = out@;
        out.insert(pos, e);
        proof {
            let ov = views_of(before);
            let nv = views_of(out@);
            assert(out@ =~= before.insert(pos as int, e));
            assert(nv =~= ov.insert(pos as int, e@));
            lemma_insert_to_multiset(ov, pos as int, e@);
            lemma_insert_by_start_at(ov, e@, pos as int);
            assert(views_of(v@.take(k as int + 1)) =~= views_of(v@.take(k as int)).push(
                v@[k as int]@,
            ));
            assert(views_of(v@.take(k as int + 1)).drop_last() =~= views_of(v@.take(k as int)));
            assert(spec_sort_by_start(views_of(v@.take(k as int + 1))) == spec_insert_by_start(
                ov,
                e@,
            ));
            vstd::seq_lib::to_multiset_build::<EventData>(views_of(v@.take(k as int)), e@);
            assert(nv.to_multiset() =~= views_of(v@.take(k as int + 1)).to_multiset());
            assert forall|i: int, j: int| 0 <= i < j < nv.len() implies nv[i].start
                <= nv[j].start by {
                if j < pos {
                    assert(nv[i] == ov[i] && nv[j] == ov[j]);
                } else if i < pos && j == pos {
                    assert(nv[i] == ov[i] && nv[j] == e@);
                } else if i < pos && j > pos {
                    assert(nv[i] == ov[i] && nv[j] == ov[j - 1]);
                    if pos as int <= j - 1 {
                        assert(ov[pos as int].start > e@.start || pos as int == ov.len());
                    }
                    if j - 1 == pos {
                        assert(ov[j - 1].start > e@.start);
                        assert(nv[i].start <= e@.start);
                    }
                } else if i == pos {
                    assert(nv[i] == e@ && nv[j] == ov[j - 1]);
                    assert(ov[j - 1].start > e@.start || ov[pos as int].start > e@.start);
                    assert(ov[pos as int].start <= ov[j - 1].start);
                } else {
                    assert(nv[i] == ov[i - 1] && nv[j] == ov[j - 1]);
                }
            }
        }
        k = k + 1;
    }
    proof {
        assert(v@.take(n as int) =~= v@);
    }
    out
}

} // verus!
