//! The live window of 5-minute snapshots: merging a freshly fetched
//! snapshot, trimming to the retention window, and ordering stored ones.

use vstd::prelude::*;

use crate::types::{Snapshot, WINDOW_SECONDS, series_of};

verus! {

/// Timestamps never decrease along `s`.
pub open spec fn sorted_by_ts<P>(s: Seq<Snapshot<P>>) -> bool {
    forall|i: int, j: int| 0 <= i < j < s.len() ==> s[i].ts <= s[j].ts
}

/// Timestamps strictly increase along `s`: each interval appears once.
pub open spec fn strictly_sorted_by_ts<P>(s: Seq<Snapshot<P>>) -> bool {
    forall|i: int, j: int| 0 <= i < j < s.len() ==> s[i].ts < s[j].ts
}

/// Oldest timestamp kept at wall-clock time `now`.
pub open spec fn cutoff_at(now: int) -> int {
    now - WINDOW_SECONDS
}

/// Snapshots not older than `cutoff`.
pub open spec fn not_older<P>(cutoff: int) -> spec_fn(Snapshot<P>) -> bool {
    |x: Snapshot<P>| x.ts >= cutoff
}

/// Snapshots of `s` inside the window that starts at `cutoff`, in order.
pub open spec fn in_window<P>(s: Seq<Snapshot<P>>, cutoff: int) -> Seq<Snapshot<P>> {
    s.filter(not_older(cutoff))
}

/// Snapshots of interval `t`.
pub open spec fn at_ts<P>(t: int) -> spec_fn(Snapshot<P>) -> bool {
    |x: Snapshot<P>| x.ts == t
}

/// `r` holds the snapshots of `s` ordered by timestamp, those of one interval
/// in the order `s` gave them.
pub open spec fn stable_sorted_of<P>(r: Seq<Snapshot<P>>, s: Seq<Snapshot<P>>) -> bool {
    &&& sorted_by_ts(r)
    &&& forall|t: int| #[trigger] r.filter(at_ts(t)) == s.filter(at_ts(t))
}

/// Kept snapshots of an interval earlier than `ts`.
pub open spec fn kept_before<P>(ts: int, cutoff: int) -> spec_fn(Snapshot<P>) -> bool {
    |x: Snapshot<P>| x.ts < ts && x.ts >= cutoff
}

/// Kept snapshots of an interval later than `ts`.
pub open spec fn kept_after<P>(ts: int, cutoff: int) -> spec_fn(Snapshot<P>) -> bool {
    |x: Snapshot<P>| x.ts > ts && x.ts >= cutoff
}

/// `s` with `snap` put in its timestamp's place (any snapshot of the same
/// interval dropped for it), trimmed to the window that starts at `cutoff`.
pub open spec fn merged<P>(s: Seq<Snapshot<P>>, snap: Snapshot<P>, cutoff: int) -> Seq<Snapshot<P>> {
    s.filter(kept_before(snap.ts as int, cutoff))
        + (if snap.ts >= cutoff { seq![snap] } else { Seq::empty() })
        + s.filter(kept_after(snap.ts as int, cutoff))
}

/// Oldest timestamp the live window keeps at `now`.
pub fn window_cutoff(now: i64) -> (r: i64)
    requires
        cutoff_at(now as int) >= i64::MIN,
    ensures
        r == cutoff_at(now as int),
{
    now - WINDOW_SECONDS
}

/// Insert a snapshot in timestamp order into a list holding one snapshot per
/// interval, overwriting the snapshot of the same interval, then drop
/// everything older than the retention window at `now`.
pub fn merge<P>(list: &mut Vec<Snapshot<P>>, snap: Snapshot<P>, now: i64)
    requires
        cutoff_at(now as int) >= i64::MIN,
        strictly_sorted_by_ts(old(list)@),
    ensures
        final(list)@ == merged(old(list)@, snap, cutoff_at(now as int)),
        strictly_sorted_by_ts(final(list)@),
{
    proof {
        lemma_merge_keeps_order(old(list)@, snap, cutoff_at(now as int));
    }
    broadcast use vstd::seq_lib::group_seq_properties;
    let cutoff = window_cutoff(now);
    let ts = snap.ts;
    let ghost s = old(list)@;
    let mut items: Vec<Snapshot<P>> = Vec::new();
    std::mem::swap(&mut items, list);
    let mut before: Vec<Snapshot<P>> = Vec::new();
    let mut after: Vec<Snapshot<P>> = Vec::new();
    for x in it: items.into_iter()
        invariant
            it.seq() == s,
            before@ == s.take(it.index() as int).filter(kept_before(ts as int, cutoff as int)),
            after@ == s.take(it.index() as int).filter(kept_after(ts as int, cutoff as int)),
    {
        proof {
            assert(x == s[it.index() as int]);
            assert(s.take(it.index() + 1) =~= s.take(it.index() as int).push(x));
            s.take(it.index() as int).lemma_filter_push(x, kept_before(ts as int, cutoff as int));
            s.take(it.index() as int).lemma_filter_push(x, kept_after(ts as int, cutoff as int));
        }
        if x.ts < ts && x.ts >= cutoff {
            before.push(x);
        } else if x.ts > ts && x.ts >= cutoff {
            after.push(x);
        }
    }
    proof {
        assert(s.take(s.len() as int) =~= s);
    }
    if ts >= cutoff {
        before.push(snap);
    }
    before.append(&mut after);
    *list = before;
}

/// Whether timestamps strictly increase along `list`.
pub fn is_strictly_sorted<P>(list: &Vec<Snapshot<P>>) -> (b: bool)
    ensures
        b == strictly_sorted_by_ts(list@),
{
    let mut i: usize = 1;
    while i < list.len()
        invariant
            1 <= i,
            i <= list@.len() || list@.len() == 0,
            forall|a: int, b: int| 0 <= a < b < i && b < list@.len() ==> list@[a].ts < list@[b].ts,
        decreases list@.len() - i,
    {
        if list[i - 1].ts >= list[i].ts {
            return false;
        }
        proof {
            assert forall|a: int, b: int| 0 <= a < b < i + 1 && b < list@.len()
                implies list@[a].ts < list@[b].ts by {
                if b == i && a < i - 1 {
                    assert(list@[a].ts < list@[i - 1].ts);
                }
            }
        }
        i = i + 1;
    }
    true
}

/// Keep the snapshots inside the retention window at `now`, in order.
pub fn retain_window<P>(list: Vec<Snapshot<P>>, now: i64) -> (r: Vec<Snapshot<P>>)
    requires
        cutoff_at(now as int) >= i64::MIN,
    ensures
        r@ == in_window(list@, cutoff_at(now as int)),
{
    let cutoff = window_cutoff(now);
    let ghost s = list@;
    let mut out: Vec<Snapshot<P>> = Vec::new();
    for x in it: list.into_iter()
        invariant
            it.seq() == s,
            out@ == s.take(it.index() as int).filter(not_older(cutoff as int)),
    {
        proof {
            assert(x == s[it.index() as int]);
            assert(s.take(it.index() + 1) =~= s.take(it.index() as int).push(x));
            s.take(it.index() as int).lemma_filter_push(x, not_older(cutoff as int));
        }
        if x.ts >= cutoff {
            out.push(x);
        }
    }
    proof {
        assert(s.take(s.len() as int) =~= s);
    }
    out
}

/// Order snapshots by timestamp, keeping the given order among snapshots of
/// the same interval (a stable sort).
pub fn sort_by_ts<P>(list: Vec<Snapshot<P>>) -> (r: Vec<Snapshot<P>>)
    ensures
        stable_sorted_of(r@, list@),
{
    broadcast use vstd::seq_lib::group_seq_properties;
    let ghost s = list@;
    let mut out: Vec<Snapshot<P>> = Vec::new();
    for x in it: list.into_iter()
        invariant
            it.seq() == s,
            sorted_by_ts(out@),
            forall|t: int| #[trigger] out@.filter(at_ts(t)) == s.take(it.index() as int).filter(at_ts(t)),
    {
        let ghost k = it.index() as int;
        proof {
            assert(x == s[k]);
            assert(s.take(k + 1) =~= s.take(k).push(x));
        }
        let mut pos: usize = 0;
        while pos < out.len() && out[pos].ts <= x.ts
            invariant
                pos <= out@.len(),
                forall|j: int| 0 <= j < pos ==> out@[j].ts <= x.ts,
            decreases out@.len() - pos,
        {
            pos = pos + 1;
        }
        let ghost prev = out@;
        proof {
            assert forall|j: int| pos <= j < prev.len() implies prev[j].ts > x.ts by {
                assert(prev[pos as int].ts > x.ts);
            }
        }
        out.insert(pos, x);
        proof {
            assert(out@ =~= prev.take(pos as int) + seq![x] + prev.skip(pos as int));
            assert(prev =~= prev.take(pos as int) + prev.skip(pos as int));
            assert forall|t: int| #[trigger] out@.filter(at_ts(t)) == s.take(k + 1).filter(at_ts(t)) by {
                s.take(k).lemma_filter_push(x, at_ts(t));
                let a = prev.take(pos as int);
                let b = prev.skip(pos as int);
                assert(prev.filter(at_ts(t)) == s.take(k).filter(at_ts(t)));
                Seq::filter_distributes_over_add(a, b, at_ts(t));
                Seq::filter_distributes_over_add(a + seq![x], b, at_ts(t));
                Seq::filter_distributes_over_add(a, seq![x], at_ts(t));
                if t == x.ts {
                    let tail = prev.skip(pos as int);
                    assert(tail.all(|y: Snapshot<P>| !at_ts(t)(y)));
                    tail.lemma_all_neg_filter_empty(at_ts(t));
                    assert(tail.filter(at_ts(t)) =~= Seq::<Snapshot<P>>::empty());
                    reveal_with_fuel(Seq::filter, 2);
                    assert(seq![x].filter(at_ts(t)) =~= seq![x]);
                    assert(out@.filter(at_ts(t)) =~= a.filter(at_ts(t)) + seq![x]);
                    assert(prev.filter(at_ts(t)) =~= a.filter(at_ts(t)));
                } else {
                    reveal_with_fuel(Seq::filter, 2);
                    assert(seq![x].filter(at_ts(t)) =~= Seq::<Snapshot<P>>::empty());
                    assert(out@.filter(at_ts(t)) =~= a.filter(at_ts(t)) + b.filter(at_ts(t)));
                }
            }
        }
    }
    proof {
        assert(s.take(s.len() as int) =~= s);
    }
    out
}

/// Trimming to the window keeps the order and leaves only snapshots whose
/// timestamp is at or after the window start.
pub proof fn lemma_window_trim<P>(s: Seq<Snapshot<P>>, cutoff: int)
    ensures
        sorted_by_ts(s) ==> sorted_by_ts(in_window(s, cutoff)),
        strictly_sorted_by_ts(s) ==> strictly_sorted_by_ts(in_window(s, cutoff)),
        forall|i: int| 0 <= i < in_window(s, cutoff).len()
            ==> #[trigger] in_window(s, cutoff)[i].ts >= cutoff,
        forall|i: int| 0 <= i < s.len() && s[i].ts >= cutoff
            ==> #[trigger] in_window(s, cutoff).contains(s[i]),
{
    broadcast use vstd::seq_lib::group_seq_properties;
    if sorted_by_ts(s) {
        lemma_filter_keeps_order(s, not_older(cutoff));
    }
    if strictly_sorted_by_ts(s) {
        lemma_filter_keeps_strict_order(s, not_older(cutoff));
    }
    assert forall|i: int| 0 <= i < in_window(s, cutoff).len()
        implies #[trigger] in_window(s, cutoff)[i].ts >= cutoff by {
        lemma_filter_members(s, not_older(cutoff), i);
    }
    assert forall|i: int| 0 <= i < s.len() && s[i].ts >= cutoff
        implies #[trigger] in_window(s, cutoff).contains(s[i]) by {
        s.lemma_filter_contains(not_older(cutoff), i);
    }
}

/// Every point of a hub's series carries the timestamp of one of the
/// snapshots it was taken from.
proof fn lemma_series_from_snapshots<P>(snaps: Seq<Snapshot<P>>, hub: Seq<char>)
    ensures
        forall|i: int| 0 <= i < series_of(snaps, hub).len() ==>
            exists|j: int| 0 <= j < snaps.len() && (#[trigger] series_of(snaps, hub)[i]).0 == snaps[j].ts,
    decreases snaps.len(),
{
    if snaps.len() > 0 {
        let rest = snaps.drop_last();
        lemma_series_from_snapshots(rest, hub);
        assert forall|i: int| 0 <= i < series_of(snaps, hub).len() implies
            exists|j: int| 0 <= j < snaps.len() && (#[trigger] series_of(snaps, hub)[i]).0 == snaps[j].ts by {
            if i < series_of(rest, hub).len() {
                let j = choose|j: int| 0 <= j < rest.len() && series_of(rest, hub)[i].0 == rest[j].ts;
                assert(snaps[j] == rest[j]);
            } else {
                assert(snaps.len() - 1 < snaps.len());
            }
        }
    }
}

/// A hub's series taken from a strictly ordered run of snapshots is
/// strictly ascending by timestamp.
pub proof fn lemma_series_ascending<P>(snaps: Seq<Snapshot<P>>, hub: Seq<char>)
    requires
        strictly_sorted_by_ts(snaps),
    ensures
        forall|i: int, j: int| 0 <= i < j < series_of(snaps, hub).len()
            ==> series_of(snaps, hub)[i].0 < series_of(snaps, hub)[j].0,
    decreases snaps.len(),
{
    if snaps.len() > 0 {
        let rest = snaps.drop_last();
        lemma_series_ascending(rest, hub);
        lemma_series_from_snapshots(rest, hub);
        let r = series_of(rest, hub);
        assert forall|i: int| 0 <= i < r.len() implies (#[trigger] r[i]).0 < snaps.last().ts by {
            let j = choose|j: int| 0 <= j < rest.len() && r[i].0 == rest[j].ts;
            assert(snaps[j] == rest[j]);
        }
    }
}

/// A filter keeps a sequence whose elements all pass.
proof fn lemma_filter_keeps_all<A>(s: Seq<A>, p: spec_fn(A) -> bool)
    requires
        forall|i: int| 0 <= i < s.len() ==> p(#[trigger] s[i]),
    ensures
        s.filter(p) == s,
    decreases s.len(),
{
    reveal(Seq::filter);
    if s.len() > 0 {
        lemma_filter_keeps_all(s.drop_last(), p);
        assert(s.drop_last().push(s.last()) =~= s);
    }
}

/// A filter empties a sequence whose elements all fail.
proof fn lemma_filter_drops_all<A>(s: Seq<A>, p: spec_fn(A) -> bool)
    requires
        forall|i: int| 0 <= i < s.len() ==> !p(#[trigger] s[i]),
    ensures
        s.filter(p) == Seq::<A>::empty(),
    decreases s.len(),
{
    reveal(Seq::filter);
    if s.len() > 0 {
        lemma_filter_drops_all(s.drop_last(), p);
    }
    assert(s.filter(p) =~= Seq::<A>::empty());
}

/// Every element of a filtered sequence passes the filter and comes from the
/// original.
proof fn lemma_filter_members<A>(s: Seq<A>, p: spec_fn(A) -> bool, i: int)
    requires
        0 <= i < s.filter(p).len(),
    ensures
        p(s.filter(p)[i]),
        s.contains(s.filter(p)[i]),
{
    broadcast use vstd::seq_lib::group_seq_properties;
    s.lemma_filter_pred(p, i);
    assert(s.filter(p).contains(s.filter(p)[i]));
    s.lemma_filter_contains_rev(p, s.filter(p)[i]);
}

/// Filtering keeps a sequence strictly ordered by timestamp.
proof fn lemma_filter_keeps_strict_order<P>(s: Seq<Snapshot<P>>, p: spec_fn(Snapshot<P>) -> bool)
    requires
        strictly_sorted_by_ts(s),
    ensures
        strictly_sorted_by_ts(s.filter(p)),
    decreases s.len(),
{
    reveal(Seq::filter);
    if s.len() > 0 {
        let rest = s.drop_last();
        lemma_filter_keeps_strict_order(rest, p);
        if p(s.last()) {
            let f = rest.filter(p);
            assert forall|i: int| 0 <= i < f.len() implies #[trigger] f[i].ts < s.last().ts by {
                lemma_filter_members(rest, p, i);
                let j = choose|j: int| 0 <= j < rest.len() && rest[j] == f[i];
                assert(s[j] == rest[j]);
            }
        }
    }
}

/// Filtering keeps a sequence ordered by timestamp.
proof fn lemma_filter_keeps_order<P>(s: Seq<Snapshot<P>>, p: spec_fn(Snapshot<P>) -> bool)
    requires
        sorted_by_ts(s),
    ensures
        sorted_by_ts(s.filter(p)),
    decreases s.len(),
{
    reveal(Seq::filter);
    if s.len() > 0 {
        let rest = s.drop_last();
        lemma_filter_keeps_order(rest, p);
        if p(s.last()) {
            let f = rest.filter(p);
            assert forall|i: int| 0 <= i < f.len() implies #[trigger] f[i].ts <= s.last().ts by {
                lemma_filter_members(rest, p, i);
                let j = choose|j: int| 0 <= j < rest.len() && rest[j] == f[i];
                assert(s[j] == rest[j]);
            }
        }
    }
}

/// Merging keeps the live list ordered: strictly (one snapshot per interval)
/// when it was strictly ordered, and non-strictly when it was ordered.
pub proof fn lemma_merge_keeps_order<P>(s: Seq<Snapshot<P>>, snap: Snapshot<P>, cutoff: int)
    ensures
        strictly_sorted_by_ts(s) ==> strictly_sorted_by_ts(merged(s, snap, cutoff)),
        sorted_by_ts(s) ==> sorted_by_ts(merged(s, snap, cutoff)),
{
    let a = s.filter(kept_before(snap.ts as int, cutoff));
    let b = s.filter(kept_after(snap.ts as int, cutoff));
    let m: Seq<Snapshot<P>> = if snap.ts >= cutoff { seq![snap] } else { Seq::empty() };
    let r = merged(s, snap, cutoff);
    assert(r == a + m + b);
    assert forall|i: int| 0 <= i < a.len() implies #[trigger] a[i].ts < snap.ts by {
        lemma_filter_members(s, kept_before(snap.ts as int, cutoff), i);
    }
    assert forall|i: int| 0 <= i < b.len() implies #[trigger] b[i].ts > snap.ts by {
        lemma_filter_members(s, kept_after(snap.ts as int, cutoff), i);
    }
    if strictly_sorted_by_ts(s) {
        lemma_filter_keeps_strict_order(s, kept_before(snap.ts as int, cutoff));
        lemma_filter_keeps_strict_order(s, kept_after(snap.ts as int, cutoff));
        assert forall|i: int, j: int| 0 <= i < j < r.len() implies r[i].ts < r[j].ts by {
            if j < a.len() {
            } else if i >= a.len() + m.len() {
                assert(r[i] == b[i - a.len() - m.len()]);
                assert(r[j] == b[j - a.len() - m.len()]);
            } else if i < a.len() {
                assert(r[i] == a[i]);
                if j >= a.len() + m.len() {
                    assert(r[j] == b[j - a.len() - m.len()]);
                }
            } else {
                assert(r[j] == b[j - a.len() - m.len()]);
            }
        }
    }
    if sorted_by_ts(s) {
        lemma_filter_keeps_order(s, kept_before(snap.ts as int, cutoff));
        lemma_filter_keeps_order(s, kept_after(snap.ts as int, cutoff));
        assert forall|i: int, j: int| 0 <= i < j < r.len() implies r[i].ts <= r[j].ts by {
            if j < a.len() {
            } else if i >= a.len() + m.len() {
                assert(r[i] == b[i - a.len() - m.len()]);
                assert(r[j] == b[j - a.len() - m.len()]);
            } else if i < a.len() {
                assert(r[i] == a[i]);
                if j >= a.len() + m.len() {
                    assert(r[j] == b[j - a.len() - m.len()]);
                }
            } else {
                assert(r[j] == b[j - a.len() - m.len()]);
            }
        }
    }
}

/// After a merge, the live list holds exactly one snapshot of the merged
/// interval, the new one, when that interval is inside the window, and none
/// otherwise; and nothing older than the window start survives.
pub proof fn lemma_merge_holds_newest<P>(s: Seq<Snapshot<P>>, snap: Snapshot<P>, cutoff: int)
    ensures
        merged(s, snap, cutoff).filter(at_ts(snap.ts as int))
            == (if snap.ts >= cutoff { seq![snap] } else { Seq::<Snapshot<P>>::empty() }),
        forall|i: int| 0 <= i < merged(s, snap, cutoff).len()
            ==> #[trigger] merged(s, snap, cutoff)[i].ts >= cutoff,
{
    broadcast use vstd::seq_lib::group_seq_properties;
    let t = snap.ts as int;
    let a = s.filter(kept_before(t, cutoff));
    let b = s.filter(kept_after(t, cutoff));
    let m: Seq<Snapshot<P>> = if snap.ts >= cutoff { seq![snap] } else { Seq::empty() };
    let r = merged(s, snap, cutoff);
    assert(r == a + m + b);
    assert forall|i: int| 0 <= i < a.len() implies #[trigger] a[i].ts < t && a[i].ts >= cutoff by {
        lemma_filter_members(s, kept_before(t, cutoff), i);
    }
    assert forall|i: int| 0 <= i < b.len() implies #[trigger] b[i].ts > t && b[i].ts >= cutoff by {
        lemma_filter_members(s, kept_after(t, cutoff), i);
    }
    lemma_filter_drops_all(a, at_ts(t));
    lemma_filter_drops_all(b, at_ts(t));
    lemma_filter_keeps_all(m, at_ts(t));
    Seq::filter_distributes_over_add(a + m, b, at_ts(t));
    Seq::filter_distributes_over_add(a, m, at_ts(t));
    assert(r.filter(at_ts(t)) =~= m);
    assert forall|i: int| 0 <= i < r.len() implies #[trigger] r[i].ts >= cutoff by {
        if i < a.len() {
            assert(r[i] == a[i]);
        } else if i < a.len() + m.len() {
        } else {
            assert(r[i] == b[i - a.len() - m.len()]);
        }
    }
}

/// Re-fetching an interval overwrites it in place: merging a second snapshot
/// of the same interval gives what merging only the second would have.
/// In particular merging the same snapshot twice changes nothing more.
pub proof fn lemma_merge_overwrites<P>(
    s: Seq<Snapshot<P>>,
    first: Snapshot<P>,
    second: Snapshot<P>,
    cutoff: int,
)
    requires
        first.ts == second.ts,
    ensures
        merged(merged(s, first, cutoff), second, cutoff) == merged(s, second, cutoff),
{
    broadcast use vstd::seq_lib::group_seq_properties;
    let t = first.ts as int;
    let before = kept_before::<P>(t, cutoff);
    let after = kept_after::<P>(t, cutoff);
    let a = s.filter(before);
    let b = s.filter(after);
    let m: Seq<Snapshot<P>> = if first.ts >= cutoff { seq![first] } else { Seq::empty() };
    let r = merged(s, first, cutoff);
    assert(r == a + m + b);
    assert forall|i: int| 0 <= i < a.len() implies #[trigger] before(a[i]) && !after(a[i]) by {
        lemma_filter_members(s, before, i);
    }
    assert forall|i: int| 0 <= i < b.len() implies #[trigger] after(b[i]) && !before(b[i]) by {
        lemma_filter_members(s, after, i);
    }
    lemma_filter_keeps_all(a, before);
    lemma_filter_drops_all(a, after);
    lemma_filter_keeps_all(b, after);
    lemma_filter_drops_all(b, before);
    lemma_filter_drops_all(m, before);
    lemma_filter_drops_all(m, after);
    Seq::filter_distributes_over_add(a + m, b, before);
    Seq::filter_distributes_over_add(a, m, before);
    Seq::filter_distributes_over_add(a + m, b, after);
    Seq::filter_distributes_over_add(a, m, after);
    assert(r.filter(before) =~= a);
    assert(r.filter(after) =~= b);
}

} // verus!
