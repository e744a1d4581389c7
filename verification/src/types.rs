//! Shared types, the tracked hubs, and interval arithmetic.

use vstd::prelude::*;

verus! {

/// MISO real-time intervals are 5 minutes long.
pub const INTERVAL_SECONDS: i64 = 300;

/// The archive exports settled prices on an hourly grid.
pub const HISTORY_INTERVAL_SECONDS: i64 = 3600;

/// How much live 5-minute history is retained: 3 days.
pub const WINDOW_SECONDS: i64 = 259200;

/// The MISO trading hubs that are tracked: the `*.HUB` locations of the
/// DataBroker feed, and the set the settled archive is exported for.
pub open spec fn hub_names() -> Seq<Seq<char>> {
    seq![
        "ARKANSAS.HUB"@,
        "ILLINOIS.HUB"@,
        "INDIANA.HUB"@,
        "LOUISIANA.HUB"@,
        "MICHIGAN.HUB"@,
        "MINN.HUB"@,
        "MS.HUB"@,
        "TEXAS.HUB"@,
    ]
}

/// The tracked hub names, in display order.
pub fn hubs() -> (v: Vec<&'static str>)
    ensures
        v@.len() == hub_names().len(),
        forall|i: int| 0 <= i < v@.len() ==> #[trigger] v@[i]@ == hub_names()[i],
{
    vec![
        "ARKANSAS.HUB",
        "ILLINOIS.HUB",
        "INDIANA.HUB",
        "LOUISIANA.HUB",
        "MICHIGAN.HUB",
        "MINN.HUB",
        "MS.HUB",
        "TEXAS.HUB",
    ]
}

/// Whether `name` is one of the tracked hubs.
pub fn is_hub(name: &str) -> (b: bool)
    ensures
        b == hub_names().contains(name@),
{
    let key = String::from_str(name);
    let names = hubs();
    let mut i: usize = 0;
    while i < names.len()
        invariant
            i <= names@.len(),
            names@.len() == hub_names().len(),
            forall|k: int| 0 <= k < names@.len() ==> #[trigger] names@[k]@ == hub_names()[k],
            key@ == name@,
            forall|k: int| 0 <= k < i ==> hub_names()[k] != name@,
        decreases names@.len() - i,
    {
        let candidate = String::from_str(names[i]);
        if candidate == key {
            assert(hub_names()[i as int] == name@);
            return true;
        }
        i = i + 1;
    }
    assert(!hub_names().contains(name@)) by {
        if hub_names().contains(name@) {
            let k = choose|k: int| 0 <= k < hub_names().len() && hub_names()[k] == name@;
            assert(hub_names()[k] != name@);
        }
    }
    false
}

/// Start of the 5-minute interval holding `t` (Euclidean floor).
pub open spec fn floor_interval_spec(t: int) -> int {
    t - t % (INTERVAL_SECONDS as int)
}

/// Floor an epoch-seconds value to the start of its 5-minute interval.
pub fn floor_interval(epoch_secs: i64) -> (r: i64)
    requires
        floor_interval_spec(epoch_secs as int) >= i64::MIN,
    ensures
        r == floor_interval_spec(epoch_secs as int),
        (r as int) % (INTERVAL_SECONDS as int) == 0,
        r <= epoch_secs < r + INTERVAL_SECONDS,
{
    let m = epoch_secs % INTERVAL_SECONDS;
    let rem = if m < 0 { m + INTERVAL_SECONDS } else { m };
    epoch_secs - rem
}

/// Flooring an already floored instant changes nothing, and every instant of
/// an interval floors to the same boundary.
pub proof fn lemma_floor_interval_stable(t: int, u: int)
    requires
        floor_interval_spec(t) <= u < floor_interval_spec(t) + INTERVAL_SECONDS,
    ensures
        floor_interval_spec(u) == floor_interval_spec(t),
        floor_interval_spec(floor_interval_spec(t)) == floor_interval_spec(t),
{
    let b = floor_interval_spec(t);
    assert(b % 300 == 0) by {
        vstd::arithmetic::div_mod::lemma_fundamental_div_mod(t, 300);
        vstd::arithmetic::div_mod::lemma_mod_multiples_basic(t / 300, 300);
    }
    vstd::arithmetic::div_mod::lemma_fundamental_div_mod(u, 300);
    vstd::arithmetic::div_mod::lemma_fundamental_div_mod(b, 300);
    assert(u % 300 == u - b) by {
        vstd::arithmetic::div_mod::lemma_mod_add_multiples_vanish(u - b, 300);
        assert(b == 300 * (b / 300));
        vstd::arithmetic::div_mod::lemma_mod_multiples_vanish(b / 300, u - b, 300);
        vstd::arithmetic::div_mod::lemma_small_mod((u - b) as nat, 300);
    }
}

/// `j` is the first listing of `hub` among `prices`.
pub open spec fn first_listing<P>(prices: Seq<(String, P)>, hub: Seq<char>, j: int) -> bool {
    &&& 0 <= j < prices.len()
    &&& prices[j].0@ == hub
    &&& forall|k: int| 0 <= k < j ==> (#[trigger] prices[k]).0@ != hub
}

/// `p` is `s`'s timestamp with the price of `hub`'s first listing in `s`.
pub open spec fn listed_point<P>(s: Snapshot<P>, hub: Seq<char>, p: (i64, P)) -> bool {
    exists|j: int| first_listing(s.prices@, hub, j) && p == (s.ts, #[trigger] s.prices@[j].1)
}

/// A hub's series holds, for every snapshot that lists the hub, the
/// snapshot's timestamp with the price of the hub's first listing there; and
/// it holds nothing else.
pub proof fn lemma_series_exact<P>(snaps: Seq<Snapshot<P>>, hub: Seq<char>)
    ensures
        forall|i: int, j: int| 0 <= i < snaps.len() && first_listing(snaps[i].prices@, hub, j)
            ==> #[trigger] series_of(snaps, hub).contains((snaps[i].ts, snaps[i].prices@[j].1)),
        forall|p: (i64, P)| #[trigger] series_of(snaps, hub).contains(p) ==> exists|i: int|
            0 <= i < snaps.len() && #[trigger] listed_point(snaps[i], hub, p),
        series_of(snaps, hub).len() <= snaps.len(),
    decreases snaps.len(),
{
    if snaps.len() > 0 {
        let rest = snaps.drop_last();
        let last = snaps.last();
        lemma_series_exact(rest, hub);
        lemma_price_of_first(last.prices@, hub);
        let prev = series_of(rest, hub);
        let cur = series_of(snaps, hub);
        assert(cur == match series_point(last, hub) {
            Some(p) => prev + seq![p],
            None => prev,
        });
        assert forall|i: int, j: int| 0 <= i < snaps.len() && first_listing(snaps[i].prices@, hub, j)
            implies #[trigger] cur.contains((snaps[i].ts, snaps[i].prices@[j].1)) by {
            if i < rest.len() {
                assert(rest[i] == snaps[i]);
                assert(prev.contains((rest[i].ts, rest[i].prices@[j].1)));
                let w = choose|w: int| 0 <= w < prev.len() && prev[w] == (rest[i].ts, rest[i].prices@[j].1);
                assert(cur[w] == prev[w]);
            } else {
                assert(snaps[i] == last);
                let v = price_of(last.prices@, hub)->Some_0;
                assert(price_of(last.prices@, hub) is Some);
                let j2 = choose|j2: int| 0 <= j2 < last.prices@.len()
                    && (#[trigger] last.prices@[j2]).0@ == hub && v == last.prices@[j2].1
                    && forall|k: int| 0 <= k < j2 ==> (#[trigger] last.prices@[k]).0@ != hub;
                if j2 < j {
                    assert(last.prices@[j2].0@ != hub);
                } else if j < j2 {
                    assert(last.prices@[j].0@ != hub);
                }
                assert(cur[cur.len() - 1] == (last.ts, v));
            }
        }
        assert forall|p: (i64, P)| #[trigger] series_of(snaps, hub).contains(p) implies exists|i: int|
            0 <= i < snaps.len() && #[trigger] listed_point(snaps[i], hub, p) by {
            let m = choose|m: int| 0 <= m < cur.len() && cur[m] == p;
            if m < prev.len() {
                assert(cur[m] == prev[m]);
                assert(prev.contains(prev[m]));
                let i = choose|i: int| 0 <= i < rest.len() && #[trigger] listed_point(rest[i], hub, prev[m]);
                assert(rest[i] == snaps[i]);
                assert(listed_point(snaps[i], hub, cur[m]));
            } else {
                let v = price_of(last.prices@, hub)->Some_0;
                let j = choose|j: int| 0 <= j < last.prices@.len()
                    && (#[trigger] last.prices@[j]).0@ == hub && v == last.prices@[j].1
                    && forall|k: int| 0 <= k < j ==> (#[trigger] last.prices@[k]).0@ != hub;
                let i = snaps.len() - 1;
                assert(first_listing(snaps[i].prices@, hub, j));
                assert(cur[m] == (snaps[i].ts, snaps[i].prices@[j].1));
                assert(listed_point(snaps[i], hub, cur[m]));
            }
        }
    } else {
        assert(series_of(snaps, hub) =~= Seq::<(i64, P)>::empty());
    }
}

/// A hub's price is the one of its first listing: nothing is found only when
/// no listing names the hub, and otherwise the price found belongs to the
/// earliest listing that does.
pub proof fn lemma_price_of_first<P>(prices: Seq<(String, P)>, hub: Seq<char>)
    ensures
        price_of(prices, hub) is None <==> forall|i: int| 0 <= i < prices.len() ==> (#[trigger] prices[i]).0@ != hub,
        price_of(prices, hub) matches Some(v) ==> exists|j: int| 0 <= j < prices.len()
            && (#[trigger] prices[j]).0@ == hub && v == prices[j].1
            && forall|k: int| 0 <= k < j ==> (#[trigger] prices[k]).0@ != hub,
    decreases prices.len(),
{
    if prices.len() > 0 {
        let rest = prices.drop_first();
        lemma_price_of_first(rest, hub);
        if prices[0].0@ == hub {
            assert(prices[0].0@ == hub);
        } else {
            assert forall|i: int| 0 <= i < rest.len() implies rest[i] == prices[i + 1] by {}
            if price_of(rest, hub) is None {
                assert forall|i: int| 0 <= i < prices.len() implies (#[trigger] prices[i]).0@ != hub by {
                    if i > 0 {
                        assert(rest[i - 1] == prices[i]);
                    }
                }
            } else {
                let j = choose|j: int| 0 <= j < rest.len() && (#[trigger] rest[j]).0@ == hub
                    && price_of(rest, hub) == Some(rest[j].1)
                    && forall|k: int| 0 <= k < j ==> (#[trigger] rest[k]).0@ != hub;
                assert(prices[j + 1] == rest[j]);
                assert forall|k: int| 0 <= k < j + 1 implies (#[trigger] prices[k]).0@ != hub by {
                    if k > 0 {
                        assert(rest[k - 1] == prices[k]);
                    }
                }
                assert(prices[j + 1].0@ == hub);
                if forall|i: int| 0 <= i < prices.len() ==> (#[trigger] prices[i]).0@ != hub {
                    assert(prices[j + 1].0@ != hub);
                }
            }
        }
    }
}

/// One settled 5-minute interval: a timestamp plus the price at each hub
/// present in the feed. `ts` is the interval boundary, so it identifies the
/// interval: re-fetching the same interval yields the same `ts`.
#[derive(Clone, Debug)]
pub struct Snapshot<P> {
    pub ts: i64,
    /// (hub name, price) for every hub present in the feed.
    pub prices: Vec<(String, P)>,
}

/// The price listed first for `hub`, if any.
pub open spec fn price_of<P>(prices: Seq<(String, P)>, hub: Seq<char>) -> Option<P>
    decreases prices.len(),
{
    if prices.len() == 0 {
        None
    } else if prices[0].0@ == hub {
        Some(prices[0].1)
    } else {
        price_of(prices.drop_first(), hub)
    }
}

/// A snapshot's point on `hub`'s series, if it prices that hub.
pub open spec fn series_point<P>(s: Snapshot<P>, hub: Seq<char>) -> Option<(i64, P)> {
    match price_of(s.prices@, hub) {
        Some(v) => Some((s.ts, v)),
        None => None,
    }
}

/// One hub's series: the priced snapshots, in the order given.
pub open spec fn series_of<P>(snaps: Seq<Snapshot<P>>, hub: Seq<char>) -> Seq<(i64, P)> {
    snaps.filter_map(|s: Snapshot<P>| series_point(s, hub))
}

impl<P: Copy> Snapshot<P> {
    /// The price at `hub`, taken from its first entry.
    pub fn lmp(&self, hub: &str) -> (r: Option<P>)
        ensures
            r == price_of(self.prices@, hub@),
            r is None <==> forall|i: int| 0 <= i < self.prices@.len() ==> (#[trigger] self.prices@[i]).0@ != hub@,
            r matches Some(v) ==> exists|j: int| 0 <= j < self.prices@.len()
                && (#[trigger] self.prices@[j]).0@ == hub@ && v == self.prices@[j].1
                && forall|k: int| 0 <= k < j ==> (#[trigger] self.prices@[k]).0@ != hub@,
    {
        proof {
            lemma_price_of_first(self.prices@, hub@);
        }
        let key = String::from_str(hub);
        let mut i: usize = 0;
        assert(self.prices@.skip(0) =~= self.prices@);
        while i < self.prices.len()
            invariant
                i <= self.prices@.len(),
                key@ == hub@,
                price_of(self.prices@, hub@) == price_of(self.prices@.skip(i as int), hub@),
                price_of(self.prices@, hub@) is None <==> forall|j: int| 0 <= j < self.prices@.len()
                    ==> (#[trigger] self.prices@[j]).0@ != hub@,
                price_of(self.prices@, hub@) matches Some(v) ==> exists|j: int| 0 <= j < self.prices@.len()
                    && (#[trigger] self.prices@[j]).0@ == hub@ && v == self.prices@[j].1
                    && forall|k: int| 0 <= k < j ==> (#[trigger] self.prices@[k]).0@ != hub@,
            decreases self.prices@.len() - i,
        {
            if self.prices[i].0 == key {
                assert(self.prices@.skip(i as int)[0] == self.prices@[i as int]);
                return Some(self.prices[i].1);
            }
            assert(self.prices@.skip(i as int).drop_first() =~= self.prices@.skip(i + 1));
            i = i + 1;
        }
        None
    }
}

/// Extract one hub's series from a run of snapshots, keeping their order.
pub fn hub_series<P: Copy>(snaps: &[Snapshot<P>], hub: &str) -> (r: Vec<(i64, P)>)
    ensures
        r@ == series_of(snaps@, hub@),
        forall|i: int, j: int| 0 <= i < snaps@.len() && first_listing(snaps@[i].prices@, hub@, j)
            ==> #[trigger] r@.contains((snaps@[i].ts, snaps@[i].prices@[j].1)),
        forall|p: (i64, P)| #[trigger] r@.contains(p) ==> exists|i: int|
            0 <= i < snaps@.len() && #[trigger] listed_point(snaps@[i], hub@, p),
{
    let mut out: Vec<(i64, P)> = Vec::new();
    let mut i: usize = 0;
    while i < snaps.len()
        invariant
            i <= snaps@.len(),
            out@ == series_of(snaps@.take(i as int), hub@),
        decreases snaps@.len() - i,
    {
        let p = snaps[i].lmp(hub);
        assert(snaps@.take(i + 1).drop_last() =~= snaps@.take(i as int));
        match p {
            Some(v) => {
                out.push((snaps[i].ts, v));
            },
            None => {},
        }
        i = i + 1;
    }
    assert(snaps@.take(snaps@.len() as int) =~= snaps@);
    proof {
        lemma_series_exact(snaps@, hub@);
    }
    out
}

} // verus!
