//! Reducing the live DataBroker snapshot (parallel arrays of locations and
//! prices for every node) to a snapshot of the tracked hubs.

use vstd::prelude::*;

use crate::types::{Snapshot, hub_names, is_hub, floor_interval, floor_interval_spec};

verus! {

/// Why a DataBroker payload could not be used.
#[derive(PartialEq, Eq, Structural, Debug, Clone, Copy)]
pub enum FeedError {
    /// The price and location arrays differ in length.
    LengthMismatch,
    /// No location in the payload is a tracked hub.
    NoHubRows,
}

impl FeedError {
    /// The message shown when the feed is unusable.
    pub fn message(&self) -> (r: String)
        ensures
            r@ == match *self {
                FeedError::LengthMismatch => "malformed MISO payload (array length mismatch)"@,
                FeedError::NoHubRows => "no HUB rows found in MISO feed"@,
            },
    {
        match self {
            FeedError::LengthMismatch => String::from_str("malformed MISO payload (array length mismatch)"),
            FeedError::NoHubRows => String::from_str("no HUB rows found in MISO feed"),
        }
    }
}

/// The (location, price) rows among the first `k` whose location is a
/// tracked hub, in feed order.
pub open spec fn hub_rows<P>(location: Seq<String>, lmp: Seq<P>, k: nat) -> Seq<(String, P)>
    decreases k,
{
    if k == 0 {
        Seq::empty()
    } else {
        let prev = hub_rows(location, lmp, (k - 1) as nat);
        if hub_names().contains(location[k - 1]@) {
            prev.push((location[k - 1], lmp[k - 1]))
        } else {
            prev
        }
    }
}

/// Reduce a DataBroker payload to the tracked hubs, stamped with the interval
/// that holds `now`. The arrays must pair up, and at least one hub must be
/// present.
pub fn reduce_feed<P: Copy>(lmp: &[P], location: &[String], now: i64) -> (r: Result<Snapshot<P>, FeedError>)
    requires
        floor_interval_spec(now as int) >= i64::MIN,
    ensures
        (lmp@.len() != location@.len()) <==> r == Err::<Snapshot<P>, FeedError>(FeedError::LengthMismatch),
        (lmp@.len() == location@.len() && hub_rows(location@, lmp@, location@.len()).len() == 0)
            <==> r == Err::<Snapshot<P>, FeedError>(FeedError::NoHubRows),
        r matches Ok(s) ==> {
            &&& s.ts == floor_interval_spec(now as int)
            &&& s.prices@ == hub_rows(location@, lmp@, location@.len())
        },
        r == Err::<Snapshot<P>, FeedError>(FeedError::NoHubRows) <==> (lmp@.len() == location@.len()
            && forall|i: int| 0 <= i < location@.len() ==> !hub_names().contains(#[trigger] location@[i]@)),
        r matches Ok(s) ==> {
            &&& forall|i: int| 0 <= i < location@.len() && hub_names().contains(#[trigger] location@[i]@)
                ==> s.prices@.contains((location@[i], lmp@[i]))
            &&& forall|j: int| 0 <= j < s.prices@.len() ==> exists|i: int|
                0 <= i < location@.len() && hub_names().contains(location@[i]@)
                && #[trigger] s.prices@[j] == (location@[i], lmp@[i])
        },
{
    proof {
        if lmp@.len() == location@.len() {
            lemma_hub_rows_exact(location@, lmp@, location@.len());
        }
    }
    if lmp.len() != location.len() {
        return Err(FeedError::LengthMismatch);
    }
    let mut prices: Vec<(String, P)> = Vec::new();
    let mut i: usize = 0;
    while i < location.len()
        invariant
            i <= location@.len(),
            lmp@.len() == location@.len(),
            prices@ == hub_rows(location@, lmp@, i as nat),
        decreases location@.len() - i,
    {
        if is_hub(location[i].as_str()) {
            prices.push((location[i].clone(), lmp[i]));
        }
        i = i + 1;
    }
    if prices.len() == 0 {
        return Err(FeedError::NoHubRows);
    }
    Ok(Snapshot { ts: floor_interval(now), prices })
}

/// The reduction keeps exactly the hub rows: every row whose location is a
/// tracked hub is kept with its own price, every kept row is such a row, and
/// nothing is kept only when no location is a tracked hub.
pub proof fn lemma_hub_rows_exact<P>(location: Seq<String>, lmp: Seq<P>, k: nat)
    requires
        k <= location.len(),
        k <= lmp.len(),
    ensures
        forall|i: int| 0 <= i < k && hub_names().contains(#[trigger] location[i]@)
            ==> hub_rows(location, lmp, k).contains((location[i], lmp[i])),
        forall|j: int| 0 <= j < hub_rows(location, lmp, k).len() ==> exists|i: int|
            0 <= i < k && hub_names().contains(location[i]@)
            && #[trigger] hub_rows(location, lmp, k)[j] == (location[i], lmp[i]),
        hub_rows(location, lmp, k).len() == 0
            <==> forall|i: int| 0 <= i < k ==> !hub_names().contains(#[trigger] location[i]@),
    decreases k,
{
    if k > 0 {
        let km = (k - 1) as nat;
        lemma_hub_rows_exact(location, lmp, km);
        let prev = hub_rows(location, lmp, km);
        let cur = hub_rows(location, lmp, k);
        assert forall|i: int| 0 <= i < k && hub_names().contains(#[trigger] location[i]@)
            implies cur.contains((location[i], lmp[i])) by {
            if i < km {
                let w = choose|w: int| 0 <= w < prev.len() && prev[w] == (location[i], lmp[i]);
                assert(cur[w] == prev[w]);
            } else {
                assert(cur[cur.len() - 1] == (location[i], lmp[i]));
            }
        }
        assert forall|j: int| 0 <= j < cur.len() implies exists|i: int|
            0 <= i < k && hub_names().contains(location[i]@)
            && #[trigger] cur[j] == (location[i], lmp[i]) by {
            if j < prev.len() {
                assert(cur[j] == prev[j]);
                let i = choose|i: int| 0 <= i < km && hub_names().contains(location[i]@)
                    && prev[j] == (location[i], lmp[i]);
                assert(cur[j] == (location[i], lmp[i]));
            } else {
                assert(cur[j] == (location[km as int], lmp[km as int]));
            }
        }
        if cur.len() == 0 {
            assert(!hub_names().contains(location[km as int]@));
        }
        if forall|i: int| 0 <= i < k ==> !hub_names().contains(#[trigger] location[i]@) {
            assert(!hub_names().contains(location[km as int]@));
        } else {
            if cur.len() == 0 {
                let i = choose|i: int| 0 <= i < k && hub_names().contains(#[trigger] location[i]@);
                assert(cur.contains((location[i], lmp[i])));
            }
        }
    }
}

/// Every price row of a reduced snapshot names a tracked hub.
pub proof fn lemma_hub_rows_are_hubs<P>(location: Seq<String>, lmp: Seq<P>, k: nat)
    requires
        k <= location.len(),
    ensures
        forall|i: int| 0 <= i < hub_rows(location, lmp, k).len()
            ==> hub_names().contains((#[trigger] hub_rows(location, lmp, k)[i]).0@),
        hub_rows(location, lmp, k).len() <= k,
    decreases k,
{
    if k > 0 {
        lemma_hub_rows_are_hubs(location, lmp, (k - 1) as nat);
    }
}

} // verus!
