//! The settled hourly archive: expanding its column-oriented wire form onto
//! explicit timestamps, and looking up one hub's series.

use vstd::prelude::*;

verus! {

/// Per-hub columns of the archive's wire form: prices on an implicit grid,
/// `None` for a missing hour.
pub type WireColumns<P> = Vec<(String, Vec<Option<P>>)>;

/// Per-hub series on explicit timestamps.
pub type SeriesColumns<P> = Vec<(String, Vec<(i64, P)>)>;

/// The archive as exported: column-oriented on an implicit time grid that
/// starts at `t0` and steps by `interval_seconds`; only the first `n` entries
/// of each column are on the grid.
pub struct Wire<P> {
    pub interval_seconds: i64,
    pub t0: i64,
    pub n: usize,
    pub rt_end: i64,
    pub da: WireColumns<P>,
    pub rt: WireColumns<P>,
}

/// Hourly settled history per hub, on explicit timestamps.
pub struct History<P> {
    pub interval: i64,
    /// Timestamp of the newest settled real-time hour: where live data takes over.
    pub rt_end: i64,
    pub da: SeriesColumns<P>,
    pub rt: SeriesColumns<P>,
}

/// Why the archive could not be used.
#[derive(PartialEq, Eq, Structural, Debug, Clone, Copy)]
pub enum HistoryError {
    /// The grid step is zero or negative.
    NonPositiveInterval,
}

impl HistoryError {
    /// The message shown in the archive status.
    pub fn message(&self) -> (r: String)
        ensures
            r@ == "history asset has a non-positive interval"@,
    {
        String::from_str("history asset has a non-positive interval")
    }
}

/// Each hub name occurs once.
pub open spec fn names_distinct<T>(cols: Seq<(String, T)>) -> bool {
    forall|i: int, j: int| 0 <= i < cols.len() && 0 <= j < cols.len() && i != j
        ==> cols[i].0@ != cols[j].0@
}

/// How many entries of a column lie on the grid.
pub open spec fn on_grid(len: nat, n: nat) -> nat {
    if n < len { n } else { len }
}

/// The first `k` entries of `col` placed on the grid `t0 + i * interval`,
/// missing hours dropped.
pub open spec fn expand_spec<P>(col: Seq<Option<P>>, t0: int, interval: int, k: nat) -> Seq<(i64, P)>
    decreases k,
{
    if k == 0 {
        Seq::empty()
    } else {
        let prev = expand_spec(col, t0, interval, (k - 1) as nat);
        match col[k - 1] {
            Some(p) => prev.push(((t0 + (k - 1) * interval) as i64, p)),
            None => prev,
        }
    }
}

/// Every present hour of `col` gets a timestamp that fits in an `i64`.
pub open spec fn grid_fits<P>(col: Seq<Option<P>>, t0: int, interval: int, n: nat) -> bool {
    &&& col.len() <= i64::MAX
    &&& forall|i: int| 0 <= i < on_grid(col.len(), n) && (#[trigger] col[i]) is Some ==> {
        &&& i64::MIN <= i * interval <= i64::MAX
        &&& i64::MIN <= t0 + i * interval <= i64::MAX
    }
}

/// Every column of the wire form expands without overflow.
pub open spec fn wire_fits<P>(w: Wire<P>) -> bool {
    &&& forall|c: int| 0 <= c < w.da@.len()
        ==> grid_fits(#[trigger] w.da@[c].1@, w.t0 as int, w.interval_seconds as int, w.n as nat)
    &&& forall|c: int| 0 <= c < w.rt@.len()
        ==> grid_fits(#[trigger] w.rt@[c].1@, w.t0 as int, w.interval_seconds as int, w.n as nat)
}

/// `out` is `cols` with every column expanded, names and order kept.
pub open spec fn expanded_columns<P>(
    out: Seq<(String, Vec<(i64, P)>)>,
    cols: Seq<(String, Vec<Option<P>>)>,
    t0: int,
    interval: int,
    n: nat,
) -> bool {
    &&& out.len() == cols.len()
    &&& forall|c: int| 0 <= c < cols.len() ==> {
        &&& (#[trigger] out[c]).0@ == cols[c].0@
        &&& out[c].1@ == expand_spec(cols[c].1@, t0, interval, on_grid(cols[c].1@.len(), n))
    }
}

/// The series listed first under `hub`, or an empty one.
pub open spec fn column_of<P>(cols: Seq<(String, Vec<(i64, P)>)>, hub: Seq<char>) -> Seq<(i64, P)>
    decreases cols.len(),
{
    if cols.len() == 0 {
        Seq::empty()
    } else if cols[0].0@ == hub {
        cols[0].1@
    } else {
        column_of(cols.drop_first(), hub)
    }
}

/// Grid steps a series covers, counting both ends:
/// `(last - first) / interval + 1`, or 0 for an empty series.
pub open spec fn span_steps<P>(col: Seq<(i64, P)>, interval: int) -> int {
    if col.len() == 0 {
        0
    } else {
        (col.last().0 - col[0].0) / interval + 1
    }
}

/// The widest span over all series, 0 when none has data.
pub open spec fn widest_span<P>(cols: Seq<(String, Vec<(i64, P)>)>, interval: int) -> int
    decreases cols.len(),
{
    if cols.len() == 0 {
        0
    } else {
        let rest = widest_span(cols.drop_last(), interval);
        let here = span_steps(cols.last().1@, interval);
        if here > rest { here } else { rest }
    }
}

/// Every non-empty real-time series runs forward on a positive grid step and
/// spans a countable number of hours.
pub open spec fn spans_countable<P>(h: History<P>) -> bool {
    forall|c: int| 0 <= c < h.rt@.len() && (#[trigger] h.rt@[c]).1@.len() > 0 ==> {
        &&& h.interval > 0
        &&& h.rt@[c].1@[0].0 <= h.rt@[c].1@.last().0
        &&& span_steps(h.rt@[c].1@, h.interval as int) <= usize::MAX
    }
}

/// Expand one column into `(timestamp, price)` pairs, dropping missing hours.
pub fn expand<P: Copy>(col: &[Option<P>], t0: i64, interval: i64, n: usize) -> (r: Vec<(i64, P)>)
    requires
        grid_fits(col@, t0 as int, interval as int, n as nat),
    ensures
        r@ == expand_spec(col@, t0 as int, interval as int, on_grid(col@.len(), n as nat)),
{
    let k: usize = if n < col.len() { n } else { col.len() };
    let mut out: Vec<(i64, P)> = Vec::new();
    let mut i: usize = 0;
    while i < k
        invariant
            k == on_grid(col@.len(), n as nat),
            i <= k,
            grid_fits(col@, t0 as int, interval as int, n as nat),
            out@ == expand_spec(col@, t0 as int, interval as int, i as nat),
        decreases k - i,
    {
        match col[i] {
            Some(p) => {
                assert(col@[i as int] is Some);
                let step = (i as i64) * interval;
                out.push((t0 + step, p));
            },
            None => {},
        }
        i = i + 1;
    }
    out
}

fn expand_columns<P: Copy>(cols: WireColumns<P>, t0: i64, interval: i64, n: usize) -> (r: SeriesColumns<P>)
    requires
        forall|c: int| 0 <= c < cols@.len()
            ==> grid_fits(#[trigger] cols@[c].1@, t0 as int, interval as int, n as nat),
    ensures
        expanded_columns(r@, cols@, t0 as int, interval as int, n as nat),
{
    let ghost s = cols@;
    let mut out: SeriesColumns<P> = Vec::new();
    for entry in it: cols.into_iter()
        invariant
            it.seq() == s,
            forall|c: int| 0 <= c < s.len()
                ==> grid_fits(#[trigger] s[c].1@, t0 as int, interval as int, n as nat),
            expanded_columns(out@, s.take(it.index() as int), t0 as int, interval as int, n as nat),
    {
        let ghost k = it.index() as int;
        proof {
            assert(entry == s[k]);
        }
        let (name, col) = entry;
        let series = expand(col.as_slice(), t0, interval, n);
        out.push((name, series));
        proof {
            assert forall|c: int| 0 <= c < k + 1 implies {
                &&& (#[trigger] out@[c]).0@ == s.take(k + 1)[c].0@
                &&& out@[c].1@ == expand_spec(s.take(k + 1)[c].1@, t0 as int, interval as int,
                    on_grid(s.take(k + 1)[c].1@.len(), n as nat))
            } by {
                if c < k {
                    assert(s.take(k)[c] == s.take(k + 1)[c]);
                }
            }
        }
    }
    proof {
        assert(s.take(s.len() as int) =~= s);
    }
    out
}

/// Whether each hub name occurs once among `cols`.
pub fn names_distinct_check<T>(cols: &Vec<(String, T)>) -> (b: bool)
    ensures
        b == names_distinct(cols@),
{
    let mut i: usize = 0;
    while i < cols.len()
        invariant
            i <= cols@.len(),
            forall|a: int, b: int| 0 <= a < i && 0 <= b < cols@.len() && a != b
                ==> cols@[a].0@ != cols@[b].0@,
        decreases cols@.len() - i,
    {
        let mut j: usize = 0;
        while j < cols.len()
            invariant
                i < cols@.len(),
                j <= cols@.len(),
                forall|a: int, b: int| 0 <= a < i && 0 <= b < cols@.len() && a != b
                    ==> cols@[a].0@ != cols@[b].0@,
                forall|b: int| 0 <= b < j && b != i ==> cols@[i as int].0@ != cols@[b].0@,
            decreases cols@.len() - j,
        {
            if j != i && cols[i].0 == cols[j].0 {
                return false;
            }
            j = j + 1;
        }
        i = i + 1;
    }
    true
}

/// Whether every column of `wire` expands without overflow.
pub fn wire_fits_check<P>(wire: &Wire<P>) -> (b: bool)
    ensures
        b == wire_fits(*wire),
{
    let mut c: usize = 0;
    while c < wire.da.len()
        invariant
            c <= wire.da@.len(),
            forall|j: int| 0 <= j < c
                ==> grid_fits(#[trigger] wire.da@[j].1@, wire.t0 as int, wire.interval_seconds as int, wire.n as nat),
        decreases wire.da@.len() - c,
    {
        if !column_fits(wire.da[c].1.as_slice(), wire.t0, wire.interval_seconds, wire.n) {
            return false;
        }
        c = c + 1;
    }
    let mut c: usize = 0;
    while c < wire.rt.len()
        invariant
            c <= wire.rt@.len(),
            forall|j: int| 0 <= j < wire.da@.len()
                ==> grid_fits(#[trigger] wire.da@[j].1@, wire.t0 as int, wire.interval_seconds as int, wire.n as nat),
            forall|j: int| 0 <= j < c
                ==> grid_fits(#[trigger] wire.rt@[j].1@, wire.t0 as int, wire.interval_seconds as int, wire.n as nat),
        decreases wire.rt@.len() - c,
    {
        if !column_fits(wire.rt[c].1.as_slice(), wire.t0, wire.interval_seconds, wire.n) {
            return false;
        }
        c = c + 1;
    }
    true
}

fn column_fits<P>(col: &[Option<P>], t0: i64, interval: i64, n: usize) -> (b: bool)
    ensures
        b == grid_fits(col@, t0 as int, interval as int, n as nat),
{
    if col.len() as u128 > i64::MAX as u128 {
        return false;
    }
    let k: usize = if n < col.len() { n } else { col.len() };
    let mut i: usize = 0;
    while i < k
        invariant
            k == on_grid(col@.len(), n as nat),
            col@.len() <= i64::MAX,
            i <= k,
            forall|j: int| 0 <= j < i && (#[trigger] col@[j]) is Some ==> {
                &&& i64::MIN <= j * interval <= i64::MAX
                &&& i64::MIN <= t0 + j * interval <= i64::MAX
            },
        decreases k - i,
    {
        if col[i].is_some() {
            let wide: i128 = i as i128;
            assert(-0x8000_0000_0000_0000 <= interval <= 0x7fff_ffff_ffff_ffff);
            assert(0 <= wide <= 0x7fff_ffff_ffff_ffff);
            assert(-0x4000_0000_0000_0000_0000_0000_0000_0000 <= wide * (interval as i128)
                <= 0x4000_0000_0000_0000_0000_0000_0000_0000) by (nonlinear_arith)
                requires
                    -0x8000_0000_0000_0000 <= interval <= 0x7fff_ffff_ffff_ffff,
                    0 <= wide <= 0x7fff_ffff_ffff_ffff,
            ;
            let step: i128 = wide * (interval as i128);
            let at: i128 = (t0 as i128) + step;
            if step < i64::MIN as i128 || step > i64::MAX as i128 || at < i64::MIN as i128
                || at > i64::MAX as i128 {
                return false;
            }
        }
        i = i + 1;
    }
    true
}

impl<P: Copy> History<P> {
    /// Expand the archive's wire form. A zero or negative grid step is
    /// refused; otherwise every column is placed on its timestamps.
    pub fn from_wire(wire: Wire<P>) -> (r: Result<History<P>, HistoryError>)
        requires
            wire.interval_seconds > 0 ==> wire_fits(wire),
            names_distinct(wire.da@),
            names_distinct(wire.rt@),
        ensures
            wire.interval_seconds <= 0 <==> r == Err::<History<P>, HistoryError>(
                HistoryError::NonPositiveInterval,
            ),
            r matches Ok(h) ==> {
                &&& names_distinct(h.da@)
                &&& names_distinct(h.rt@)
                &&& spans_countable(h)
                &&& h.interval == wire.interval_seconds
                &&& h.rt_end == wire.rt_end
                &&& expanded_columns(h.da@, wire.da@, wire.t0 as int, wire.interval_seconds as int, wire.n as nat)
                &&& expanded_columns(h.rt@, wire.rt@, wire.t0 as int, wire.interval_seconds as int, wire.n as nat)
            },
    {
        if wire.interval_seconds <= 0 {
            return Err(HistoryError::NonPositiveInterval);
        }
        let interval = wire.interval_seconds;
        let t0 = wire.t0;
        let n = wire.n;
        let rt_end = wire.rt_end;
        let da = expand_columns(wire.da, t0, interval, n);
        let ghost wire_rt = wire.rt@;
        let rt = expand_columns(wire.rt, t0, interval, n);
        let h = History { interval, rt_end, da, rt };
        proof {
            lemma_expanded_spans(h.rt@, wire_rt, t0 as int, interval as int, n as nat);
        }
        Ok(h)
    }

    /// Settled real-time series for one hub, empty when the archive has none.
    pub fn rt_series(&self, hub: &str) -> (r: &[(i64, P)])
        ensures
            r@ == column_of(self.rt@, hub@),
    {
        lookup(&self.rt, hub)
    }

    /// Settled day-ahead series for one hub, empty when the archive has none.
    pub fn da_series(&self, hub: &str) -> (r: &[(i64, P)])
        ensures
            r@ == column_of(self.da@, hub@),
    {
        lookup(&self.da, hub)
    }

    /// Total hours spanned, for status display: the widest first-to-last span
    /// of the real-time series, in grid steps counting both ends.
    pub fn hours(&self) -> (r: usize)
        requires
            spans_countable(*self),
        ensures
            r == widest_span(self.rt@, self.interval as int),
    {
        let mut best: usize = 0;
        let mut i: usize = 0;
        while i < self.rt.len()
            invariant
                i <= self.rt@.len(),
                spans_countable(*self),
                best == widest_span(self.rt@.take(i as int), self.interval as int),
            decreases self.rt@.len() - i,
        {
            assert(self.rt@.take(i + 1).drop_last() =~= self.rt@.take(i as int));
            assert(self.rt@.take(i + 1).last() == self.rt@[i as int]);
            let col = self.rt[i].1.as_slice();
            if col.len() > 0 {
                assert(self.rt@[i as int].1@.len() > 0);
                let first = col[0].0;
                let last = col[col.len() - 1].0;
                let diff: i128 = (last as i128) - (first as i128);
                let steps: i128 = diff / (self.interval as i128) + 1;
                let here: usize = steps as usize;
                if here > best {
                    best = here;
                }
            }
            i = i + 1;
        }
        assert(self.rt@.take(self.rt@.len() as int) =~= self.rt@);
        best
    }
}

impl<P> Default for History<P> {
    /// An empty archive: no series, zero grid step.
    fn default() -> (r: History<P>)
        ensures
            r.interval == 0,
            r.rt_end == 0,
            r.da@.len() == 0,
            r.rt@.len() == 0,
            spans_countable(r),
    {
        History { interval: 0, rt_end: 0, da: Vec::new(), rt: Vec::new() }
    }
}

/// An expanded column lies on the grid, in strictly increasing time order,
/// between `t0` and the last grid instant, and never holds more points than
/// grid entries.
pub proof fn lemma_expand_on_grid<P>(col: Seq<Option<P>>, t0: int, interval: int, n: nat, k: nat)
    requires
        grid_fits(col, t0, interval, n),
        k <= on_grid(col.len(), n),
        interval > 0,
    ensures
        expand_spec(col, t0, interval, k).len() <= k,
        forall|i: int, j: int| 0 <= i < j < expand_spec(col, t0, interval, k).len()
            ==> expand_spec(col, t0, interval, k)[i].0 < expand_spec(col, t0, interval, k)[j].0,
        forall|i: int| 0 <= i < expand_spec(col, t0, interval, k).len() ==> {
            &&& t0 <= (#[trigger] expand_spec(col, t0, interval, k)[i]).0
            &&& expand_spec(col, t0, interval, k)[i].0 <= t0 + (k - 1) * interval
        },
    decreases k,
{
    if k > 0 {
        let km: nat = (k - 1) as nat;
        lemma_expand_on_grid(col, t0, interval, n, km);
        let prev = expand_spec(col, t0, interval, km);
        assert((km - 1) * interval < km * interval) by (nonlinear_arith)
            requires interval > 0;
        assert(0 <= km * interval) by (nonlinear_arith)
            requires interval > 0;
        if col[km as int] is Some {
            assert(i64::MIN <= t0 + km * interval <= i64::MAX);
        }
    }
}

/// Expanded columns run forward and span no more grid steps than they have
/// grid entries, so their hours can be counted.
proof fn lemma_expanded_spans<P>(
    out: Seq<(String, Vec<(i64, P)>)>,
    cols: Seq<(String, Vec<Option<P>>)>,
    t0: int,
    interval: int,
    n: nat,
)
    requires
        interval > 0,
        expanded_columns(out, cols, t0, interval, n),
        forall|c: int| 0 <= c < cols.len() ==> grid_fits(#[trigger] cols[c].1@, t0, interval, n),
        n <= usize::MAX,
    ensures
        forall|c: int| 0 <= c < out.len() && (#[trigger] out[c]).1@.len() > 0 ==> {
            &&& out[c].1@[0].0 <= out[c].1@.last().0
            &&& span_steps(out[c].1@, interval) <= usize::MAX
        },
{
    assert forall|c: int| 0 <= c < out.len() && (#[trigger] out[c]).1@.len() > 0 implies {
        &&& out[c].1@[0].0 <= out[c].1@.last().0
        &&& span_steps(out[c].1@, interval) <= usize::MAX
    } by {
        let col = cols[c].1@;
        let k = on_grid(col.len(), n);
        let e = out[c].1@;
        assert(grid_fits(cols[c].1@, t0, interval, n));
        lemma_expand_on_grid(col, t0, interval, n, k);
        let len = e.len();
        if len > 1 {
            assert(e[0].0 < e[len - 1].0);
        }
        let d = e.last().0 - e[0].0;
        assert(0 <= d <= (k - 1) * interval);
        assert(0 <= k - 1) by {
            assert(e.len() <= k);
        }
        vstd::arithmetic::div_mod::lemma_div_is_ordered(d, (k - 1) * interval, interval);
        vstd::arithmetic::div_mod::lemma_div_by_multiple(k - 1, interval);
        assert(d / interval <= k - 1);
        assert(k <= n);
    }
}

/// A hub named in the archive gets its own column back.
pub proof fn lemma_column_of_named<P>(cols: Seq<(String, Vec<(i64, P)>)>, c: int)
    requires
        names_distinct(cols),
        0 <= c < cols.len(),
    ensures
        column_of(cols, cols[c].0@) == cols[c].1@,
    decreases cols.len(),
{
    if c > 0 {
        let rest = cols.drop_first();
        assert(names_distinct(rest)) by {
            assert forall|i: int, j: int| 0 <= i < rest.len() && 0 <= j < rest.len() && i != j
                implies rest[i].0@ != rest[j].0@ by {
                assert(rest[i] == cols[i + 1]);
                assert(rest[j] == cols[j + 1]);
            }
        }
        assert(rest[c - 1] == cols[c]);
        lemma_column_of_named(rest, c - 1);
    }
}

fn lookup<'a, P>(cols: &'a SeriesColumns<P>, hub: &str) -> (r: &'a [(i64, P)])
    ensures
        r@ == column_of(cols@, hub@),
{
    let key = String::from_str(hub);
    let mut i: usize = 0;
    assert(cols@.skip(0) =~= cols@);
    while i < cols.len()
        invariant
            i <= cols@.len(),
            key@ == hub@,
            column_of(cols@, hub@) == column_of(cols@.skip(i as int), hub@),
        decreases cols@.len() - i,
    {
        if cols[i].0 == key {
            assert(cols@.skip(i as int)[0] == cols@[i as int]);
            return cols[i].1.as_slice();
        }
        assert(cols@.skip(i as int).drop_first() =~= cols@.skip(i + 1));
        i = i + 1;
    }
    let none: &[(i64, P)] = &[];
    assert(none@ =~= Seq::<(i64, P)>::empty());
    none
}

} // verus!
