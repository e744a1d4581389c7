//! The chart's time logic: the visible time domain, which samples fall in
//! it, axis tick instants, which line segments are drawn, the highlighted
//! latest sample and the legend. Pixel and price arithmetic is the caller's.

use vstd::prelude::*;

use crate::types::{INTERVAL_SECONDS, HISTORY_INTERVAL_SECONDS};

verus! {

/// The chart never spans less than an hour, so a sparse chart still reads.
pub const MIN_SPAN_SECONDS: i64 = 3600;

/// Number of x-axis tick intervals (ticks are this plus one).
pub const X_TICKS: i64 = 6;

/// Live segments wider than the 5-minute sampling interval are gaps, not lines.
pub const LIVE_MAX_GAP: i64 = 300;

/// Archive segments wider than the hourly sampling interval are gaps, not lines.
pub const ARCHIVE_MAX_GAP: i64 = 3600;

/// Everything the chart draws for the selected hub.
pub struct ChartData<'a, P> {
    /// Settled hourly real-time prices from the archive.
    pub rt_archive: &'a [(i64, P)],
    /// Live 5-minute real-time prices.
    pub rt_live: &'a [(i64, P)],
    /// Settled hourly day-ahead prices, when the overlay is enabled.
    pub da_archive: Option<&'a [(i64, P)]>,
    /// Seconds of history to show.
    pub range_secs: i64,
}

/// The visible time span, in epoch seconds.
#[derive(PartialEq, Eq, Structural, Debug, Clone, Copy)]
pub struct TimeDomain {
    pub t_min: i64,
    pub t_max: i64,
}

/// The points of `pts` inside `[t_min, t_max]`, in order.
pub open spec fn visible_spec<P>(pts: Seq<(i64, P)>, t_min: int, t_max: int) -> Seq<(i64, P)> {
    pts.filter(|p: (i64, P)| t_min <= p.0 <= t_max)
}

/// Points falling inside the visible time window.
pub fn visible<P: Copy>(pts: &[(i64, P)], t_min: i64, t_max: i64) -> (r: Vec<(i64, P)>)
    ensures
        r@ == visible_spec(pts@, t_min as int, t_max as int),
{
    let ghost pred = |p: (i64, P)| t_min <= p.0 <= t_max;
    let mut out: Vec<(i64, P)> = Vec::new();
    let mut i: usize = 0;
    while i < pts.len()
        invariant
            i <= pts@.len(),
            pred == (|p: (i64, P)| t_min <= p.0 <= t_max),
            out@ == pts@.take(i as int).filter(pred),
        decreases pts@.len() - i,
    {
        proof {
            assert(pts@.take(i + 1) =~= pts@.take(i as int).push(pts@[i as int]));
            pts@.take(i as int).lemma_filter_push(pts@[i as int], pred);
        }
        let p = pts[i];
        if p.0 >= t_min && p.0 <= t_max {
            out.push(p);
        }
        i = i + 1;
    }
    assert(pts@.take(pts@.len() as int) =~= pts@);
    out
}

/// The earlier of two optional instants.
pub open spec fn earliest_of(a: Option<i64>, b: Option<i64>) -> Option<i64> {
    match (a, b) {
        (Some(x), Some(y)) => Some(if x <= y { x } else { y }),
        (Some(x), None) => Some(x),
        (None, y) => y,
    }
}

/// Right edge: now, or the end of the forecast when that is later.
pub open spec fn domain_end(now: int, forecast_end: Option<i64>) -> int {
    match forecast_end {
        Some(e) => if e > now { e as int } else { now },
        None => now,
    }
}

/// Left edge before the one-hour floor: the selected range back from now,
/// but no earlier than the first sample of either real-time series.
pub open spec fn domain_start(now: int, range_secs: int, first: Option<i64>) -> int {
    match first {
        Some(e) => if e > now - range_secs { e as int } else { now - range_secs },
        None => now - range_secs,
    }
}

/// The chart's time domain.
pub open spec fn domain_spec(
    now: int,
    range_secs: int,
    forecast_end: Option<i64>,
    archive_start: Option<i64>,
    live_start: Option<i64>,
) -> (int, int) {
    let t_max = domain_end(now, forecast_end);
    let start = domain_start(now, range_secs, earliest_of(archive_start, live_start));
    if t_max - start < MIN_SPAN_SECONDS { (t_max - MIN_SPAN_SECONDS, t_max) } else { (start, t_max) }
}

/// The time domain reaches now and the forecast end and no further; every
/// real-time series whose first sample falls in the selected range has that
/// sample on the chart; the domain starts no earlier than the range unless it
/// is widened to exactly one hour; and when wider than an hour it starts at
/// the range start or at a series' first sample.
pub proof fn lemma_domain_shows_samples(
    now: int,
    range_secs: int,
    forecast_end: Option<i64>,
    archive_start: Option<i64>,
    live_start: Option<i64>,
)
    ensures
        ({
            let (t_min, t_max) = domain_spec(now, range_secs, forecast_end, archive_start, live_start);
            &&& t_max >= now
            &&& t_max - t_min >= MIN_SPAN_SECONDS
            &&& forecast_end is Some ==> t_max >= forecast_end->0
            &&& t_max == now || forecast_end == Some(t_max as i64)
            &&& (archive_start is Some && now - range_secs <= archive_start->0 <= now)
                ==> (t_min <= archive_start->0 <= t_max)
            &&& (live_start is Some && now - range_secs <= live_start->0 <= now)
                ==> (t_min <= live_start->0 <= t_max)
            &&& t_min >= now - range_secs || t_max - t_min == MIN_SPAN_SECONDS
            &&& t_max - t_min > MIN_SPAN_SECONDS ==> (t_min == now - range_secs
                || (archive_start is Some && archive_start->0 == t_min)
                || (live_start is Some && live_start->0 == t_min))
        }),
{
}

/// The x domain: the selected range up to now, extended to cover the
/// forecast, trimmed to the data, and never narrower than an hour.
pub fn time_domain(
    now: i64,
    range_secs: i64,
    forecast_end: Option<i64>,
    archive_start: Option<i64>,
    live_start: Option<i64>,
) -> (r: TimeDomain)
    requires
        i64::MIN <= now - range_secs <= i64::MAX,
        i64::MIN <= now - MIN_SPAN_SECONDS,
    ensures
        (r.t_min as int, r.t_max as int) == domain_spec(now as int, range_secs as int,
            forecast_end, archive_start, live_start),
        r.t_max >= now,
        r.t_max - r.t_min >= MIN_SPAN_SECONDS,
        forecast_end is Some ==> r.t_max >= forecast_end->0,
        r.t_max == now || forecast_end == Some(r.t_max),
        (archive_start is Some && now - range_secs <= archive_start->0 <= now)
            ==> (r.t_min <= archive_start->0 <= r.t_max),
        (live_start is Some && now - range_secs <= live_start->0 <= now)
            ==> (r.t_min <= live_start->0 <= r.t_max),
        r.t_min >= now - range_secs || r.t_max - r.t_min == MIN_SPAN_SECONDS,
        r.t_max - r.t_min > MIN_SPAN_SECONDS ==> (r.t_min == now - range_secs
            || archive_start == Some(r.t_min) || live_start == Some(r.t_min)),
{
    proof {
        lemma_domain_shows_samples(now as int, range_secs as int, forecast_end, archive_start, live_start);
    }
    let t_max = match forecast_end {
        Some(e) => if e > now { e } else { now },
        None => now,
    };
    let earliest = match (archive_start, live_start) {
        (Some(x), Some(y)) => Some(if x <= y { x } else { y }),
        (Some(x), None) => Some(x),
        (None, y) => y,
    };
    let back = now - range_secs;
    let start = match earliest {
        Some(e) => if e > back { e } else { back },
        None => back,
    };
    if (t_max as i128) - (start as i128) < MIN_SPAN_SECONDS as i128 {
        TimeDomain { t_min: t_max - MIN_SPAN_SECONDS, t_max }
    } else {
        TimeDomain { t_min: start, t_max }
    }
}

/// The samples the chart shows, with the time domain they were cut to.
pub struct ChartWindow<P> {
    pub domain: TimeDomain,
    pub archive: Vec<(i64, P)>,
    pub live: Vec<(i64, P)>,
    pub day_ahead: Vec<(i64, P)>,
}

/// The timestamp of a series' first point, if any.
pub open spec fn first_ts<P>(pts: Seq<(i64, P)>) -> Option<i64> {
    if pts.len() > 0 { Some(pts[0].0) } else { None }
}

impl<'a, P: Copy> ChartData<'a, P> {
    /// The time domain and the samples inside it. Nothing is drawn (`None`)
    /// when neither real-time series has a visible sample.
    pub fn window(&self, now: i64, forecast_end: Option<i64>) -> (r: Option<ChartWindow<P>>)
        requires
            i64::MIN <= now - self.range_secs <= i64::MAX,
            i64::MIN <= now - MIN_SPAN_SECONDS,
        ensures
            ({
                let d = domain_spec(now as int, self.range_secs as int, forecast_end,
                    first_ts(self.rt_archive@), first_ts(self.rt_live@));
                let arch = visible_spec(self.rt_archive@, d.0, d.1);
                let live = visible_spec(self.rt_live@, d.0, d.1);
                &&& r is None <==> (arch.len() == 0 && live.len() == 0)
                &&& r matches Some(w) ==> {
                    &&& w.domain.t_min == d.0
                    &&& w.domain.t_max == d.1
                    &&& w.archive@ == arch
                    &&& w.live@ == live
                    &&& w.day_ahead@ == match self.da_archive {
                        Some(da) => visible_spec(da@, d.0, d.1),
                        None => Seq::<(i64, P)>::empty(),
                    }
                }
            }),
    {
        let archive_start = if self.rt_archive.len() > 0 { Some(self.rt_archive[0].0) } else { None };
        let live_start = if self.rt_live.len() > 0 { Some(self.rt_live[0].0) } else { None };
        let domain = time_domain(now, self.range_secs, forecast_end, archive_start, live_start);
        let archive = visible(self.rt_archive, domain.t_min, domain.t_max);
        let live = visible(self.rt_live, domain.t_min, domain.t_max);
        let day_ahead = match self.da_archive {
            Some(da) => visible(da, domain.t_min, domain.t_max),
            None => {
                let v: Vec<(i64, P)> = Vec::new();
                assert(v@ =~= Seq::<(i64, P)>::empty());
                v
            },
        };
        if archive.len() == 0 && live.len() == 0 {
            return None;
        }
        Some(ChartWindow { domain, archive, live, day_ahead })
    }
}

/// Every sample the chart shows lies inside the time domain, and every
/// sample of the series inside the domain is shown, in the series' order.
pub proof fn lemma_visible_exact<P>(pts: Seq<(i64, P)>, t_min: int, t_max: int)
    ensures
        forall|i: int| 0 <= i < visible_spec(pts, t_min, t_max).len()
            ==> t_min <= (#[trigger] visible_spec(pts, t_min, t_max)[i]).0 <= t_max,
        forall|i: int| 0 <= i < pts.len() && t_min <= pts[i].0 <= t_max
            ==> #[trigger] visible_spec(pts, t_min, t_max).contains(pts[i]),
        visible_spec(pts, t_min, t_max).len() <= pts.len(),
{
    broadcast use vstd::seq_lib::group_seq_properties;
    let pred = |p: (i64, P)| t_min <= p.0 <= t_max;
    assert forall|i: int| 0 <= i < visible_spec(pts, t_min, t_max).len()
        implies t_min <= (#[trigger] visible_spec(pts, t_min, t_max)[i]).0 <= t_max by {
        pts.lemma_filter_pred(pred, i);
    }
    assert forall|i: int| 0 <= i < pts.len() && t_min <= pts[i].0 <= t_max
        implies #[trigger] visible_spec(pts, t_min, t_max).contains(pts[i]) by {
        pts.lemma_filter_contains(pred, i);
    }
    pts.lemma_filter_len(pred);
}

/// Instants of the x-axis ticks: `X_TICKS + 1` evenly spaced instants from
/// `t_min` to `t_max`, each rounded toward `t_min`.
pub fn x_ticks(t_min: i64, t_max: i64) -> (r: Vec<i64>)
    requires
        t_min <= t_max,
        (t_max - t_min) * X_TICKS <= i64::MAX,
    ensures
        r@.len() == X_TICKS + 1,
        forall|i: int| 0 <= i <= X_TICKS
            ==> #[trigger] r@[i] == t_min + (t_max - t_min) * i / (X_TICKS as int),
{
    let span = t_max - t_min;
    let mut out: Vec<i64> = Vec::new();
    let mut i: i64 = 0;
    while i <= X_TICKS
        invariant
            0 <= i <= X_TICKS + 1,
            span == t_max - t_min,
            0 <= span,
            span * X_TICKS <= i64::MAX,
            out@.len() == i,
            forall|j: int| 0 <= j < i ==> #[trigger] out@[j] == t_min + (t_max - t_min) * j / (X_TICKS as int),
        decreases X_TICKS + 1 - i,
    {
        assert(0 <= span * i <= span * X_TICKS) by (nonlinear_arith)
            requires 0 <= span, 0 <= i <= X_TICKS;
        assert(span * i / (X_TICKS as int) <= span) by (nonlinear_arith)
            requires 0 <= span, 0 <= i <= X_TICKS;
        let off = span * i / X_TICKS;
        out.push(t_min + off);
        i = i + 1;
    }
    out
}

/// The ticks run from the left edge to the right edge in order.
pub proof fn lemma_x_ticks_span(t_min: int, t_max: int, ticks: Seq<i64>)
    requires
        t_min <= t_max,
        ticks.len() == X_TICKS + 1,
        forall|i: int| 0 <= i <= X_TICKS ==> #[trigger] ticks[i] == t_min + (t_max - t_min) * i / (X_TICKS as int),
    ensures
        ticks[0] == t_min,
        ticks[X_TICKS as int] == t_max,
        forall|i: int, j: int| 0 <= i <= j <= X_TICKS ==> ticks[i] <= ticks[j],
{
    assert(ticks[0] == t_min + (t_max - t_min) * 0 / (X_TICKS as int));
    assert(ticks[X_TICKS as int] == t_min + (t_max - t_min) * 6 / 6);
    assert forall|i: int, j: int| 0 <= i <= j <= X_TICKS implies ticks[i] <= ticks[j] by {
        let span = t_max - t_min;
        assert(span * i <= span * j) by (nonlinear_arith)
            requires 0 <= span, i <= j;
        vstd::arithmetic::div_mod::lemma_div_is_ordered(span * i, span * j, 6);
    }
}

/// Indices `i` whose segment from point `i` to point `i + 1` is drawn: those
/// no wider than `max_gap`, so a gap in the data stays a gap.
pub open spec fn drawn_segment<P>(pts: Seq<(i64, P)>, i: int, max_gap: int) -> bool
{
    pts[i + 1].0 - pts[i].0 <= max_gap
}

/// The segments of a polyline that are drawn, as indices of their first point.
pub fn drawable_segments<P>(pts: &[(i64, P)], max_gap: i64) -> (r: Vec<usize>)
    ensures
        forall|k: int| 0 <= k < r@.len() ==> {
            &&& #[trigger] r@[k] + 1 < pts@.len()
            &&& drawn_segment(pts@, r@[k] as int, max_gap as int)
        },
        forall|i: int| 0 <= i && i + 1 < pts@.len() && drawn_segment(pts@, i, max_gap as int)
            ==> r@.contains(i as usize),
        forall|a: int, b: int| 0 <= a < b < r@.len() ==> r@[a] < r@[b],
{
    let mut out: Vec<usize> = Vec::new();
    let mut i: usize = 0;
    let last: usize = if pts.len() == 0 { 0 } else { pts.len() - 1 };
    while i < last
        invariant
            last as int == if pts@.len() == 0 { 0 } else { pts@.len() - 1 },
            i <= last,
            forall|k: int| 0 <= k < out@.len() ==> {
                &&& #[trigger] out@[k] + 1 < pts@.len()
                &&& out@[k] < i
                &&& drawn_segment(pts@, out@[k] as int, max_gap as int)
            },
            forall|j: int| 0 <= j < i && j + 1 < pts@.len() && drawn_segment(pts@, j, max_gap as int)
                ==> out@.contains(j as usize),
            forall|a: int, b: int| 0 <= a < b < out@.len() ==> out@[a] < out@[b],
        decreases pts@.len() - i,
    {
        let ghost before = out@;
        let gap: i128 = (pts[i + 1].0 as i128) - (pts[i].0 as i128);
        if gap <= max_gap as i128 {
            out.push(i);
            assert(out@[out@.len() - 1] == i);
        }
        proof {
            assert forall|j: int| 0 <= j < i + 1 && j + 1 < pts@.len()
                && drawn_segment(pts@, j, max_gap as int) implies out@.contains(j as usize) by {
                if j < i {
                    let w = choose|w: int| 0 <= w < before.len() && before[w] == j as usize;
                    assert(out@[w] == j as usize);
                } else {
                    assert(out@[out@.len() - 1] == i);
                }
            }
        }
        i = i + 1;
    }
    out
}

/// The sample the forecast continues from: the newest live sample, else the
/// newest settled hour.
pub fn latest_point<P: Copy>(live: &[(i64, P)], archive: &[(i64, P)]) -> (r: Option<(i64, P)>)
    ensures
        r == if live@.len() > 0 {
            Some(live@.last())
        } else if archive@.len() > 0 {
            Some(archive@.last())
        } else {
            None::<(i64, P)>
        },
{
    if live.len() > 0 {
        Some(live[live.len() - 1])
    } else if archive.len() > 0 {
        Some(archive[archive.len() - 1])
    } else {
        None
    }
}

/// One legend row.
#[derive(PartialEq, Eq, Structural, Debug, Clone, Copy)]
pub enum LegendEntry {
    LiveRealTime,
    SettledRealTime,
    DayAhead,
    Forecast,
}

impl LegendEntry {
    /// The row's text.
    pub fn label(&self) -> (r: String)
        ensures
            r@ == match *self {
                LegendEntry::LiveRealTime => "real-time · live 5-min"@,
                LegendEntry::SettledRealTime => "real-time · settled hourly"@,
                LegendEntry::DayAhead => "day-ahead · settled hourly"@,
                LegendEntry::Forecast => "forecast · 95% band"@,
            },
    {
        match self {
            LegendEntry::LiveRealTime => String::from_str("real-time · live 5-min"),
            LegendEntry::SettledRealTime => String::from_str("real-time · settled hourly"),
            LegendEntry::DayAhead => String::from_str("day-ahead · settled hourly"),
            LegendEntry::Forecast => String::from_str("forecast · 95% band"),
        }
    }
}

/// `e` when `present`, else nothing.
pub open spec fn row_if(present: bool, e: LegendEntry) -> Seq<LegendEntry> {
    if present { seq![e] } else { Seq::empty() }
}

/// The legend lists exactly what was drawn, in drawing order.
pub fn legend(live: bool, archive: bool, day_ahead: bool, forecast: bool) -> (r: Vec<LegendEntry>)
    ensures
        r@ == row_if(live, LegendEntry::LiveRealTime) + row_if(archive, LegendEntry::SettledRealTime)
            + row_if(day_ahead, LegendEntry::DayAhead) + row_if(forecast, LegendEntry::Forecast),
{
    let mut out: Vec<LegendEntry> = Vec::new();
    if live {
        out.push(LegendEntry::LiveRealTime);
    }
    if archive {
        out.push(LegendEntry::SettledRealTime);
    }
    if day_ahead {
        out.push(LegendEntry::DayAhead);
    }
    if forecast {
        out.push(LegendEntry::Forecast);
    }
    assert(out@ =~= row_if(live, LegendEntry::LiveRealTime) + row_if(archive, LegendEntry::SettledRealTime)
        + row_if(day_ahead, LegendEntry::DayAhead) + row_if(forecast, LegendEntry::Forecast));
    out
}

} // verus!
