//! Forecast planning: which series a forecast is fitted on, which method
//! applies to it, when its points fall, and how it is labelled. The fitting
//! itself is floating-point work done by the caller.

use vstd::prelude::*;

use crate::types::{INTERVAL_SECONDS, HISTORY_INTERVAL_SECONDS};
use crate::text::{decimal, signed_decimal, trunc_div, push_decimal, push_signed};

verus! {

/// Below this many samples a series is too short to fit; a random walk with
/// drift stands in while history builds.
pub const MIN_SAMPLES: usize = 48;

/// Largest AR and MA order considered when selecting a model.
pub const MAX_ORDER: usize = 2;

/// Live-feed horizon: 24 five-minute steps, two hours.
pub const LIVE_HORIZON: usize = 24;

/// Archive horizon: 6 hourly steps.
pub const ARCHIVE_HORIZON: usize = 6;

/// The series a forecast is fitted on.
#[derive(PartialEq, Eq, Structural, Debug, Clone, Copy)]
pub enum Basis {
    /// The live 5-minute feed.
    Live,
    /// The settled hourly archive.
    Archive,
}

impl Basis {
    /// The basis as named in the chart tag.
    pub fn name(&self) -> (r: String)
        ensures
            r@ == match *self {
                Basis::Live => "5-min live"@,
                Basis::Archive => "hourly archive"@,
            },
    {
        match self {
            Basis::Live => String::from_str("5-min live"),
            Basis::Archive => String::from_str("hourly archive"),
        }
    }
}

/// Which series to fit, on what grid, and how far ahead.
#[derive(PartialEq, Eq, Structural, Debug, Clone, Copy)]
pub struct ForecastPlan {
    pub basis: Basis,
    /// Spacing of the chosen series, in seconds.
    pub interval: i64,
    /// Steps to forecast.
    pub horizon: usize,
}

/// The plan for a hub with `live_len` live samples and `archive_len` settled
/// hours: the live feed once it has enough samples (or when the archive is
/// no better), the hourly archive before then.
pub open spec fn plan_for(live_len: nat, archive_len: nat) -> ForecastPlan {
    if live_len >= MIN_SAMPLES || archive_len < MIN_SAMPLES {
        ForecastPlan { basis: Basis::Live, interval: INTERVAL_SECONDS, horizon: LIVE_HORIZON }
    } else {
        ForecastPlan { basis: Basis::Archive, interval: HISTORY_INTERVAL_SECONDS, horizon: ARCHIVE_HORIZON }
    }
}

/// Choose the series to forecast a hub from, preferring the live 5-minute
/// feed once it can be fitted and falling back to the hourly archive before.
pub fn forecast_plan(live_len: usize, archive_len: usize) -> (r: ForecastPlan)
    ensures
        r == plan_for(live_len as nat, archive_len as nat),
        r.basis == Basis::Archive <==> (live_len < 48 && archive_len >= 48),
        r.basis == Basis::Live ==> r.interval == 300 && r.horizon == 24,
        r.basis == Basis::Archive ==> r.interval == 3600 && r.horizon == 6,
{
    proof {
        lemma_plan_grid(live_len as nat, archive_len as nat);
    }
    if live_len >= MIN_SAMPLES || archive_len < MIN_SAMPLES {
        ForecastPlan { basis: Basis::Live, interval: INTERVAL_SECONDS, horizon: LIVE_HORIZON }
    } else {
        ForecastPlan { basis: Basis::Archive, interval: HISTORY_INTERVAL_SECONDS, horizon: ARCHIVE_HORIZON }
    }
}

/// How a series of a given length is forecast.
#[derive(PartialEq, Eq, Structural, Debug, Clone, Copy)]
pub enum Method {
    /// Nothing to forecast: too few points, no horizon, or no positive step.
    Empty,
    /// Random walk with drift, while the series is too short to fit.
    RandomWalk,
    /// ARIMA(p,1,q) mean with GARCH(1,1) variance.
    Arima,
}

pub open spec fn method_for(len: nat, interval: int, horizon: nat) -> Method {
    if len < 2 || horizon == 0 || interval <= 0 {
        Method::Empty
    } else if len < MIN_SAMPLES {
        Method::RandomWalk
    } else {
        Method::Arima
    }
}

/// Decide how a series of `len` points, spaced `interval` seconds apart, is
/// forecast `horizon` steps ahead.
pub fn forecast_method(len: usize, interval: i64, horizon: usize) -> (r: Method)
    ensures
        r == method_for(len as nat, interval as int, horizon as nat),
{
    if len < 2 || horizon == 0 || interval <= 0 {
        Method::Empty
    } else if len < MIN_SAMPLES {
        Method::RandomWalk
    } else {
        Method::Arima
    }
}

/// A forecast: aligned mean path and 95% band, plus its tag.
#[derive(Clone, Debug, PartialEq)]
pub struct Forecast<P> {
    pub mean: Vec<(i64, P)>,
    pub lower: Vec<(i64, P)>,
    pub upper: Vec<(i64, P)>,
    pub label: String,
}

/// `values[k]` stamped with the `k`-th forecast instant after `last_ts`.
pub open spec fn stamped<P>(values: Seq<P>, last_ts: int, interval: int) -> Seq<(i64, P)> {
    Seq::new(values.len(), |k: int| ((last_ts + (k + 1) * interval) as i64, values[k]))
}

impl<P: Copy> Forecast<P> {
    /// No forecast: nothing drawn, empty tag.
    pub fn none() -> (r: Forecast<P>)
        ensures
            r.mean@.len() == 0,
            r.lower@.len() == 0,
            r.upper@.len() == 0,
            r.label@ == Seq::<char>::empty(),
    {
        Forecast { mean: Vec::new(), lower: Vec::new(), upper: Vec::new(), label: String::new() }
    }

    /// Put a forecast's mean and band values on the instants that follow the
    /// last sample, one step of `interval` apart.
    pub fn on_grid(
        last_ts: i64,
        interval: i64,
        mean: &[P],
        lower: &[P],
        upper: &[P],
        label: String,
    ) -> (r: Forecast<P>)
        requires
            interval > 0,
            lower@.len() == mean@.len(),
            upper@.len() == mean@.len(),
            last_ts + mean@.len() * interval <= i64::MAX,
        ensures
            r.mean@ == stamped(mean@, last_ts as int, interval as int),
            r.lower@ == stamped(lower@, last_ts as int, interval as int),
            r.upper@ == stamped(upper@, last_ts as int, interval as int),
            r.label == label,
    {
        let times = forecast_times(last_ts, interval, mean.len());
        let mut m: Vec<(i64, P)> = Vec::new();
        let mut lo: Vec<(i64, P)> = Vec::new();
        let mut hi: Vec<(i64, P)> = Vec::new();
        let mut k: usize = 0;
        while k < mean.len()
            invariant
                k <= mean@.len(),
                lower@.len() == mean@.len(),
                upper@.len() == mean@.len(),
                times@.len() == mean@.len(),
                forall|j: int| 0 <= j < mean@.len() ==> #[trigger] times@[j] == last_ts + (j + 1) * interval,
                m@ =~= stamped(mean@, last_ts as int, interval as int).take(k as int),
                lo@ =~= stamped(lower@, last_ts as int, interval as int).take(k as int),
                hi@ =~= stamped(upper@, last_ts as int, interval as int).take(k as int),
            decreases mean@.len() - k,
        {
            m.push((times[k], mean[k]));
            lo.push((times[k], lower[k]));
            hi.push((times[k], upper[k]));
            k = k + 1;
        }
        Forecast { mean: m, lower: lo, upper: hi, label }
    }

    /// The last forecast instant, which the chart's time domain must reach.
    pub fn end(&self) -> (r: Option<i64>)
        ensures
            r == if self.mean@.len() > 0 { Some(self.mean@.last().0) } else { None::<i64> },
    {
        if self.mean.len() > 0 {
            Some(self.mean[self.mean.len() - 1].0)
        } else {
            None
        }
    }
}

/// A plan's grid always matches its basis: the live feed is forecast 24
/// five-minute steps ahead, the archive 6 hourly steps ahead; and the archive
/// is chosen exactly while the live feed is short of 48 samples and the
/// archive is not.
pub proof fn lemma_plan_grid(live_len: nat, archive_len: nat)
    ensures
        plan_for(live_len, archive_len).basis == Basis::Archive
            <==> (live_len < 48 && archive_len >= 48),
        plan_for(live_len, archive_len).basis == Basis::Live ==> {
            &&& plan_for(live_len, archive_len).interval == 300
            &&& plan_for(live_len, archive_len).horizon == 24
        },
        plan_for(live_len, archive_len).basis == Basis::Archive ==> {
            &&& plan_for(live_len, archive_len).interval == 3600
            &&& plan_for(live_len, archive_len).horizon == 6
        },
{
}

/// A random walk stands in only when neither series can be fitted: whichever
/// series the plan picks is fitted by ARIMA-GARCH whenever the live feed or
/// the archive holds enough samples.
pub proof fn lemma_plan_fits_when_possible(live_len: nat, archive_len: nat)
    ensures
        ({
            let plan = plan_for(live_len, archive_len);
            let chosen = match plan.basis {
                Basis::Live => live_len,
                Basis::Archive => archive_len,
            };
            &&& (live_len >= MIN_SAMPLES || archive_len >= MIN_SAMPLES)
                ==> method_for(chosen, plan.interval as int, plan.horizon as nat) == Method::Arima
            &&& plan.basis == Basis::Archive ==> live_len < MIN_SAMPLES
        }),
{
}

/// A duration of `secs` seconds in whole hours ("2h") when it is a whole
/// number of hours, else in minutes ("90m"), quotients rounded toward zero.
pub open spec fn horizon_text(secs: int) -> Seq<char> {
    if secs % 3600 == 0 {
        signed_decimal(trunc_div(secs, 3600)) + seq!['h']
    } else {
        signed_decimal(trunc_div(secs, 60)) + seq!['m']
    }
}

/// Describe a horizon of `horizon` steps of `interval` seconds, for the tag
/// (the step count taken as an `i64`).
pub fn horizon_label(interval: i64, horizon: usize) -> (r: String)
    requires
        i64::MIN <= interval * (horizon as i64) <= i64::MAX,
    ensures
        r@ == horizon_text(interval * (horizon as i64)),
{
    let steps = horizon as i64;
    let secs: i64 = interval * steps;
    let neg = secs < 0;
    let mag: u64 = if neg { (0i128 - (secs as i128)) as u64 } else { secs as u64 };
    let whole_hours = mag % 3600 == 0;
    let unit: u64 = if whole_hours { 3600 } else { 60 };
    let q: u64 = mag / unit;
    let signed_q: i64 = if neg { 0i64 - (q as i64) } else { q as i64 };
    proof {
        let s = secs as int;
        if neg {
            assert((-s) % 3600 == 0 <==> s % 3600 == 0) by {
                vstd::arithmetic::div_mod::lemma_fundamental_div_mod(s, 3600);
                vstd::arithmetic::div_mod::lemma_fundamental_div_mod(-s, 3600);
                if s % 3600 == 0 {
                    assert(-s == 3600 * (-(s / 3600)));
                    vstd::arithmetic::div_mod::lemma_mod_multiples_basic(-(s / 3600), 3600);
                }
                if (-s) % 3600 == 0 {
                    assert(s == 3600 * (-((-s) / 3600)));
                    vstd::arithmetic::div_mod::lemma_mod_multiples_basic(-((-s) / 3600), 3600);
                }
            }
        }
    }
    let mut out = String::new();
    push_signed(&mut out, signed_q);
    if whole_hours {
        proof { reveal_strlit("h"); }
        out.append("h");
    } else {
        proof { reveal_strlit("m"); }
        out.append("m");
    }
    assert(out@ =~= horizon_text(interval * (horizon as i64)));
    out
}

/// Timestamps of a forecast: one per step after `last_ts`.
pub fn forecast_times(last_ts: i64, interval: i64, horizon: usize) -> (r: Vec<i64>)
    requires
        interval > 0,
        last_ts + horizon * interval <= i64::MAX,
    ensures
        r@.len() == horizon,
        forall|k: int| 0 <= k < horizon ==> #[trigger] r@[k] == last_ts + (k + 1) * interval,
{
    let mut out: Vec<i64> = Vec::new();
    let mut t: i64 = last_ts;
    let mut k: usize = 0;
    while k < horizon
        invariant
            interval > 0,
            k <= horizon,
            last_ts + horizon * interval <= i64::MAX,
            t == last_ts + k * interval,
            out@.len() == k,
            forall|j: int| 0 <= j < k ==> #[trigger] out@[j] == last_ts + (j + 1) * interval,
        decreases horizon - k,
    {
        assert((k + 1) * interval <= horizon * interval) by (nonlinear_arith)
            requires k < horizon, interval > 0;
        assert((k + 1) * interval == k * interval + interval) by (nonlinear_arith);
        t = t + interval;
        out.push(t);
        k = k + 1;
    }
    out
}

/// Forecast timestamps continue the series' grid: strictly increasing, one
/// step apart, starting one step after the last sample.
pub proof fn lemma_forecast_times_on_grid(last_ts: int, interval: int, times: Seq<i64>)
    requires
        interval > 0,
        forall|k: int| 0 <= k < times.len() ==> #[trigger] times[k] == last_ts + (k + 1) * interval,
    ensures
        times.len() > 0 ==> times[0] == last_ts + interval,
        forall|k: int| 0 <= k < times.len() - 1 ==> #[trigger] times[k + 1] == times[k] + interval,
        forall|i: int, j: int| 0 <= i < j < times.len() ==> times[i] < times[j],
{
    assert forall|k: int| 0 <= k < times.len() - 1 implies #[trigger] times[k + 1] == times[k] + interval by {
        assert((k + 2) * interval == (k + 1) * interval + interval) by (nonlinear_arith);
    }
    assert forall|i: int, j: int| 0 <= i < j < times.len() implies times[i] < times[j] by {
        assert((i + 1) * interval < (j + 1) * interval) by (nonlinear_arith)
            requires i < j, interval > 0;
    }
}

/// The tag of an ARIMA-GARCH fit.
pub open spec fn arima_text(p: nat, q: nat, basis: Seq<char>, secs: int) -> Seq<char> {
    "ARIMA("@ + decimal(p) + ",1,"@ + decimal(q) + ")·GARCH(1,1) · "@ + basis + " · next "@
        + horizon_text(secs) + " · 95% band"@
}

/// Tag a fitted ARIMA(p,1,q)·GARCH(1,1) forecast with its basis and horizon.
pub fn arima_label(p: usize, q: usize, basis: &str, interval: i64, horizon: usize) -> (r: String)
    requires
        i64::MIN <= interval * (horizon as i64) <= i64::MAX,
    ensures
        r@ == arima_text(p as nat, q as nat, basis@, interval * (horizon as i64)),
{
    let mut out = String::from_str("ARIMA(");
    push_decimal(&mut out, p as u64);
    out.append(",1,");
    push_decimal(&mut out, q as u64);
    out.append(")·GARCH(1,1) · ");
    out.append(basis);
    out.append(" · next ");
    let h = horizon_label(interval, horizon);
    out.append(h.as_str());
    out.append(" · 95% band");
    out
}

/// The tag of a random-walk stand-in.
pub open spec fn random_walk_text(basis: Seq<char>, n: nat) -> Seq<char> {
    "random walk + drift · "@ + basis + " · collecting history ("@ + decimal(n) + "/"@
        + decimal(MIN_SAMPLES as nat) + ")"@
}

/// Tag a random-walk forecast, showing how much history has been collected.
pub fn random_walk_label(basis: &str, n: usize) -> (r: String)
    ensures
        r@ == random_walk_text(basis@, n as nat),
{
    let mut out = String::from_str("random walk + drift · ");
    out.append(basis);
    out.append(" · collecting history (");
    push_decimal(&mut out, n as u64);
    out.append("/");
    push_decimal(&mut out, MIN_SAMPLES as u64);
    out.append(")");
    out
}

} // verus!
