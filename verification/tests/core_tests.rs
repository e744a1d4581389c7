use miso_lmp::chart::{
    drawable_segments, latest_point, legend, time_domain, visible, x_ticks, ChartData, LegendEntry,
    TimeDomain, ARCHIVE_MAX_GAP, LIVE_MAX_GAP,
};
use miso_lmp::feed::{reduce_feed, FeedError};
use miso_lmp::history::{expand, names_distinct_check, wire_fits_check, History, HistoryError, Wire};
use miso_lmp::live::{is_strictly_sorted, merge, retain_window, sort_by_ts, window_cutoff};
use miso_lmp::model::{
    arima_label, forecast_method, forecast_plan, forecast_times, horizon_label, random_walk_label,
    Basis, ForecastPlan, Method,
};
use miso_lmp::text::{
    archive_status, archive_unavailable, axis_label, clock_label, live_status, pretty,
    stamp_label, LocalTime,
};
use miso_lmp::types::{
    floor_interval, hub_series, hubs, is_hub, Snapshot, HISTORY_INTERVAL_SECONDS, INTERVAL_SECONDS,
    WINDOW_SECONDS,
};

fn snap(ts: i64, prices: &[(&str, f64)]) -> Snapshot<f64> {
    Snapshot {
        ts,
        prices: prices.iter().map(|(h, v)| (h.to_string(), *v)).collect(),
    }
}

fn stamps(list: &[Snapshot<f64>]) -> Vec<i64> {
    list.iter().map(|s| s.ts).collect()
}

// ----- intervals -----

#[test]
fn floor_interval_aligns_to_five_minutes() {
    assert_eq!(floor_interval(1_000_123), 999_900);
    assert_eq!(floor_interval(999_900), 999_900);
    assert_eq!(floor_interval(0), 0);
    assert_eq!(floor_interval(299), 0);
    assert_eq!(floor_interval(-1), -300);
    assert_eq!(floor_interval(-300), -300);
    assert_eq!(INTERVAL_SECONDS, 300);
    assert_eq!(HISTORY_INTERVAL_SECONDS, 3600);
    assert_eq!(WINDOW_SECONDS, 3 * 24 * 60 * 60);
}

#[test]
fn floor_interval_is_stable_within_an_interval() {
    let b = floor_interval(1_700_000_123);
    for u in b..b + INTERVAL_SECONDS {
        assert_eq!(floor_interval(u), b);
    }
    assert_eq!(floor_interval(b), b);
}

// ----- hubs and snapshots -----

#[test]
fn hub_list_and_membership() {
    let h = hubs();
    assert_eq!(
        h,
        vec![
            "ARKANSAS.HUB",
            "ILLINOIS.HUB",
            "INDIANA.HUB",
            "LOUISIANA.HUB",
            "MICHIGAN.HUB",
            "MINN.HUB",
            "MS.HUB",
            "TEXAS.HUB"
        ]
    );
    assert!(is_hub("MINN.HUB"));
    assert!(is_hub("TEXAS.HUB"));
    assert!(!is_hub("MINN"));
    assert!(!is_hub("AMIL.BALDWIN"));
    assert!(!is_hub(""));
}

#[test]
fn lmp_takes_first_listing_of_a_hub() {
    let s = snap(600, &[("MS.HUB", 21.5), ("TEXAS.HUB", -3.25), ("MS.HUB", 99.0)]);
    assert_eq!(s.lmp("MS.HUB"), Some(21.5));
    assert_eq!(s.lmp("TEXAS.HUB"), Some(-3.25));
    assert_eq!(s.lmp("MINN.HUB"), None);
}

#[test]
fn hub_series_keeps_priced_snapshots_in_order() {
    let snaps = vec![
        snap(300, &[("MS.HUB", 1.0)]),
        snap(600, &[("TEXAS.HUB", 2.0)]),
        snap(900, &[("MS.HUB", 3.0), ("TEXAS.HUB", 4.0)]),
    ];
    assert_eq!(hub_series(&snaps, "MS.HUB"), vec![(300, 1.0), (900, 3.0)]);
    assert_eq!(hub_series(&snaps, "TEXAS.HUB"), vec![(600, 2.0), (900, 4.0)]);
    assert!(hub_series(&snaps, "MINN.HUB").is_empty());
}

// ----- live window -----

#[test]
fn merge_inserts_in_timestamp_order() {
    let now = 1_000_000;
    let mut list = vec![snap(now - 900, &[("MS.HUB", 1.0)]), snap(now - 300, &[("MS.HUB", 3.0)])];
    merge(&mut list, snap(now - 600, &[("MS.HUB", 2.0)]), now);
    assert_eq!(stamps(&list), vec![now - 900, now - 600, now - 300]);
    merge(&mut list, snap(now, &[("MS.HUB", 4.0)]), now);
    assert_eq!(stamps(&list), vec![now - 900, now - 600, now - 300, now]);
    merge(&mut list, snap(now - 1200, &[("MS.HUB", 0.0)]), now);
    assert_eq!(stamps(&list), vec![now - 1200, now - 900, now - 600, now - 300, now]);
}

#[test]
fn merge_overwrites_the_same_interval() {
    let now = 1_000_000;
    let mut list = vec![snap(now - 300, &[("MS.HUB", 1.0)]), snap(now, &[("MS.HUB", 2.0)])];
    merge(&mut list, snap(now - 300, &[("MS.HUB", 1.5)]), now);
    assert_eq!(stamps(&list), vec![now - 300, now]);
    assert_eq!(list[0].lmp("MS.HUB"), Some(1.5));
    // A second re-fetch of the interval wins again.
    merge(&mut list, snap(now - 300, &[("MS.HUB", 1.75)]), now);
    assert_eq!(stamps(&list), vec![now - 300, now]);
    assert_eq!(list[0].lmp("MS.HUB"), Some(1.75));
}

#[test]
fn merge_is_idempotent() {
    let now = 1_000_000;
    let mut a = vec![snap(now - 600, &[("MS.HUB", 1.0)])];
    merge(&mut a, snap(now, &[("MS.HUB", 2.0)]), now);
    let once = stamps(&a);
    merge(&mut a, snap(now, &[("MS.HUB", 2.0)]), now);
    assert_eq!(stamps(&a), once);
    assert_eq!(a[1].lmp("MS.HUB"), Some(2.0));
}

#[test]
fn merge_trims_to_the_window() {
    let now = 10_000_000;
    let cutoff = now - WINDOW_SECONDS;
    let mut list = vec![
        snap(cutoff - 300, &[("MS.HUB", 1.0)]),
        snap(cutoff, &[("MS.HUB", 2.0)]),
        snap(cutoff + 300, &[("MS.HUB", 3.0)]),
    ];
    merge(&mut list, snap(now, &[("MS.HUB", 4.0)]), now);
    assert_eq!(stamps(&list), vec![cutoff, cutoff + 300, now]);
    // A snapshot older than the window is not kept.
    merge(&mut list, snap(cutoff - 600, &[("MS.HUB", 5.0)]), now);
    assert_eq!(stamps(&list), vec![cutoff, cutoff + 300, now]);
}

#[test]
fn window_cutoff_is_three_days_back() {
    assert_eq!(window_cutoff(1_000_000), 1_000_000 - 259_200);
}

#[test]
fn retain_window_keeps_order_and_recent() {
    let now = 10_000_000;
    let cutoff = now - WINDOW_SECONDS;
    let list = vec![
        snap(cutoff + 600, &[]),
        snap(cutoff - 1, &[]),
        snap(cutoff, &[]),
        snap(now, &[]),
    ];
    let kept = retain_window(list, now);
    assert_eq!(stamps(&kept), vec![cutoff + 600, cutoff, now]);
}

#[test]
fn sort_by_ts_is_stable() {
    let list = vec![
        snap(900, &[("A", 1.0)]),
        snap(300, &[("B", 2.0)]),
        snap(900, &[("C", 3.0)]),
        snap(600, &[("D", 4.0)]),
        snap(300, &[("E", 5.0)]),
    ];
    let sorted = sort_by_ts(list);
    assert_eq!(stamps(&sorted), vec![300, 300, 600, 900, 900]);
    let names: Vec<&str> = sorted.iter().map(|s| s.prices[0].0.as_str()).collect();
    assert_eq!(names, vec!["B", "E", "D", "A", "C"]);
    assert!(sort_by_ts(Vec::<Snapshot<f64>>::new()).is_empty());
}

// ----- feed -----

#[test]
fn reduce_feed_keeps_hubs_in_feed_order() {
    let lmp = vec![10.0, 20.0, 30.0, 40.0];
    let loc: Vec<String> = ["TEXAS.HUB", "AMIL.X", "ARKANSAS.HUB", "MS"]
        .iter()
        .map(|s| s.to_string())
        .collect();
    let s = reduce_feed(&lmp, &loc, 1_000_123).unwrap();
    assert_eq!(s.ts, 999_900);
    assert_eq!(
        s.prices,
        vec![("TEXAS.HUB".to_string(), 10.0), ("ARKANSAS.HUB".to_string(), 30.0)]
    );
}

#[test]
fn reduce_feed_rejects_mismatched_arrays() {
    let lmp = vec![1.0, 2.0];
    let loc = vec!["MS.HUB".to_string()];
    let e = reduce_feed(&lmp, &loc, 0).unwrap_err();
    assert_eq!(e, FeedError::LengthMismatch);
    assert_eq!(e.message(), "malformed MISO payload (array length mismatch)");
}

#[test]
fn reduce_feed_rejects_a_feed_without_hubs() {
    let lmp = vec![1.0];
    let loc = vec!["AMIL.X".to_string()];
    let e = reduce_feed(&lmp, &loc, 0).unwrap_err();
    assert_eq!(e, FeedError::NoHubRows);
    assert_eq!(e.message(), "no HUB rows found in MISO feed");
    let empty: Vec<f64> = Vec::new();
    assert_eq!(reduce_feed(&empty, &[], 0).unwrap_err(), FeedError::NoHubRows);
}

// ----- archive -----

fn wire(interval: i64) -> Wire<f64> {
    Wire {
        interval_seconds: interval,
        t0: 1_000_000,
        n: 3,
        rt_end: 1_007_200,
        da: vec![("MS.HUB".to_string(), vec![Some(1.0), Some(2.0), Some(3.0), Some(4.0)])],
        rt: vec![
            ("MS.HUB".to_string(), vec![Some(5.0), None, Some(7.0)]),
            ("TEXAS.HUB".to_string(), vec![Some(8.0)]),
        ],
    }
}

#[test]
fn expand_places_columns_on_the_grid() {
    let col = vec![Some(1.0), None, Some(3.0), Some(4.0)];
    assert_eq!(expand(&col, 100, 3600, 10), vec![(100, 1.0), (7300, 3.0), (10900, 4.0)]);
    assert_eq!(expand(&col, 100, 3600, 3), vec![(100, 1.0), (7300, 3.0)]);
    assert!(expand(&col, 100, 3600, 0).is_empty());
}

#[test]
fn history_from_wire_expands_every_column() {
    let h = History::from_wire(wire(3600)).unwrap();
    assert_eq!(h.interval, 3600);
    assert_eq!(h.rt_end, 1_007_200);
    assert_eq!(h.rt_series("MS.HUB"), &[(1_000_000, 5.0), (1_007_200, 7.0)][..]);
    assert_eq!(h.rt_series("TEXAS.HUB"), &[(1_000_000, 8.0)][..]);
    assert_eq!(
        h.da_series("MS.HUB"),
        &[(1_000_000, 1.0), (1_003_600, 2.0), (1_007_200, 3.0)][..]
    );
    assert!(h.da_series("TEXAS.HUB").is_empty());
    assert!(h.rt_series("MINN.HUB").is_empty());
    // MS.HUB spans 1_000_000..=1_007_200 with the middle hour missing.
    assert_eq!(h.hours(), 3);
}

#[test]
fn history_rejects_non_positive_interval() {
    assert_eq!(History::from_wire(wire(0)).err(), Some(HistoryError::NonPositiveInterval));
    assert_eq!(History::from_wire(wire(-60)).err(), Some(HistoryError::NonPositiveInterval));
    assert_eq!(
        HistoryError::NonPositiveInterval.message(),
        "history asset has a non-positive interval"
    );
}

#[test]
fn hours_count_the_span_not_the_points() {
    let w = Wire {
        interval_seconds: 3600,
        t0: 0,
        n: 10,
        rt_end: 7200,
        da: vec![],
        rt: vec![
            ("A".to_string(), vec![Some(1.0), None, Some(2.0)]),
            ("B".to_string(), vec![None, Some(1.0)]),
            ("C".to_string(), vec![None, None]),
        ],
    };
    let h = History::from_wire(w).unwrap();
    assert_eq!(h.rt_series("A"), &[(0, 1.0), (7200, 2.0)][..]);
    assert_eq!(h.hours(), 3);
}

#[test]
fn hub_names_must_be_distinct() {
    let cols = vec![("A".to_string(), 1), ("B".to_string(), 2)];
    assert!(names_distinct_check(&cols));
    let cols = vec![("A".to_string(), 1), ("B".to_string(), 2), ("A".to_string(), 3)];
    assert!(!names_distinct_check(&cols));
    let none: Vec<(String, i32)> = Vec::new();
    assert!(names_distinct_check(&none));
}

#[test]
fn strict_order_check() {
    assert!(is_strictly_sorted(&vec![snap(0, &[]), snap(300, &[]), snap(600, &[])]));
    assert!(!is_strictly_sorted(&vec![snap(0, &[]), snap(300, &[]), snap(300, &[])]));
    assert!(!is_strictly_sorted(&vec![snap(600, &[]), snap(300, &[])]));
    assert!(is_strictly_sorted(&Vec::<Snapshot<f64>>::new()));
    assert!(is_strictly_sorted(&vec![snap(5, &[])]));
}

#[test]
fn empty_history_has_nothing() {
    let h: History<f64> = History::default();
    assert_eq!(h.hours(), 0);
    assert!(h.rt_series("MS.HUB").is_empty());
    assert!(h.da_series("MS.HUB").is_empty());
}

#[test]
fn wire_fits_detects_overflowing_grids() {
    assert!(wire_fits_check(&wire(3600)));
    let mut w = wire(3600);
    w.t0 = i64::MAX - 10;
    assert!(!wire_fits_check(&w));
    let mut w = wire(i64::MAX);
    w.t0 = 0;
    assert!(!wire_fits_check(&w));
}

// ----- forecast planning -----

#[test]
fn plan_prefers_live_once_it_can_be_fitted() {
    let live = ForecastPlan { basis: Basis::Live, interval: 300, horizon: 24 };
    let archive = ForecastPlan { basis: Basis::Archive, interval: 3600, horizon: 6 };
    assert_eq!(forecast_plan(48, 720), live);
    assert_eq!(forecast_plan(47, 720), archive);
    assert_eq!(forecast_plan(0, 48), archive);
    assert_eq!(forecast_plan(10, 47), live);
    assert_eq!(forecast_plan(0, 0), live);
    assert_eq!(Basis::Live.name(), "5-min live");
    assert_eq!(Basis::Archive.name(), "hourly archive");
}

#[test]
fn method_depends_on_length_interval_and_horizon() {
    assert_eq!(forecast_method(1, 300, 24), Method::Empty);
    assert_eq!(forecast_method(100, 300, 0), Method::Empty);
    assert_eq!(forecast_method(100, 0, 24), Method::Empty);
    assert_eq!(forecast_method(2, 300, 24), Method::RandomWalk);
    assert_eq!(forecast_method(47, 300, 24), Method::RandomWalk);
    assert_eq!(forecast_method(48, 300, 24), Method::Arima);
}

#[test]
fn horizon_labels() {
    assert_eq!(horizon_label(300, 24), "2h");
    assert_eq!(horizon_label(3600, 6), "6h");
    assert_eq!(horizon_label(300, 5), "25m");
    assert_eq!(horizon_label(300, 0), "0h");
    assert_eq!(horizon_label(-300, 1), "-5m");
    assert_eq!(horizon_label(-3600, 2), "-2h");
    assert_eq!(horizon_label(-30, 1), "0m");
}

#[test]
fn forecast_times_step_forward_from_the_last_sample() {
    assert_eq!(forecast_times(1_000, 300, 3), vec![1_300, 1_600, 1_900]);
    assert!(forecast_times(1_000, 300, 0).is_empty());
}

#[test]
fn forecast_labels() {
    assert_eq!(
        arima_label(2, 1, "5-min live", 300, 24),
        "ARIMA(2,1,1)·GARCH(1,1) · 5-min live · next 2h · 95% band"
    );
    assert_eq!(
        random_walk_label("hourly archive", 12),
        "random walk + drift · hourly archive · collecting history (12/48)"
    );
}

// ----- chart -----

#[test]
fn visible_keeps_points_inside_the_domain() {
    let pts = vec![(100, 1.0), (200, 2.0), (300, 3.0), (400, 4.0)];
    assert_eq!(visible(&pts, 200, 300), vec![(200, 2.0), (300, 3.0)]);
    assert!(visible(&pts, 500, 600).is_empty());
}

#[test]
fn time_domain_rules() {
    let now = 1_000_000;
    // Range back from now, trimmed to the first sample.
    assert_eq!(
        time_domain(now, 86_400, None, Some(now - 20_000), Some(now - 5_000)),
        TimeDomain { t_min: now - 20_000, t_max: now }
    );
    // Range shorter than the data.
    assert_eq!(
        time_domain(now, 7_200, None, Some(now - 20_000), None),
        TimeDomain { t_min: now - 7_200, t_max: now }
    );
    // Forecast extends the right edge.
    assert_eq!(
        time_domain(now, 7_200, Some(now + 7_200), None, None),
        TimeDomain { t_min: now - 7_200, t_max: now + 7_200 }
    );
    // Never narrower than an hour.
    assert_eq!(
        time_domain(now, 86_400, None, None, Some(now - 60)),
        TimeDomain { t_min: now - 3_600, t_max: now }
    );
}

#[test]
fn x_ticks_split_the_domain_evenly() {
    assert_eq!(x_ticks(0, 600), vec![0, 100, 200, 300, 400, 500, 600]);
    assert_eq!(x_ticks(10, 17), vec![10, 11, 12, 13, 14, 15, 17]);
}

#[test]
fn gaps_are_not_drawn() {
    let pts = vec![(0, 1.0), (300, 2.0), (600, 3.0), (3_600, 4.0), (3_900, 5.0)];
    assert_eq!(drawable_segments(&pts, LIVE_MAX_GAP), vec![0, 1, 3]);
    assert_eq!(drawable_segments(&pts, ARCHIVE_MAX_GAP), vec![0, 1, 2, 3]);
    assert!(drawable_segments(&pts[..1], LIVE_MAX_GAP).is_empty());
    // Live samples 10 minutes apart leave a gap.
    let sparse = vec![(0, 1.0), (600, 2.0), (900, 3.0)];
    assert_eq!(drawable_segments(&sparse, LIVE_MAX_GAP), vec![1]);
    assert_eq!(LIVE_MAX_GAP, INTERVAL_SECONDS);
    assert_eq!(ARCHIVE_MAX_GAP, HISTORY_INTERVAL_SECONDS);
    let none: Vec<(i64, f64)> = Vec::new();
    assert!(drawable_segments(&none, LIVE_MAX_GAP).is_empty());
}

#[test]
fn latest_point_prefers_live() {
    let live = vec![(100, 1.0), (200, 2.0)];
    let arch = vec![(50, 9.0)];
    assert_eq!(latest_point(&live, &arch), Some((200, 2.0)));
    assert_eq!(latest_point(&[], &arch), Some((50, 9.0)));
    assert_eq!(latest_point::<f64>(&[], &[]), None);
}

#[test]
fn legend_lists_what_was_drawn() {
    assert_eq!(
        legend(true, true, true, true),
        vec![
            LegendEntry::LiveRealTime,
            LegendEntry::SettledRealTime,
            LegendEntry::DayAhead,
            LegendEntry::Forecast
        ]
    );
    assert_eq!(legend(false, true, false, true), vec![LegendEntry::SettledRealTime, LegendEntry::Forecast]);
    assert!(legend(false, false, false, false).is_empty());
    assert_eq!(LegendEntry::LiveRealTime.label(), "real-time · live 5-min");
    assert_eq!(LegendEntry::SettledRealTime.label(), "real-time · settled hourly");
    assert_eq!(LegendEntry::DayAhead.label(), "day-ahead · settled hourly");
    assert_eq!(LegendEntry::Forecast.label(), "forecast · 95% band");
}

#[test]
fn chart_window_cuts_series_to_the_domain() {
    let now = 1_000_000;
    let arch = vec![(now - 90_000, 1.0), (now - 7_200, 2.0), (now - 3_600, 3.0)];
    let live = vec![(now - 600, 4.0), (now, 5.0)];
    let da = vec![(now - 90_000, 6.0), (now - 3_600, 7.0)];
    let data = ChartData { rt_archive: &arch, rt_live: &live, da_archive: Some(&da), range_secs: 86_400 };
    let w = data.window(now, Some(now + 7_200)).unwrap();
    assert_eq!(w.domain, TimeDomain { t_min: now - 86_400, t_max: now + 7_200 });
    assert_eq!(w.archive, vec![(now - 7_200, 2.0), (now - 3_600, 3.0)]);
    assert_eq!(w.live, live);
    assert_eq!(w.day_ahead, vec![(now - 3_600, 7.0)]);

    let data = ChartData { rt_archive: &arch[..1], rt_live: &[], da_archive: None, range_secs: 3_600 };
    assert!(data.window(now, None).is_none());
}

// ----- text -----

#[test]
fn pretty_drops_the_hub_suffix() {
    assert_eq!(pretty("ARKANSAS.HUB"), "ARKANSAS");
    assert_eq!(pretty("MS.HUB"), "MS");
    assert_eq!(pretty("X.HUB.HUB"), "X");
    assert_eq!(pretty("NOHUB"), "NOHUB");
    assert_eq!(pretty(".HUB"), "");
}

#[test]
fn clock_and_date_labels() {
    let t = LocalTime { month0: 8, day: 3, hours: 23, minutes: 5, seconds: 7 };
    assert_eq!(clock_label(&t), "23:05:07");
    assert_eq!(stamp_label(&t), "9/3 23:05");
    assert_eq!(axis_label(&t, true), "9/3 23:05");
    assert_eq!(axis_label(&t, false), "23:05");
    let midnight = LocalTime { month0: 11, day: 31, hours: 0, minutes: 0, seconds: 0 };
    assert_eq!(clock_label(&midnight), "00:00:00");
    assert_eq!(stamp_label(&midnight), "12/31 00:00");
}

#[test]
fn status_lines() {
    assert_eq!(live_status(12, "10:00:00"), "12 live samples · updated 10:00:00");
    assert_eq!(archive_status(720, "9/3 23:00"), "archive: 720 h settled through 9/3 23:00");
    assert_eq!(archive_unavailable("network error: x"), "archive unavailable (network error: x)");
    assert_eq!(live_status(0, "00:00:00"), "0 live samples · updated 00:00:00");
    assert_eq!(archive_status(1_234_567_890, "x"), "archive: 1234567890 h settled through x");
}
