use std::collections::BTreeSet;

use earnings_scheduler::calendar::Date;
use earnings_scheduler::earnings::{
    add_baseline_estimate, best_earnings_guess, best_earnings_guess_for_day, guess_is_fresh,
    AnnounceTime, EarningsDateTime, EarningsGuess, SourcedEarningsTime,
};

fn d(y: i64, m: i64, day: i64) -> Date {
    Date::from_ymd(y, m, day).unwrap()
}

fn est(source: &str, date: Date, time: AnnounceTime) -> SourcedEarningsTime {
    SourcedEarningsTime { datetime: EarningsDateTime { date, time }, source: source.to_string() }
}

fn sources_of(list: &[SourcedEarningsTime]) -> BTreeSet<String> {
    list.iter().map(|e| e.source.clone()).collect()
}

#[test]
fn last_session_shifts_before_market_announcements() {
    // A before-market announcement on Monday the 7th has its last session
    // on Friday the 4th.
    let e = EarningsDateTime { date: d(2018, 5, 7), time: AnnounceTime::BeforeMarket };
    assert_eq!(e.last_session(), (d(2018, 5, 4), false));

    let e = EarningsDateTime { date: d(2018, 5, 7), time: AnnounceTime::AfterMarket };
    assert_eq!(e.last_session(), (d(2018, 5, 7), false));

    let e = EarningsDateTime { date: d(2018, 5, 7), time: AnnounceTime::Unknown };
    assert_eq!(e.last_session(), (d(2018, 5, 7), true));
}

#[test]
fn unanimous_exact_reports_win_with_no_disagreements() {
    let day = d(2018, 5, 9);
    let dates = vec![
        est("FinViz", day, AnnounceTime::AfterMarket),
        est("Yahoo", day, AnnounceTime::AfterMarket),
        est("Zacks", day, AnnounceTime::AfterMarket),
    ];
    let today = d(2018, 5, 7);
    let g = best_earnings_guess_for_day(&dates, today).unwrap();
    assert_eq!(g.last_session, day);
    assert_eq!(g.concurrences.len(), 3);
    assert!(g.close_disagreements.is_empty());
    assert!(g.far_disagreements.is_empty());
}

#[test]
fn past_dates_are_never_selected() {
    // Three sources agree on a date before today; one lone source is in
    // the future.  The past date must not win despite its support.
    let past = d(2018, 4, 10);
    let future = d(2018, 5, 9);
    let dates = vec![
        est("FinViz", past, AnnounceTime::AfterMarket),
        est("Yahoo", past, AnnounceTime::AfterMarket),
        est("Zacks", past, AnnounceTime::AfterMarket),
        est("Estimize", future, AnnounceTime::AfterMarket),
    ];
    let today = d(2018, 5, 7);
    let g = best_earnings_guess_for_day(&dates, today).unwrap();
    assert_eq!(g.last_session, future);
    assert_eq!(sources_of(&g.concurrences), BTreeSet::from(["Estimize".to_string()]));
    // The past reporters all land in the far disagreements.
    assert_eq!(g.far_disagreements.len(), 3);
}

#[test]
fn all_past_dates_give_no_consensus() {
    let past = d(2018, 4, 10);
    let dates = vec![
        est("FinViz", past, AnnounceTime::AfterMarket),
        est("Yahoo", past, AnnounceTime::BeforeMarket),
    ];
    let today = d(2018, 5, 7);
    assert!(best_earnings_guess_for_day(&dates, today).is_none());
}

#[test]
fn empty_input_gives_no_consensus() {
    let dates: Vec<SourcedEarningsTime> = Vec::new();
    assert!(best_earnings_guess_for_day(&dates, d(2018, 5, 7)).is_none());
}

#[test]
fn ties_resolve_to_the_earliest_date() {
    // Two candidate sessions with equal support; the earlier one wins.
    let early = d(2018, 5, 9);
    let late = d(2018, 5, 16);
    let dates = vec![
        est("Yahoo", late, AnnounceTime::AfterMarket),
        est("Zacks", late, AnnounceTime::AfterMarket),
        est("FinViz", early, AnnounceTime::AfterMarket),
        est("Estimize", early, AnnounceTime::AfterMarket),
    ];
    let today = d(2018, 5, 7);
    let g = best_earnings_guess_for_day(&dates, today).unwrap();
    assert_eq!(g.last_session, early);
}

#[test]
fn fuzzy_estimates_extend_to_neighbouring_sessions() {
    // Three sources report after-market on Wednesday the 9th; a fourth has
    // an unknown announce time on Thursday the 10th, whose one-day
    // uncertainty reaches back to the 9th; the baseline reports
    // before-market on the 10th, whose last session is the 9th.
    let day = d(2018, 5, 9);
    let next = d(2018, 5, 10);
    let mut dates = vec![
        est("FinViz", day, AnnounceTime::AfterMarket),
        est("Yahoo", day, AnnounceTime::AfterMarket),
        est("Zacks", day, AnnounceTime::AfterMarket),
        est("Estimize", next, AnnounceTime::Unknown),
    ];
    add_baseline_estimate(&mut dates, EarningsDateTime {
        date: next,
        time: AnnounceTime::BeforeMarket,
    });
    assert_eq!(dates.len(), 5);
    assert_eq!(dates[4].source, "CML");

    let today = d(2018, 5, 7);
    let g = best_earnings_guess_for_day(&dates, today).unwrap();
    assert_eq!(g.last_session, day);

    // Every source appears in exactly one of the three lists.
    let conc = sources_of(&g.concurrences);
    let close = sources_of(&g.close_disagreements);
    let far = sources_of(&g.far_disagreements);
    assert!(conc.is_disjoint(&close));
    assert!(conc.is_disjoint(&far));
    assert!(close.is_disjoint(&far));
    let mut all = BTreeSet::new();
    all.extend(conc.iter().cloned());
    all.extend(close.iter().cloned());
    all.extend(far.iter().cloned());
    assert_eq!(all, sources_of(&dates));

    // The fuzzy source counts for the winning session itself.
    assert!(conc.contains("Estimize"));
    assert!(conc.contains("CML"));
}

#[test]
fn close_disagreements_sit_one_trading_day_away() {
    let day = d(2018, 5, 9);
    let dates = vec![
        est("FinViz", day, AnnounceTime::AfterMarket),
        est("Yahoo", day, AnnounceTime::AfterMarket),
        // One trading day after the winner.
        est("Zacks", d(2018, 5, 10), AnnounceTime::AfterMarket),
        // Far away from the winner.
        est("Estimize", d(2018, 5, 23), AnnounceTime::AfterMarket),
    ];
    let today = d(2018, 5, 7);
    let g = best_earnings_guess_for_day(&dates, today).unwrap();
    assert_eq!(g.last_session, day);
    assert_eq!(sources_of(&g.concurrences), sources_of(&dates[0..2]));
    assert_eq!(sources_of(&g.close_disagreements), BTreeSet::from(["Zacks".to_string()]));
    assert_eq!(sources_of(&g.far_disagreements), BTreeSet::from(["Estimize".to_string()]));
}

#[test]
fn duplicate_sources_are_not_double_counted_in_disagreements() {
    let day = d(2018, 5, 9);
    let dates = vec![
        est("FinViz", day, AnnounceTime::AfterMarket),
        est("Yahoo", day, AnnounceTime::AfterMarket),
        // The same source lands on both neighbours of the winner.
        est("Zacks", d(2018, 5, 8), AnnounceTime::AfterMarket),
        est("Zacks", d(2018, 5, 10), AnnounceTime::AfterMarket),
    ];
    let today = d(2018, 5, 7);
    let g = best_earnings_guess_for_day(&dates, today).unwrap();
    assert_eq!(g.last_session, day);
    assert_eq!(g.close_disagreements.len(), 1);
    assert_eq!(g.close_disagreements[0].source, "Zacks");
    assert!(g.far_disagreements.is_empty());
}

#[test]
fn clock_based_guess_accepts_a_far_future_estimate() {
    // Whatever today is, a consensus over a single far-future estimate
    // selects that date; this exercises the machine-clock path.
    let future = d(2190, 1, 4);
    let dates = vec![est("FinViz", future, AnnounceTime::AfterMarket)];
    let g = best_earnings_guess(&dates).unwrap();
    assert_eq!(g.last_session, future);
}

#[test]
fn clock_based_guess_rejects_a_long_past_estimate() {
    let past = d(1990, 1, 4);
    let dates = vec![est("FinViz", past, AnnounceTime::AfterMarket)];
    assert!(best_earnings_guess(&dates).is_none());
}

#[test]
fn freshness_compares_against_two_trading_days_back() {
    // Today is Monday the 7th; two trading days back is Thursday the 3rd.
    let today = d(2018, 5, 7);
    let guess_with = |last: Date| EarningsGuess {
        last_session: last,
        concurrences: Vec::new(),
        close_disagreements: Vec::new(),
        far_disagreements: Vec::new(),
    };
    assert!(guess_is_fresh(&guess_with(d(2018, 5, 3)), today));
    assert!(guess_is_fresh(&guess_with(d(2018, 5, 9)), today));
    assert!(!guess_is_fresh(&guess_with(d(2018, 5, 2)), today));
}
