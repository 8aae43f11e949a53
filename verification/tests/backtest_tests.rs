use earnings_scheduler::backtest::{
    best_only_choice, get_best_test, get_best_test_per_strategy, test_passes_filter,
    BacktestParseError, BacktestResult, BacktestResultInput,
};
use earnings_scheduler::calendar::Date;
use earnings_scheduler::earnings::{AnnounceTime, EarningsDateTime};
use earnings_scheduler::strategy::Strategy;

fn d(y: i64, m: i64, day: i64) -> Date {
    Date::from_ymd(y, m, day).unwrap()
}

fn input(next_earnings: &str, win_rate: &str, avg: &str, total: &str) -> BacktestResultInput {
    BacktestResultInput {
        symbol: "AAPL".to_string(),
        wins: 5,
        losses: 2,
        win_rate: win_rate.to_string(),
        avg_trade_return: avg.to_string(),
        total_return: total.to_string(),
        backtest_length: 12,
        next_earnings: next_earnings.to_string(),
        strategy: Strategy::Call3DaysBeforeEarnings,
    }
}

fn result(symbol: &str, avg: i32, strategy: Strategy) -> BacktestResult {
    BacktestResult {
        symbol: symbol.to_string(),
        wins: 1,
        losses: 1,
        win_rate: 50,
        avg_trade_return: avg,
        total_return: avg,
        backtest_length: 4,
        next_earnings: EarningsDateTime { date: d(2018, 5, 9), time: AnnounceTime::Unknown },
        strategy,
    }
}

#[test]
fn a_clean_row_parses() {
    let b = BacktestResult::from_input(input("2018\u{2011}05\u{2011}09", "71%", "12%", "84%"))
        .unwrap();
    assert_eq!(b.next_earnings.date, d(2018, 5, 9));
    assert!(matches!(b.next_earnings.time, AnnounceTime::Unknown));
    assert_eq!(b.win_rate, 71);
    assert_eq!(b.avg_trade_return, 12);
    assert_eq!(b.total_return, 84);
    assert_eq!(b.symbol, "AAPL");
    assert_eq!(b.wins, 5);
    assert_eq!(b.losses, 2);
    assert_eq!(b.backtest_length, 12);
    assert_eq!(b.strategy, Strategy::Call3DaysBeforeEarnings);
}

#[test]
fn the_not_verified_marker_is_dropped() {
    let b = BacktestResult::from_input(input(
        "2018\u{2011}05\u{2011}09Not Verified",
        "71%",
        "12%",
        "84%",
    ))
    .unwrap();
    assert_eq!(b.next_earnings.date, d(2018, 5, 9));
}

#[test]
fn negative_returns_parse_with_either_dash() {
    let b = BacktestResult::from_input(input("2018\u{2011}05\u{2011}09", "-5%", "\u{2011}12%", "-84%"))
        .unwrap();
    assert_eq!(b.win_rate, -5);
    assert_eq!(b.avg_trade_return, -12);
    assert_eq!(b.total_return, -84);
}

#[test]
fn a_bad_date_is_the_first_error_reported() {
    let e = BacktestResult::from_input(input("soon", "oops", "oops", "oops")).unwrap_err();
    assert_eq!(e, BacktestParseError::BadNextEarnings);
    let e = BacktestResult::from_input(input("2018-05-09", "71%", "12%", "84%")).unwrap_err();
    // Plain hyphens do not separate date fields; the rows use the
    // non-breaking hyphen.
    assert_eq!(e, BacktestParseError::BadNextEarnings);
    let e = BacktestResult::from_input(input("2019\u{2011}02\u{2011}29", "71%", "12%", "84%"))
        .unwrap_err();
    assert_eq!(e, BacktestParseError::BadNextEarnings);
}

#[test]
fn each_percentage_field_reports_its_own_error() {
    let good = "2018\u{2011}05\u{2011}09";
    let e = BacktestResult::from_input(input(good, "none", "12%", "84%")).unwrap_err();
    assert_eq!(e, BacktestParseError::BadWinRate);
    let e = BacktestResult::from_input(input(good, "71%", "none", "84%")).unwrap_err();
    assert_eq!(e, BacktestParseError::BadAvgTradeReturn);
    let e = BacktestResult::from_input(input(good, "71%", "12%", "none")).unwrap_err();
    assert_eq!(e, BacktestParseError::BadTotalReturn);
}

#[test]
fn a_dash_inside_the_digits_fails_the_field() {
    let good = "2018\u{2011}05\u{2011}09";
    let e = BacktestResult::from_input(input(good, "7-1%", "12%", "84%")).unwrap_err();
    assert_eq!(e, BacktestParseError::BadWinRate);
}

#[test]
fn stats_prints_the_return_and_the_record() {
    let r = result("AAPL", 12, Strategy::Call3DaysBeforeEarnings);
    let mut r = r;
    r.wins = 5;
    r.losses = 2;
    assert_eq!(r.stats(), "(12%,5/2)");
    r.avg_trade_return = -3;
    r.wins = 0;
    r.losses = 1;
    assert_eq!(r.stats(), "(-3%,0/1)");
}

#[test]
fn sort_key_is_the_average_trade_return() {
    assert_eq!(result("A", 17, Strategy::Call3DaysBeforeEarnings).sort_key(), 17);
    assert_eq!(result("A", -4, Strategy::Call3DaysBeforeEarnings).sort_key(), -4);
}

#[test]
fn best_test_takes_the_first_maximum() {
    let tests = vec![
        result("A", 1, Strategy::Call3DaysBeforeEarnings),
        result("A", 5, Strategy::Call7DaysBeforeEarnings),
        result("A", 5, Strategy::Call14DaysBeforeEarnings),
        result("A", 3, Strategy::Strangle4DaysBeforeEarnings),
    ];
    assert_eq!(get_best_test(&tests), 1);
    let empty: Vec<BacktestResult> = Vec::new();
    assert_eq!(get_best_test(&empty), 0);
}

#[test]
fn best_test_per_strategy_keeps_one_entry_per_strategy() {
    let tests = vec![
        result("A", 10, Strategy::Call3DaysBeforeEarnings),
        result("A", 20, Strategy::Call7DaysBeforeEarnings),
        result("A", 30, Strategy::Call3DaysBeforeEarnings),
        result("A", 5, Strategy::Call7DaysBeforeEarnings),
    ];
    let best = get_best_test_per_strategy(&tests);
    assert_eq!(best.len(), 2);
    let call3 = best.iter().find(|e| e.0 == Strategy::Call3DaysBeforeEarnings).unwrap();
    assert_eq!(call3.1, 2);
    let call7 = best.iter().find(|e| e.0 == Strategy::Call7DaysBeforeEarnings).unwrap();
    assert_eq!(call7.1, 1);
}

#[test]
fn best_test_per_strategy_breaks_ties_on_the_first_entry() {
    let tests = vec![
        result("A", 10, Strategy::Call3DaysBeforeEarnings),
        result("A", 10, Strategy::Call3DaysBeforeEarnings),
    ];
    let best = get_best_test_per_strategy(&tests);
    assert_eq!(best.len(), 1);
    assert_eq!(best[0], (Strategy::Call3DaysBeforeEarnings, 0));
}

#[test]
fn the_filter_honours_strategy_and_date_window() {
    let t = result("A", 1, Strategy::Call3DaysBeforeEarnings);
    let none: Vec<Strategy> = Vec::new();
    assert!(test_passes_filter(&t, &none, None, None));
    assert!(test_passes_filter(&t, &vec![Strategy::Call3DaysBeforeEarnings], None, None));
    assert!(!test_passes_filter(&t, &vec![Strategy::Call7DaysBeforeEarnings], None, None));
    // The test's date is 2018-05-09.
    assert!(test_passes_filter(&t, &none, Some(d(2018, 5, 9)), Some(d(2018, 5, 9))));
    assert!(!test_passes_filter(&t, &none, Some(d(2018, 5, 10)), None));
    assert!(!test_passes_filter(&t, &none, None, Some(d(2018, 5, 8))));
}

#[test]
fn best_only_defaults_follow_the_presets_and_overrides() {
    assert!(!best_only_choice(false, false, false, false));
    assert!(best_only_choice(true, false, false, false));
    assert!(!best_only_choice(true, true, false, false));
    assert!(best_only_choice(true, true, true, false));
    assert!(!best_only_choice(true, false, false, true));
    assert!(best_only_choice(false, false, true, true));
}
