use earnings_scheduler::calendar::Date;
use earnings_scheduler::strategy::Strategy;

fn d(y: i64, m: i64, day: i64) -> Date {
    Date::from_ymd(y, m, day).unwrap()
}

#[test]
fn shortest_call_opens_five_days_early_from_a_tuesday() {
    // 2018-05-08 is a Tuesday.
    let last = d(2018, 5, 8);
    assert_eq!(Strategy::Call3DaysBeforeEarnings.open_date(last), d(2018, 5, 3));
}

#[test]
fn shortest_call_opens_three_days_early_from_a_thursday() {
    // 2018-05-10 is a Thursday.
    let last = d(2018, 5, 10);
    assert_eq!(Strategy::Call3DaysBeforeEarnings.open_date(last), d(2018, 5, 7));
}

#[test]
fn shortest_strangle_offsets_by_weekday() {
    // Thursday still uses the longer offset for the strangle.
    assert_eq!(Strategy::Strangle4DaysBeforeEarnings.open_date(d(2018, 5, 10)), d(2018, 5, 4));
    // Friday uses the short offset.
    assert_eq!(Strategy::Strangle4DaysBeforeEarnings.open_date(d(2018, 5, 11)), d(2018, 5, 7));
}

#[test]
fn fixed_offset_calls_open_a_week_or_two_early() {
    let last = d(2018, 5, 10);
    assert_eq!(Strategy::Call7DaysBeforeEarnings.open_date(last), d(2018, 5, 3));
    assert_eq!(Strategy::Call14DaysBeforeEarnings.open_date(last), d(2018, 4, 26));
    assert_eq!(Strategy::Strangle7DaysBeforeEarnings.open_date(last), d(2018, 5, 3));
    assert_eq!(Strategy::Strangle14DaysBeforeEarnings.open_date(last), d(2018, 4, 26));
}

#[test]
fn post_earnings_strategies_open_on_the_next_trading_day() {
    // 2018-05-04 is a Friday, so the next trading day is Monday the 7th.
    let last = d(2018, 5, 4);
    assert_eq!(Strategy::PutSpreadAfterEarnings.open_date(last), d(2018, 5, 7));
    assert_eq!(Strategy::IronCondorAfterEarnings.open_date(last), d(2018, 5, 7));
    assert_eq!(Strategy::LongStraddleAfterEarnings.open_date(last), d(2018, 5, 7));
}

#[test]
fn pre_earnings_strategies_close_on_the_last_session() {
    let last = d(2018, 5, 10);
    assert_eq!(Strategy::Call3DaysBeforeEarnings.close_date(last), last);
    assert_eq!(Strategy::Strangle14DaysBeforeEarnings.close_date(last), last);
}

#[test]
fn post_earnings_closes_avoid_weekends() {
    let last = d(2018, 5, 4);
    // 22 days later is Saturday the 26th, pulled back to Friday the 25th.
    assert_eq!(Strategy::PutSpreadAfterEarnings.close_date(last), d(2018, 5, 25));
    // 32 days later is Tuesday June 5th, already a trading day.
    assert_eq!(Strategy::IronCondorAfterEarnings.close_date(last), d(2018, 6, 5));
    // 8 days later is Saturday the 12th, pulled back to Friday the 11th.
    assert_eq!(Strategy::LongStraddleAfterEarnings.close_date(last), d(2018, 5, 11));
}

#[test]
fn strategy_tags_parse() {
    assert_eq!(Strategy::from_name("call_3d_preearnings"), Some(Strategy::Call3DaysBeforeEarnings));
    assert_eq!(Strategy::from_name("call_7d_preearnings"), Some(Strategy::Call7DaysBeforeEarnings));
    assert_eq!(
        Strategy::from_name("call_14d_preearnings"),
        Some(Strategy::Call14DaysBeforeEarnings)
    );
    assert_eq!(
        Strategy::from_name("strangle_4d_preearnings"),
        Some(Strategy::Strangle4DaysBeforeEarnings)
    );
    assert_eq!(
        Strategy::from_name("strangle_7d_preearnings"),
        Some(Strategy::Strangle7DaysBeforeEarnings)
    );
    assert_eq!(
        Strategy::from_name("strangle_14d_preearnings"),
        Some(Strategy::Strangle14DaysBeforeEarnings)
    );
    assert_eq!(
        Strategy::from_name("put_spread_post_earnings"),
        Some(Strategy::PutSpreadAfterEarnings)
    );
    assert_eq!(
        Strategy::from_name("iron_condor_post_earnings"),
        Some(Strategy::IronCondorAfterEarnings)
    );
    assert_eq!(
        Strategy::from_name("long_straddle_post_earnings"),
        Some(Strategy::LongStraddleAfterEarnings)
    );
    assert_eq!(Strategy::from_name("straddle_now"), None);
    assert_eq!(Strategy::from_name(""), None);
}

#[test]
fn display_names() {
    assert_eq!(Strategy::Call3DaysBeforeEarnings.short_name(), "E-3 Call");
    assert_eq!(Strategy::IronCondorAfterEarnings.short_name(), "E+1 Iron Condor");
    assert_eq!(Strategy::Call3DaysBeforeEarnings.abbreviation(), "E-3C");
    assert_eq!(Strategy::LongStraddleAfterEarnings.abbreviation(), "E+1LS");
    assert_eq!(Strategy::Strangle7DaysBeforeEarnings.short_name(), "E-7 Strangle");
}

#[test]
fn strategy_groups() {
    let pre = Strategy::preearnings_strategies();
    assert_eq!(pre.len(), 6);
    assert_eq!(pre[0], Strategy::Call3DaysBeforeEarnings);
    assert_eq!(pre[5], Strategy::Strangle14DaysBeforeEarnings);
    let post = Strategy::postearnings_strategies();
    assert_eq!(post.len(), 3);
    assert_eq!(post[0], Strategy::PutSpreadAfterEarnings);
    assert_eq!(post[2], Strategy::LongStraddleAfterEarnings);
}
