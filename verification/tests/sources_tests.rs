use earnings_scheduler::calendar::Date;
use earnings_scheduler::earnings::{AnnounceTime, EarningsDateTime};
use earnings_scheduler::sources::{all_sources, surviving_estimates, EarningsSource};

fn d(y: i64, m: i64, day: i64) -> Date {
    Date::from_ymd(y, m, day).unwrap()
}

#[test]
fn the_registry_polls_four_sources() {
    let all = all_sources();
    assert_eq!(
        all,
        vec![
            EarningsSource::FinViz,
            EarningsSource::Yahoo,
            EarningsSource::Zacks,
            EarningsSource::Estimize,
        ]
    );
}

#[test]
fn source_names() {
    assert_eq!(EarningsSource::FinViz.name(), "FinViz");
    assert_eq!(EarningsSource::Yahoo.name(), "Yahoo");
    assert_eq!(EarningsSource::Zacks.name(), "Zacks");
    assert_eq!(EarningsSource::Estimize.name(), "Estimize");
}

#[test]
fn quote_page_addresses() {
    assert_eq!(EarningsSource::FinViz.url_for("AAPL"), "https://finviz.com/quote.ashx?t=AAPL");
    assert_eq!(EarningsSource::Yahoo.url_for("MSFT"), "https://finance.yahoo.com/quote/MSFT");
    assert_eq!(EarningsSource::Zacks.url_for("IBM"), "https://www.zacks.com/stock/quote/IBM");
    assert_eq!(EarningsSource::Estimize.url_for("TSLA"), "https://www.estimize.com/TSLA");
}

#[test]
fn failed_and_empty_fetches_are_dropped() {
    let when = EarningsDateTime { date: d(2018, 5, 9), time: AnnounceTime::AfterMarket };
    let later = EarningsDateTime { date: d(2018, 5, 10), time: AnnounceTime::Unknown };
    let outcomes = vec![
        (EarningsSource::FinViz, Some(when)),
        (EarningsSource::Yahoo, None),
        (EarningsSource::Zacks, Some(later)),
        (EarningsSource::Estimize, None),
    ];
    let kept = surviving_estimates(&outcomes);
    assert_eq!(kept.len(), 2);
    assert_eq!(kept[0].source, "FinViz");
    assert_eq!(kept[0].datetime, when);
    assert_eq!(kept[1].source, "Zacks");
    assert_eq!(kept[1].datetime, later);
}

#[test]
fn an_all_failed_round_survives_nothing() {
    let outcomes = vec![(EarningsSource::FinViz, None), (EarningsSource::Yahoo, None)];
    assert!(surviving_estimates(&outcomes).is_empty());
}
