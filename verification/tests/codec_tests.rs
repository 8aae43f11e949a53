use earnings_scheduler::calendar::Date;
use earnings_scheduler::codec::{decode_cache, decode_guess, encode_cache, encode_guess};
use earnings_scheduler::earnings::{
    AnnounceTime, EarningsDateTime, EarningsGuess, SourcedEarningsTime,
};

fn d(y: i64, m: i64, day: i64) -> Date {
    Date::from_ymd(y, m, day).unwrap()
}

fn est(source: &str, date: Date, time: AnnounceTime) -> SourcedEarningsTime {
    SourcedEarningsTime { datetime: EarningsDateTime { date, time }, source: source.to_string() }
}

fn assert_guesses_equal(a: &EarningsGuess, b: &EarningsGuess) {
    assert_eq!(a.last_session, b.last_session);
    for (left, right) in [
        (&a.concurrences, &b.concurrences),
        (&a.close_disagreements, &b.close_disagreements),
        (&a.far_disagreements, &b.far_disagreements),
    ] {
        assert_eq!(left.len(), right.len());
        for (x, y) in left.iter().zip(right.iter()) {
            assert_eq!(x.datetime, y.datetime);
            assert_eq!(x.source, y.source);
        }
    }
}

#[test]
fn a_full_guess_round_trips() {
    let g = EarningsGuess {
        last_session: d(2018, 5, 9),
        concurrences: vec![
            est("FinViz", d(2018, 5, 9), AnnounceTime::AfterMarket),
            est("CML", d(2018, 5, 10), AnnounceTime::BeforeMarket),
        ],
        close_disagreements: vec![est("Yahoo", d(2018, 5, 10), AnnounceTime::Unknown)],
        far_disagreements: vec![est("Zacks", d(2018, 5, 23), AnnounceTime::AfterMarket)],
    };
    let text = encode_guess(&g);
    let back = decode_guess(text.as_str()).unwrap();
    assert_guesses_equal(&g, &back);
}

#[test]
fn an_empty_guess_round_trips() {
    let g = EarningsGuess {
        last_session: d(2018, 5, 9),
        concurrences: Vec::new(),
        close_disagreements: Vec::new(),
        far_disagreements: Vec::new(),
    };
    let text = encode_guess(&g);
    let n = g.last_session.day_number_value();
    assert_eq!(text, format!("{};...", n));
    let back = decode_guess(text.as_str()).unwrap();
    assert_guesses_equal(&g, &back);
}

#[test]
fn awkward_source_names_round_trip() {
    // Sources holding the codec's own delimiters and digits must survive,
    // thanks to the length prefix.
    let g = EarningsGuess {
        last_session: d(2018, 5, 9),
        concurrences: vec![
            est("a;b.c;42", d(2018, 5, 9), AnnounceTime::Unknown),
            est("", d(2018, 5, 9), AnnounceTime::AfterMarket),
            est("7;U.", d(2018, 5, 9), AnnounceTime::BeforeMarket),
        ],
        close_disagreements: Vec::new(),
        far_disagreements: Vec::new(),
    };
    let text = encode_guess(&g);
    let back = decode_guess(text.as_str()).unwrap();
    assert_guesses_equal(&g, &back);
}

#[test]
fn garbage_does_not_decode() {
    assert!(decode_guess("").is_none());
    assert!(decode_guess("hello").is_none());
    assert!(decode_guess(";...").is_none());
    assert!(decode_guess("736822;..").is_none());
    assert!(decode_guess("0;...").is_none());
}

#[test]
fn trailing_junk_does_not_decode() {
    let g = EarningsGuess {
        last_session: d(2018, 5, 9),
        concurrences: Vec::new(),
        close_disagreements: Vec::new(),
        far_disagreements: Vec::new(),
    };
    let mut text = encode_guess(&g);
    assert!(decode_guess(text.as_str()).is_some());
    text.push('x');
    assert!(decode_guess(text.as_str()).is_none());
}

#[test]
fn a_truncated_record_does_not_decode() {
    let g = EarningsGuess {
        last_session: d(2018, 5, 9),
        concurrences: vec![est("FinViz", d(2018, 5, 9), AnnounceTime::AfterMarket)],
        close_disagreements: Vec::new(),
        far_disagreements: Vec::new(),
    };
    let text = encode_guess(&g);
    let cut = &text[0..text.len() - 1];
    assert!(decode_guess(cut).is_none());
}

#[test]
fn a_cache_of_several_symbols_round_trips() {
    let entry = |symbol: &str, last: Date| {
        (
            symbol.to_string(),
            EarningsGuess {
                last_session: last,
                concurrences: vec![est("FinViz", last, AnnounceTime::AfterMarket)],
                close_disagreements: Vec::new(),
                far_disagreements: vec![est("Zacks", d(2018, 6, 1), AnnounceTime::Unknown)],
            },
        )
    };
    let entries = vec![entry("AAPL", d(2018, 5, 9)), entry("MSFT", d(2018, 5, 16))];
    let text = encode_cache(&entries);
    let back = decode_cache(text.as_str()).unwrap();
    assert_eq!(back.len(), 2);
    for ((sym_a, guess_a), (sym_b, guess_b)) in entries.iter().zip(back.iter()) {
        assert_eq!(sym_a, sym_b);
        assert_guesses_equal(guess_a, guess_b);
    }
}

#[test]
fn an_empty_cache_round_trips() {
    let entries: Vec<(String, EarningsGuess)> = Vec::new();
    let text = encode_cache(&entries);
    assert_eq!(text, "");
    assert_eq!(decode_cache(text.as_str()).unwrap().len(), 0);
}

#[test]
fn a_corrupt_cache_does_not_decode() {
    assert!(decode_cache("4;AAPL").is_none());
    assert!(decode_cache("x").is_none());
}
