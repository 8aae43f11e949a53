//! Backtest rows: parsing their report fields, and picking the
//! best-performing test per symbol or per strategy.

use vstd::prelude::*;

use crate::calendar::{day_number_of_ymd, valid_ymd, Date};
use crate::digits::{
    all_digits, dec_digits, dec_rep, digits_value, i64_to_string, is_digit, parse_i32, token_value,
    u64_to_string,
};
use vstd::string::StringExecFns;
use crate::earnings::{AnnounceTime, EarningsDateTime};
use crate::strategy::Strategy;

verus! {

/// A numeric-prefix character of a report field: a digit, a minus sign, or
/// the non-breaking hyphen backtest rows use as one.
pub open spec fn numchar(c: char) -> bool {
    is_digit(c) || c == '-' || c == '\u{2011}'
}

/// The longest numeric prefix of a report field.
pub open spec fn numeric_prefix(s: Seq<char>) -> Seq<char>
    decreases s.len(),
{
    if s.len() == 0 || !numchar(s[0]) {
        Seq::empty()
    } else {
        seq![s[0]] + numeric_prefix(s.drop_first())
    }
}

/// Non-breaking hyphens turned into plain minus signs.
pub open spec fn normalize_dashes(s: Seq<char>) -> Seq<char> {
    s.map_values(
        |c: char|
            if c == '\u{2011}' {
                '-'
            } else {
                c
            },
    )
}

/// The value of a percentage field of a backtest row: its numeric prefix,
/// with non-breaking hyphens read as minus signs, as a number that fits an
/// `i32`.
pub open spec fn return_field_value(s: Seq<char>) -> Option<int> {
    match token_value(normalize_dashes(numeric_prefix(s))) {
        Some(n) => if i32::MIN <= n <= i32::MAX {
            Some(n)
        } else {
            None
        },
        None => None,
    }
}

/// `s` with every occurrence of `pat` removed, left to right.
pub open spec fn remove_all(s: Seq<char>, pat: Seq<char>) -> Seq<char>
    decreases s.len(),
{
    if pat.len() == 0 || s.len() < pat.len() {
        s
    } else if s.take(pat.len() as int) == pat {
        remove_all(s.skip(pat.len() as int), pat)
    } else {
        seq![s[0]] + remove_all(s.drop_first(), pat)
    }
}

/// The index of the first non-breaking hyphen, or the length when none.
pub open spec fn first_sep(s: Seq<char>) -> int
    decreases s.len(),
{
    if s.len() == 0 {
        0
    } else if s[0] == '\u{2011}' {
        0
    } else {
        1 + first_sep(s.drop_first())
    }
}

/// The year, month and day fields of a date written with non-breaking
/// hyphens between them; nothing when there are fewer than two hyphens.
pub open spec fn date_fields(s: Seq<char>) -> Option<(Seq<char>, Seq<char>, Seq<char>)> {
    let p1 = first_sep(s);
    if p1 == s.len() {
        None
    } else {
        let rest = s.skip(p1 + 1);
        let p2 = first_sep(rest);
        if p2 == rest.len() {
            None
        } else {
            Some((s.take(p1), rest.take(p2), rest.skip(p2 + 1)))
        }
    }
}

/// The day number named by a next-earnings field: the field with the
/// `Not Verified` marker removed must be a year, month and day of a real
/// calendar day, written with non-breaking hyphens.
pub open spec fn earnings_day_value(s: Seq<char>) -> Option<int> {
    let t = remove_all(s, "Not Verified"@);
    match date_fields(t) {
        Some(fields) => {
            let (ys, ms, ds) = fields;
            if all_digits(ys) && all_digits(ms) && all_digits(ds) {
                let y = digits_value(ys);
                let m = digits_value(ms);
                let d = digits_value(ds);
                if valid_ymd(y, m, d) {
                    Some(day_number_of_ymd(y, m, d))
                } else {
                    None
                }
            } else {
                None
            }
        },
        None => None,
    }
}

/// A scan that stopped at the first non-numeric character found the
/// numeric prefix.
proof fn lemma_numeric_prefix_characterize(s: Seq<char>, j: int)
    requires
        0 <= j <= s.len(),
        forall|k: int| 0 <= k < j ==> numchar(#[trigger] s[k]),
        j == s.len() || !numchar(s[j]),
    ensures
        numeric_prefix(s) == s.take(j),
    decreases s.len(),
{
    if s.len() == 0 {
        assert(s.take(j) =~= Seq::<char>::empty());
    } else if j == 0 {
        assert(s.take(0) =~= Seq::<char>::empty());
    } else {
        assert(numchar(s[0]));
        lemma_numeric_prefix_characterize(s.drop_first(), j - 1);
        assert(s.take(j) =~= seq![s[0]] + s.drop_first().take(j - 1));
    }
}

/// A scan that stopped at the first non-breaking hyphen found the first
/// separator.
proof fn lemma_first_sep_characterize(s: Seq<char>, j: int)
    requires
        0 <= j <= s.len(),
        forall|k: int| 0 <= k < j ==> (#[trigger] s[k]) != '\u{2011}',
        j == s.len() || s[j] == '\u{2011}',
    ensures
        first_sep(s) == j,
    decreases s.len(),
{
    if s.len() > 0 && j > 0 {
        lemma_first_sep_characterize(s.drop_first(), j - 1);
    }
}

/// The numeric prefix of a report field, with non-breaking hyphens turned
/// into plain minus signs.
#[verifier::loop_isolation(false)]
fn numeric_prefix_normalized(s: &str) -> (r: String)
    ensures
        r@ == normalize_dashes(numeric_prefix(s@)),
{
    let len = s.unicode_len();
    let mut out = String::new();
    let mut j: usize = 0;
    while j < len
        invariant
            0 <= j <= len,
            forall|k: int| 0 <= k < j ==> numchar(#[trigger] s@[k]),
            out@ == normalize_dashes(s@.take(j as int)),
        decreases len - j,
    {
        let c = s.get_char(j);
        let keep = (c >= '0' && c <= '9') || c == '-' || c == '\u{2011}';
        if !keep {
            proof {
                lemma_numeric_prefix_characterize(s@, j as int);
            }
            return out;
        }
        let mapped: char = if c == '\u{2011}' {
            '-'
        } else {
            c
        };
        out.push(mapped);
        proof {
            assert(normalize_dashes(s@.take(j as int)).push(mapped) =~= normalize_dashes(
                s@.take(j as int + 1),
            ));
        }
        j = j + 1;
    }
    proof {
        assert(s@.take(len as int) =~= s@);
        lemma_numeric_prefix_characterize(s@, len as int);
    }
    out
}

/// `pat` occurs in `s` at character position `i`.
#[verifier::loop_isolation(false)]
fn matches_at(s: &str, i: usize, pat: &str) -> (r: bool)
    requires
        i <= s@.len(),
    ensures
        r == (i + pat@.len() <= s@.len() && s@.subrange(i as int, i + pat@.len()) == pat@),
{
    let ls = s.unicode_len();
    let lp = pat.unicode_len();
    if ls - i < lp {
        return false;
    }
    let mut k: usize = 0;
    while k < lp
        invariant
            0 <= k <= lp,
            i + lp <= ls,
            forall|kk: int| 0 <= kk < k ==> s@[i + kk] == pat@[kk],
        decreases lp - k,
    {
        if s.get_char(i + k) != pat.get_char(k) {
            proof {
                assert(s@.subrange(i as int, i + pat@.len())[k as int] != pat@[k as int]);
            }
            return false;
        }
        k = k + 1;
    }
    proof {
        assert(s@.subrange(i as int, i + pat@.len()) =~= pat@);
    }
    true
}

/// `s` with every occurrence of `pat` removed, left to right.
#[verifier::loop_isolation(false)]
#[verifier::rlimit(30)]
fn remove_pattern(s: &str, pat: &str) -> (r: String)
    requires
        pat@.len() > 0,
    ensures
        r@ == remove_all(s@, pat@),
{
    let len = s.unicode_len();
    let lp = pat.unicode_len();
    let mut out = String::new();
    let mut i: usize = 0;
    proof {
        assert(s@.skip(0) =~= s@);
        assert(out@ + remove_all(s@, pat@) =~= remove_all(s@, pat@));
    }
    while i < len
        invariant
            0 <= i <= len,
            remove_all(s@, pat@) == out@ + remove_all(s@.skip(i as int), pat@),
        decreases len - i,
    {
        let ghost rest = s@.skip(i as int);
        if matches_at(s, i, pat) {
            proof {
                assert(rest.take(lp as int) =~= s@.subrange(i as int, i + pat@.len()));
                assert(rest.skip(lp as int) =~= s@.skip(i + pat@.len()));
                assert(remove_all(rest, pat@) == remove_all(s@.skip(i + pat@.len()), pat@));
            }
            i = i + lp;
        } else {
            let c = s.get_char(i);
            proof {
                if rest.len() >= pat@.len() {
                    assert(rest.take(lp as int) =~= s@.subrange(i as int, i + pat@.len()));
                    assert(rest.take(lp as int) != pat@);
                    assert(remove_all(rest, pat@) == seq![rest[0]] + remove_all(
                        rest.drop_first(),
                        pat@,
                    ));
                }
                assert(rest.drop_first() =~= s@.skip(i as int + 1));
                assert(rest[0] == c);
            }
            let ghost out0 = out@;
            out.push(c);
            proof {
                if rest.len() >= pat@.len() {
                    assert(out0 + (seq![c] + remove_all(s@.skip(i as int + 1), pat@)) =~= out@
                        + remove_all(s@.skip(i as int + 1), pat@));
                } else {
                    assert(remove_all(rest, pat@) == rest);
                    assert(rest.drop_first().len() < pat@.len());
                    assert(remove_all(rest.drop_first(), pat@) == rest.drop_first());
                    assert(out0 + rest =~= out@ + rest.drop_first());
                }
            }
            i = i + 1;
        }
    }
    proof {
        assert(s@.skip(len as int) =~= Seq::<char>::empty());
        assert(remove_all(Seq::<char>::empty(), pat@) == Seq::<char>::empty());
        assert(out@ + Seq::<char>::empty() =~= out@);
    }
    out
}

/// Parse an unsigned digit field of bounded size.
#[verifier::loop_isolation(false)]
fn parse_small_digits(s: &str) -> (r: Option<u32>)
    ensures
        match r {
            Some(v) => all_digits(s@) && v == digits_value(s@),
            None => !all_digits(s@) || digits_value(s@) > 99999999,
        },
{
    let len = s.unicode_len();
    if len == 0 {
        return None;
    }
    let mut acc: u32 = 0;
    let mut j: usize = 0;
    while j < len
        invariant
            0 <= j <= len,
            forall|k: int| 0 <= k < j ==> is_digit(#[trigger] s@[k]),
            acc == digits_value(s@.take(j as int)),
            acc <= 99999999,
        decreases len - j,
    {
        let c = s.get_char(j);
        if c < '0' || c > '9' {
            return None;
        }
        let d: u32 = (c as u32) - 48;
        proof {
            assert(s@.take(j as int + 1).drop_last() =~= s@.take(j as int));
            assert(s@.take(j as int + 1).last() == s@[j as int]);
        }
        acc = acc * 10 + d;
        if acc > 99999999 {
            proof {
                if all_digits(s@) {
                    crate::digits::lemma_digits_prefix_le(s@, j as int + 1);
                }
            }
            return None;
        }
        j = j + 1;
    }
    proof {
        assert(s@.take(len as int) =~= s@);
    }
    Some(acc)
}

/// Parse the next-earnings field of a backtest row: drop the
/// `Not Verified` marker, then read a year, month and day separated by
/// non-breaking hyphens.
#[verifier::loop_isolation(false)]
#[verifier::rlimit(30)]
fn parse_earnings_date(s: &str) -> (r: Option<Date>)
    ensures
        match r {
            Some(dt) => earnings_day_value(s@) == Some(dt.day()),
            None => earnings_day_value(s@) is None,
        },
{
    proof {
        reveal_strlit("Not Verified");
    }
    let cleaned = remove_pattern(s, "Not Verified");
    let t = cleaned.as_str();
    let len = t.unicode_len();
    let ghost tv = t@;
    let mut p1: usize = 0;
    while p1 < len && t.get_char(p1) != '\u{2011}'
        invariant
            0 <= p1 <= len,
            forall|k: int| 0 <= k < p1 ==> (#[trigger] tv[k]) != '\u{2011}',
        decreases len - p1,
    {
        p1 = p1 + 1;
    }
    proof {
        lemma_first_sep_characterize(tv, p1 as int);
    }
    if p1 == len {
        return None;
    }
    let ghost rest = tv.skip(p1 as int + 1);
    let mut p2: usize = p1 + 1;
    while p2 < len && t.get_char(p2) != '\u{2011}'
        invariant
            p1 + 1 <= p2 <= len,
            forall|k: int| p1 + 1 <= k < p2 ==> (#[trigger] tv[k]) != '\u{2011}',
        decreases len - p2,
    {
        p2 = p2 + 1;
    }
    proof {
        assert forall|k: int| 0 <= k < p2 - p1 - 1 implies (#[trigger] rest[k]) != '\u{2011}' by {
            assert(rest[k] == tv[p1 + 1 + k]);
        }
        lemma_first_sep_characterize(rest, p2 - p1 - 1);
    }
    if p2 == len {
        return None;
    }
    let ys = t.substring_char(0, p1);
    let ms = t.substring_char(p1 + 1, p2);
    let ds = t.substring_char(p2 + 1, len);
    proof {
        assert(ys@ =~= tv.take(p1 as int));
        assert(ms@ =~= rest.take(p2 - p1 - 1));
        assert(ds@ =~= rest.skip(p2 - p1));
        assert(rest.skip(p2 - p1) =~= rest.skip((p2 - p1 - 1) + 1));
    }
    let y = match parse_small_digits(ys) {
        Some(v) => v,
        None => {
            return None;
        },
    };
    let m = match parse_small_digits(ms) {
        Some(v) => v,
        None => {
            return None;
        },
    };
    let d = match parse_small_digits(ds) {
        Some(v) => v,
        None => {
            return None;
        },
    };
    Date::from_ymd(y as i64, m as i64, d as i64)
}


/// Why a backtest row was rejected.
#[derive(Clone, Copy, Debug, PartialEq, Eq, Structural)]
pub enum BacktestParseError {
    BadNextEarnings,
    BadWinRate,
    BadAvgTradeReturn,
    BadTotalReturn,
}

/// A backtest row as it arrives: the report fields still text.
#[derive(Debug)]
pub struct BacktestResultInput {
    pub symbol: String,
    pub wins: usize,
    pub losses: usize,
    pub win_rate: String,
    pub avg_trade_return: String,
    pub total_return: String,
    pub backtest_length: usize,
    pub next_earnings: String,
    pub strategy: Strategy,
}

/// A validated backtest row.
#[derive(Debug)]
pub struct BacktestResult {
    pub symbol: String,
    pub wins: usize,
    pub losses: usize,
    pub win_rate: i32,
    pub avg_trade_return: i32,
    pub total_return: i32,
    pub backtest_length: usize,
    pub next_earnings: EarningsDateTime,
    pub strategy: Strategy,
}

impl Clone for BacktestResult {
    fn clone(&self) -> (r: Self)
        ensures
            r == *self,
    {
        BacktestResult {
            symbol: self.symbol.clone(),
            wins: self.wins,
            losses: self.losses,
            win_rate: self.win_rate,
            avg_trade_return: self.avg_trade_return,
            total_return: self.total_return,
            backtest_length: self.backtest_length,
            next_earnings: self.next_earnings,
            strategy: self.strategy,
        }
    }
}

impl BacktestResult {
    /// The ranking key of a test: its average trade return.
    pub open spec fn spec_sort_key(self) -> int {
        self.avg_trade_return as int
    }

    /// The ranking key of a test: its average trade return.
    #[inline]
    pub fn sort_key(&self) -> (r: isize)
        ensures
            r as int == self.spec_sort_key(),
    {
        self.avg_trade_return as isize
    }

    /// The compact statistics of a test in the report:
    /// `(<average return>%,<wins>/<losses>)`.
    pub open spec fn spec_stats(self) -> Seq<char> {
        seq!['('] + dec_rep(self.avg_trade_return as int) + seq!['%', ','] + dec_digits(
            self.wins as int,
        ) + seq!['/'] + dec_digits(self.losses as int) + seq![')']
    }

    /// The compact statistics of a test, for report lines.
    pub fn stats(&self) -> (r: String)
        ensures
            r@ == self.spec_stats(),
    {
        let mut out = String::new();
        out.push('(');
        let avg = i64_to_string(self.avg_trade_return as i64);
        out.append(avg.as_str());
        out.push('%');
        out.push(',');
        let wins = u64_to_string(self.wins as u64);
        out.append(wins.as_str());
        out.push('/');
        let losses = u64_to_string(self.losses as u64);
        out.append(losses.as_str());
        out.push(')');
        proof {
            assert(out@ =~= self.spec_stats());
        }
        out
    }

    /// Validate a backtest row: parse the next-earnings date (announce
    /// time unknown) and the three percentage fields, in that order, and
    /// name the first field that fails.
    pub fn from_input(input: BacktestResultInput) -> (r: Result<
        BacktestResult,
        BacktestParseError,
    >)
        ensures
            match r {
                Ok(b) => {
                    &&& earnings_day_value(input.next_earnings@) == Some(
                        b.next_earnings.date.day(),
                    )
                    &&& b.next_earnings.time is Unknown
                    &&& return_field_value(input.win_rate@) == Some(b.win_rate as int)
                    &&& return_field_value(input.avg_trade_return@) == Some(
                        b.avg_trade_return as int,
                    )
                    &&& return_field_value(input.total_return@) == Some(b.total_return as int)
                    &&& b.symbol@ == input.symbol@
                    &&& b.wins == input.wins
                    &&& b.losses == input.losses
                    &&& b.backtest_length == input.backtest_length
                    &&& b.strategy == input.strategy
                },
                Err(e) => match e {
                    BacktestParseError::BadNextEarnings => earnings_day_value(
                        input.next_earnings@,
                    ) is None,
                    BacktestParseError::BadWinRate => earnings_day_value(
                        input.next_earnings@,
                    ) is Some && return_field_value(input.win_rate@) is None,
                    BacktestParseError::BadAvgTradeReturn => earnings_day_value(
                        input.next_earnings@,
                    ) is Some && return_field_value(input.win_rate@) is Some
                        && return_field_value(input.avg_trade_return@) is None,
                    BacktestParseError::BadTotalReturn => earnings_day_value(
                        input.next_earnings@,
                    ) is Some && return_field_value(input.win_rate@) is Some
                        && return_field_value(input.avg_trade_return@) is Some
                        && return_field_value(input.total_return@) is None,
                },
            },
    {
        let date = match parse_earnings_date(input.next_earnings.as_str()) {
            Some(d) => d,
            None => {
                return Err(BacktestParseError::BadNextEarnings);
            },
        };
        let wr = numeric_prefix_normalized(input.win_rate.as_str());
        let win_rate = match parse_i32(wr.as_str()) {
            Some(v) => v,
            None => {
                return Err(BacktestParseError::BadWinRate);
            },
        };
        let ar = numeric_prefix_normalized(input.avg_trade_return.as_str());
        let avg_trade_return = match parse_i32(ar.as_str()) {
            Some(v) => v,
            None => {
                return Err(BacktestParseError::BadAvgTradeReturn);
            },
        };
        let tr = numeric_prefix_normalized(input.total_return.as_str());
        let total_return = match parse_i32(tr.as_str()) {
            Some(v) => v,
            None => {
                return Err(BacktestParseError::BadTotalReturn);
            },
        };
        Ok(
            BacktestResult {
                symbol: input.symbol,
                wins: input.wins,
                losses: input.losses,
                win_rate,
                avg_trade_return,
                total_return,
                backtest_length: input.backtest_length,
                next_earnings: EarningsDateTime { date, time: AnnounceTime::Unknown },
                strategy: input.strategy,
            },
        )
    }
}

/// The index of the test with the greatest average trade return, the first
/// on a tie; index 0 when there are no tests.
#[verifier::loop_isolation(false)]
pub fn get_best_test(tests: &[BacktestResult]) -> (r: usize)
    ensures
        tests@.len() == 0 ==> r == 0,
        tests@.len() > 0 ==> {
            &&& r < tests@.len()
            &&& forall|i: int|
                0 <= i < tests@.len() ==> (#[trigger] tests@[i]).spec_sort_key()
                    <= tests@[r as int].spec_sort_key()
            &&& forall|i: int|
                0 <= i < r ==> (#[trigger] tests@[i]).spec_sort_key()
                    < tests@[r as int].spec_sort_key()
        },
{
    if tests.len() == 0 {
        return 0;
    }
    let mut best: usize = 0;
    let mut i: usize = 1;
    while i < tests.len()
        invariant
            0 <= best < i <= tests@.len(),
            forall|k: int|
                0 <= k < i ==> (#[trigger] tests@[k]).spec_sort_key()
                    <= tests@[best as int].spec_sort_key(),
            forall|k: int|
                0 <= k < best ==> (#[trigger] tests@[k]).spec_sort_key()
                    < tests@[best as int].spec_sort_key(),
        decreases tests@.len() - i,
    {
        if tests[i].sort_key() > tests[best].sort_key() {
            best = i;
        }
        i = i + 1;
    }
    best
}

/// The entry pairs a strategy with the index of its best test: the index
/// is in range, belongs to that strategy, and carries the greatest key of
/// the strategy's tests, first on a tie.
pub open spec fn best_entry_ok(tests: Seq<BacktestResult>, e: (Strategy, usize)) -> bool {
    &&& e.1 < tests.len()
    &&& tests[e.1 as int].strategy == e.0
    &&& forall|j: int|
        0 <= j < tests.len() && (#[trigger] tests[j]).strategy == e.0 ==> tests[j].spec_sort_key()
            <= tests[e.1 as int].spec_sort_key()
    &&& forall|j: int|
        0 <= j < e.1 && (#[trigger] tests[j]).strategy == e.0 ==> tests[j].spec_sort_key()
            < tests[e.1 as int].spec_sort_key()
}

/// Some entry of `out` is for strategy `st`.
pub open spec fn has_strategy(out: Seq<(Strategy, usize)>, st: Strategy) -> bool {
    exists|k: int| 0 <= k < out.len() && out[k].0 == st
}

/// Whether some entry of `out` is for strategy `st`.
#[verifier::loop_isolation(false)]
fn contains_strategy(out: &Vec<(Strategy, usize)>, st: Strategy) -> (r: bool)
    ensures
        r == has_strategy(out@, st),
{
    let mut k: usize = 0;
    while k < out.len()
        invariant
            0 <= k <= out@.len(),
            forall|kk: int| 0 <= kk < k ==> (#[trigger] out@[kk]).0 != st,
        decreases out@.len() - k,
    {
        if out[k].0 == st {
            return true;
        }
        k = k + 1;
    }
    false
}

/// The index of the best test of strategy `st`, first on a tie.
#[verifier::loop_isolation(false)]
fn best_index_for_strategy(tests: &[BacktestResult], st: Strategy) -> (r: usize)
    requires
        exists|j: int| 0 <= j < tests@.len() && (#[trigger] tests@[j]).strategy == st,
    ensures
        best_entry_ok(tests@, (st, r)),
{
    let mut best: usize = 0;
    let mut found = false;
    let mut j: usize = 0;
    while j < tests.len()
        invariant
            0 <= j <= tests@.len(),
            !found ==> forall|k: int| 0 <= k < j ==> (#[trigger] tests@[k]).strategy != st,
            found ==> {
                &&& best < j
                &&& tests@[best as int].strategy == st
                &&& forall|k: int|
                    0 <= k < j && (#[trigger] tests@[k]).strategy == st ==> tests@[
                        k
                    ].spec_sort_key() <= tests@[best as int].spec_sort_key()
                &&& forall|k: int|
                    0 <= k < best && (#[trigger] tests@[k]).strategy == st ==> tests@[
                        k
                    ].spec_sort_key() < tests@[best as int].spec_sort_key()
            },
        decreases tests@.len() - j,
    {
        if tests[j].strategy == st {
            if !found {
                found = true;
                best = j;
            } else if tests[j].sort_key() > tests[best].sort_key() {
                best = j;
            }
        }
        j = j + 1;
    }
    best
}

/// One best test per distinct strategy present, in order of each
/// strategy's first appearance; within each strategy the entry is the
/// greatest-key test, first on a tie.
#[verifier::loop_isolation(false)]
pub fn get_best_test_per_strategy(tests: &[BacktestResult]) -> (r: Vec<(Strategy, usize)>)
    ensures
        forall|k: int| 0 <= k < r@.len() ==> best_entry_ok(tests@, #[trigger] r@[k]),
        forall|k1: int, k2: int|
            0 <= k1 < k2 < r@.len() ==> (#[trigger] r@[k1]).0 != (#[trigger] r@[k2]).0,
        forall|j: int|
            0 <= j < tests@.len() ==> has_strategy(r@, (#[trigger] tests@[j]).strategy),
{
    let mut out: Vec<(Strategy, usize)> = Vec::new();
    let mut j: usize = 0;
    while j < tests.len()
        invariant
            0 <= j <= tests@.len(),
            forall|k: int| 0 <= k < out@.len() ==> best_entry_ok(tests@, #[trigger] out@[k]),
            forall|k1: int, k2: int|
                0 <= k1 < k2 < out@.len() ==> (#[trigger] out@[k1]).0 != (#[trigger] out@[k2]).0,
            forall|jj: int|
                0 <= jj < j ==> has_strategy(out@, (#[trigger] tests@[jj]).strategy),
        decreases tests@.len() - j,
    {
        let st = tests[j].strategy;
        if !contains_strategy(&out, st) {
            let ghost out0 = out@;
            let b = best_index_for_strategy(tests, st);
            out.push((st, b));
            proof {
                assert forall|ss: Strategy| has_strategy(out0, ss) implies has_strategy(
                    out@,
                    ss,
                ) by {
                    let k = choose|k: int| 0 <= k < out0.len() && out0[k].0 == ss;
                    assert(out@[k].0 == ss);
                }
                assert(out@[out0.len() as int].0 == st);
                assert(has_strategy(out@, st));
            }
        } else {
            proof {
                assert(has_strategy(out@, tests@[j as int].strategy));
            }
        }
        j = j + 1;
    }
    out
}


/// Keep a test when it is among the requested strategies (an empty request
/// keeps every strategy) and its claimed next-earnings date lies in the
/// requested window.
#[verifier::loop_isolation(false)]
pub fn test_passes_filter(
    test: &BacktestResult,
    strategies: &Vec<Strategy>,
    start: Option<Date>,
    end: Option<Date>,
) -> (r: bool)
    ensures
        r == ({
            &&& (strategies@.len() == 0 || strategies@.contains(test.strategy))
            &&& (match start {
                Some(s) => test.next_earnings.date.day() >= s.day(),
                None => true,
            })
            &&& (match end {
                Some(e) => test.next_earnings.date.day() <= e.day(),
                None => true,
            })
        }),
{
    let mut wanted = strategies.len() == 0;
    let mut k: usize = 0;
    while k < strategies.len()
        invariant
            0 <= k <= strategies@.len(),
            wanted == (strategies@.len() == 0 || exists|kk: int|
                0 <= kk < k && strategies@[kk] == test.strategy),
        decreases strategies@.len() - k,
    {
        if strategies[k] == test.strategy {
            wanted = true;
        }
        k = k + 1;
    }
    if !wanted {
        return false;
    }
    if let Some(s) = start {
        if test.next_earnings.date.days < s.days {
            return false;
        }
    }
    if let Some(e) = end {
        if test.next_earnings.date.days > e.days {
            return false;
        }
    }
    true
}

/// Whether the report keeps only each symbol's best test: an explicit
/// best-only or every-strategy request decides, in that order; otherwise
/// the pre-earnings preset turns it off and the post-earnings preset on.
pub fn best_only_choice(post: bool, pre: bool, best: bool, all: bool) -> (r: bool)
    ensures
        r == (if best {
            true
        } else if all {
            false
        } else if pre {
            false
        } else {
            post
        }),
{
    let mut best_only = false;
    if post {
        best_only = true;
    }
    if pre {
        best_only = false;
    }
    if best {
        best_only = true;
    } else if all {
        best_only = false;
    }
    best_only
}

} // verus!
