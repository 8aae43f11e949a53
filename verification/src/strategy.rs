//! The closed set of option-trade strategies and their entry/exit date
//! rules, relative to the last trading session before earnings.

use vstd::prelude::*;

use crate::calendar::{
    closest_trading_day_number, day_in_op_range, next_trading_day_number, weekday_number, Date,
    DatelikeExt,
};

verus! {

/// The two strings hold the same characters.
fn str_eq(a: &str, b: &str) -> (r: bool)
    ensures
        r == (a@ == b@),
{
    let la = a.unicode_len();
    let lb = b.unicode_len();
    if la != lb {
        return false;
    }
    let mut i: usize = 0;
    while i < la
        invariant
            0 <= i <= la,
            la == a@.len(),
            la == b@.len(),
            forall|k: int| 0 <= k < i ==> a@[k] == b@[k],
        decreases la - i,
    {
        if a.get_char(i) != b.get_char(i) {
            return false;
        }
        i = i + 1;
    }
    proof {
        assert(a@ =~= b@);
    }
    true
}

/// A named options-trade template with fixed entry/exit offsets relative to
/// the last trading session before the earnings announcement.
#[derive(Clone, Copy, Debug, PartialEq, Eq, Structural, Hash)]
pub enum Strategy {
    Call3DaysBeforeEarnings,
    Call7DaysBeforeEarnings,
    Call14DaysBeforeEarnings,
    Strangle4DaysBeforeEarnings,
    Strangle7DaysBeforeEarnings,
    Strangle14DaysBeforeEarnings,
    PutSpreadAfterEarnings,
    IronCondorAfterEarnings,
    LongStraddleAfterEarnings,
}

impl Strategy {
    /// The strategy named by its tag, as backtest rows spell it.
    pub open spec fn spec_of_name(s: Seq<char>) -> Option<Strategy> {
        if s == "call_3d_preearnings"@ {
            Some(Strategy::Call3DaysBeforeEarnings)
        } else if s == "call_7d_preearnings"@ {
            Some(Strategy::Call7DaysBeforeEarnings)
        } else if s == "call_14d_preearnings"@ {
            Some(Strategy::Call14DaysBeforeEarnings)
        } else if s == "strangle_4d_preearnings"@ {
            Some(Strategy::Strangle4DaysBeforeEarnings)
        } else if s == "strangle_7d_preearnings"@ {
            Some(Strategy::Strangle7DaysBeforeEarnings)
        } else if s == "strangle_14d_preearnings"@ {
            Some(Strategy::Strangle14DaysBeforeEarnings)
        } else if s == "put_spread_post_earnings"@ {
            Some(Strategy::PutSpreadAfterEarnings)
        } else if s == "iron_condor_post_earnings"@ {
            Some(Strategy::IronCondorAfterEarnings)
        } else if s == "long_straddle_post_earnings"@ {
            Some(Strategy::LongStraddleAfterEarnings)
        } else {
            None
        }
    }

    /// Parse a strategy tag.
    pub fn from_name(name: &str) -> (r: Option<Strategy>)
        ensures
            r == Strategy::spec_of_name(name@),
    {
        if str_eq(name, "call_3d_preearnings") {
            Some(Strategy::Call3DaysBeforeEarnings)
        } else if str_eq(name, "call_7d_preearnings") {
            Some(Strategy::Call7DaysBeforeEarnings)
        } else if str_eq(name, "call_14d_preearnings") {
            Some(Strategy::Call14DaysBeforeEarnings)
        } else if str_eq(name, "strangle_4d_preearnings") {
            Some(Strategy::Strangle4DaysBeforeEarnings)
        } else if str_eq(name, "strangle_7d_preearnings") {
            Some(Strategy::Strangle7DaysBeforeEarnings)
        } else if str_eq(name, "strangle_14d_preearnings") {
            Some(Strategy::Strangle14DaysBeforeEarnings)
        } else if str_eq(name, "put_spread_post_earnings") {
            Some(Strategy::PutSpreadAfterEarnings)
        } else if str_eq(name, "iron_condor_post_earnings") {
            Some(Strategy::IronCondorAfterEarnings)
        } else if str_eq(name, "long_straddle_post_earnings") {
            Some(Strategy::LongStraddleAfterEarnings)
        } else {
            None
        }
    }

    /// The strategies that open before the earnings announcement.
    pub fn preearnings_strategies() -> (r: Vec<Strategy>)
        ensures
            r@ == seq![
                Strategy::Call3DaysBeforeEarnings,
                Strategy::Call7DaysBeforeEarnings,
                Strategy::Call14DaysBeforeEarnings,
                Strategy::Strangle4DaysBeforeEarnings,
                Strategy::Strangle7DaysBeforeEarnings,
                Strategy::Strangle14DaysBeforeEarnings,
            ],
    {
        let mut v: Vec<Strategy> = Vec::new();
        v.push(Strategy::Call3DaysBeforeEarnings);
        v.push(Strategy::Call7DaysBeforeEarnings);
        v.push(Strategy::Call14DaysBeforeEarnings);
        v.push(Strategy::Strangle4DaysBeforeEarnings);
        v.push(Strategy::Strangle7DaysBeforeEarnings);
        v.push(Strategy::Strangle14DaysBeforeEarnings);
        proof {
            assert(v@ =~= seq![
                Strategy::Call3DaysBeforeEarnings,
                Strategy::Call7DaysBeforeEarnings,
                Strategy::Call14DaysBeforeEarnings,
                Strategy::Strangle4DaysBeforeEarnings,
                Strategy::Strangle7DaysBeforeEarnings,
                Strategy::Strangle14DaysBeforeEarnings,
            ]);
        }
        v
    }

    /// The strategies that open after the earnings announcement.
    pub fn postearnings_strategies() -> (r: Vec<Strategy>)
        ensures
            r@ == seq![
                Strategy::PutSpreadAfterEarnings,
                Strategy::IronCondorAfterEarnings,
                Strategy::LongStraddleAfterEarnings,
            ],
    {
        let mut v: Vec<Strategy> = Vec::new();
        v.push(Strategy::PutSpreadAfterEarnings);
        v.push(Strategy::IronCondorAfterEarnings);
        v.push(Strategy::LongStraddleAfterEarnings);
        proof {
            assert(v@ =~= seq![
                Strategy::PutSpreadAfterEarnings,
                Strategy::IronCondorAfterEarnings,
                Strategy::LongStraddleAfterEarnings,
            ]);
        }
        v
    }

    /// The day the trade opens, for a given last session.
    ///
    /// The shortest pre-earnings call steps back five days when the session
    /// falls on Monday through Wednesday (so the open lands before the
    /// weekend) and three days otherwise; the shortest strangle steps back
    /// six days on Monday through Thursday and four otherwise.  The longer
    /// pre-earnings variants step back a fixed seven or fourteen days, and
    /// the post-earnings variants open on the next trading day.
    pub open spec fn spec_open_day(self, last: int) -> int {
        match self {
            Strategy::Call3DaysBeforeEarnings => if 1 <= weekday_number(last) <= 3 {
                last - 5
            } else {
                last - 3
            },
            Strategy::Call7DaysBeforeEarnings => last - 7,
            Strategy::Call14DaysBeforeEarnings => last - 14,
            Strategy::Strangle4DaysBeforeEarnings => if 1 <= weekday_number(last) <= 4 {
                last - 6
            } else {
                last - 4
            },
            Strategy::Strangle7DaysBeforeEarnings => last - 7,
            Strategy::Strangle14DaysBeforeEarnings => last - 14,
            Strategy::PutSpreadAfterEarnings => next_trading_day_number(last),
            Strategy::IronCondorAfterEarnings => next_trading_day_number(last),
            Strategy::LongStraddleAfterEarnings => next_trading_day_number(last),
        }
    }

    /// The day the trade closes: the last session itself for pre-earnings
    /// variants, and a fixed number of days after it for post-earnings
    /// variants — in every case pulled back onto a trading day, which
    /// leaves a last session that is already a trading day unchanged.
    pub open spec fn spec_close_day(self, last: int) -> int {
        match self {
            Strategy::Call3DaysBeforeEarnings => closest_trading_day_number(last),
            Strategy::Call7DaysBeforeEarnings => closest_trading_day_number(last),
            Strategy::Call14DaysBeforeEarnings => closest_trading_day_number(last),
            Strategy::Strangle4DaysBeforeEarnings => closest_trading_day_number(last),
            Strategy::Strangle7DaysBeforeEarnings => closest_trading_day_number(last),
            Strategy::Strangle14DaysBeforeEarnings => closest_trading_day_number(last),
            Strategy::PutSpreadAfterEarnings => closest_trading_day_number(last + 22),
            Strategy::IronCondorAfterEarnings => closest_trading_day_number(last + 32),
            Strategy::LongStraddleAfterEarnings => closest_trading_day_number(last + 8),
        }
    }

    /// The day this strategy's trade opens for the given last session
    /// before earnings.
    pub fn open_date(&self, last_preearnings_session: Date) -> (r: Date)
        requires
            day_in_op_range(last_preearnings_session.day()),
        ensures
            r.day() == self.spec_open_day(last_preearnings_session.day()),
    {
        let last = last_preearnings_session;
        match self {
            Strategy::Call3DaysBeforeEarnings => {
                let delta: i64 = match last.weekday() {
                    crate::calendar::Weekday::Monday => 5,
                    crate::calendar::Weekday::Tuesday => 5,
                    crate::calendar::Weekday::Wednesday => 5,
                    _ => 3,
                };
                last.plus_days(-delta)
            },
            Strategy::Call7DaysBeforeEarnings => last.plus_days(-7),
            Strategy::Call14DaysBeforeEarnings => last.plus_days(-14),
            Strategy::Strangle4DaysBeforeEarnings => {
                let delta: i64 = match last.weekday() {
                    crate::calendar::Weekday::Monday => 6,
                    crate::calendar::Weekday::Tuesday => 6,
                    crate::calendar::Weekday::Wednesday => 6,
                    crate::calendar::Weekday::Thursday => 6,
                    _ => 4,
                };
                last.plus_days(-delta)
            },
            Strategy::Strangle7DaysBeforeEarnings => last.plus_days(-7),
            Strategy::Strangle14DaysBeforeEarnings => last.plus_days(-14),
            Strategy::PutSpreadAfterEarnings => last.next_trading_day(),
            Strategy::IronCondorAfterEarnings => last.next_trading_day(),
            Strategy::LongStraddleAfterEarnings => last.next_trading_day(),
        }
    }

    /// The day this strategy's trade closes for the given last session
    /// before earnings.
    pub fn close_date(&self, last_preearnings_session: Date) -> (r: Date)
        requires
            day_in_op_range(last_preearnings_session.day()),
        ensures
            r.day() == self.spec_close_day(last_preearnings_session.day()),
    {
        let last = last_preearnings_session;
        let close = match self {
            Strategy::Call3DaysBeforeEarnings => last,
            Strategy::Call7DaysBeforeEarnings => last,
            Strategy::Call14DaysBeforeEarnings => last,
            Strategy::Strangle4DaysBeforeEarnings => last,
            Strategy::Strangle7DaysBeforeEarnings => last,
            Strategy::Strangle14DaysBeforeEarnings => last,
            Strategy::PutSpreadAfterEarnings => last.plus_days(22),
            Strategy::IronCondorAfterEarnings => last.plus_days(32),
            Strategy::LongStraddleAfterEarnings => last.plus_days(8),
        };
        close.closest_trading_day()
    }

    /// The human-readable short name of the strategy.
    pub open spec fn spec_short_name(self) -> Seq<char> {
        match self {
            Strategy::Call3DaysBeforeEarnings => "E-3 Call"@,
            Strategy::Call7DaysBeforeEarnings => "E-7 Call"@,
            Strategy::Call14DaysBeforeEarnings => "E-14 Call"@,
            Strategy::Strangle4DaysBeforeEarnings => "E-4 Strangle"@,
            Strategy::Strangle7DaysBeforeEarnings => "E-7 Strangle"@,
            Strategy::Strangle14DaysBeforeEarnings => "E-14 Strangle"@,
            Strategy::IronCondorAfterEarnings => "E+1 Iron Condor"@,
            Strategy::PutSpreadAfterEarnings => "E+1 Put Spread"@,
            Strategy::LongStraddleAfterEarnings => "E+1 Long Straddle"@,
        }
    }

    /// A human-readable short name for reports.
    pub fn short_name(&self) -> (r: &'static str)
        ensures
            r@ == self.spec_short_name(),
    {
        match self {
            Strategy::Call3DaysBeforeEarnings => "E-3 Call",
            Strategy::Call7DaysBeforeEarnings => "E-7 Call",
            Strategy::Call14DaysBeforeEarnings => "E-14 Call",
            Strategy::Strangle4DaysBeforeEarnings => "E-4 Strangle",
            Strategy::Strangle7DaysBeforeEarnings => "E-7 Strangle",
            Strategy::Strangle14DaysBeforeEarnings => "E-14 Strangle",
            Strategy::IronCondorAfterEarnings => "E+1 Iron Condor",
            Strategy::PutSpreadAfterEarnings => "E+1 Put Spread",
            Strategy::LongStraddleAfterEarnings => "E+1 Long Straddle",
        }
    }

    /// The compact tag of the strategy in the report.
    pub open spec fn spec_abbreviation(self) -> Seq<char> {
        match self {
            Strategy::Call3DaysBeforeEarnings => "E-3C"@,
            Strategy::Call7DaysBeforeEarnings => "E-7C"@,
            Strategy::Call14DaysBeforeEarnings => "E-14C"@,
            Strategy::Strangle4DaysBeforeEarnings => "E-4S"@,
            Strategy::Strangle7DaysBeforeEarnings => "E-7S"@,
            Strategy::Strangle14DaysBeforeEarnings => "E-14S"@,
            Strategy::IronCondorAfterEarnings => "E+1IC"@,
            Strategy::PutSpreadAfterEarnings => "E+1P"@,
            Strategy::LongStraddleAfterEarnings => "E+1LS"@,
        }
    }

    /// A compact abbreviation for dense report lines.
    pub fn abbreviation(&self) -> (r: &'static str)
        ensures
            r@ == self.spec_abbreviation(),
    {
        match self {
            Strategy::Call3DaysBeforeEarnings => "E-3C",
            Strategy::Call7DaysBeforeEarnings => "E-7C",
            Strategy::Call14DaysBeforeEarnings => "E-14C",
            Strategy::Strangle4DaysBeforeEarnings => "E-4S",
            Strategy::Strangle7DaysBeforeEarnings => "E-7S",
            Strategy::Strangle14DaysBeforeEarnings => "E-14S",
            Strategy::IronCondorAfterEarnings => "E+1IC",
            Strategy::PutSpreadAfterEarnings => "E+1P",
            Strategy::LongStraddleAfterEarnings => "E+1LS",
        }
    }
}

} // verus!
