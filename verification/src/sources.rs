//! The fixed registry of earnings-date providers, and the join of their
//! per-source fetch outcomes into the surviving estimates.

use vstd::prelude::*;

use vstd::string::StringExecFns;

use crate::earnings::{EarningsDateTime, SourcedEarningsTime};

verus! {

/// A provider of earnings-date estimates.  The set is closed: each
/// variant's page layout has its own extraction logic.
#[derive(Clone, Copy, Debug, PartialEq, Eq, Structural)]
pub enum EarningsSource {
    FinViz,
    Yahoo,
    Zacks,
    Estimize,
}

impl EarningsSource {
    /// The provider's display name, used as the source identity of its
    /// estimates.
    pub open spec fn spec_name(self) -> Seq<char> {
        match self {
            EarningsSource::FinViz => "FinViz"@,
            EarningsSource::Yahoo => "Yahoo"@,
            EarningsSource::Zacks => "Zacks"@,
            EarningsSource::Estimize => "Estimize"@,
        }
    }

    /// The provider's display name.
    pub fn name(&self) -> (r: &'static str)
        ensures
            r@ == self.spec_name(),
    {
        match self {
            EarningsSource::FinViz => "FinViz",
            EarningsSource::Yahoo => "Yahoo",
            EarningsSource::Zacks => "Zacks",
            EarningsSource::Estimize => "Estimize",
        }
    }

    /// The fixed part of the provider's quote-page address; the symbol is
    /// appended to it.
    pub open spec fn spec_url_prefix(self) -> Seq<char> {
        match self {
            EarningsSource::FinViz => "https://finviz.com/quote.ashx?t="@,
            EarningsSource::Yahoo => "https://finance.yahoo.com/quote/"@,
            EarningsSource::Zacks => "https://www.zacks.com/stock/quote/"@,
            EarningsSource::Estimize => "https://www.estimize.com/"@,
        }
    }

    /// The provider's quote-page address for a symbol.
    pub fn url_for(&self, symbol: &str) -> (r: String)
        ensures
            r@ == self.spec_url_prefix() + symbol@,
    {
        let prefix: &str = match self {
            EarningsSource::FinViz => "https://finviz.com/quote.ashx?t=",
            EarningsSource::Yahoo => "https://finance.yahoo.com/quote/",
            EarningsSource::Zacks => "https://www.zacks.com/stock/quote/",
            EarningsSource::Estimize => "https://www.estimize.com/",
        };
        let mut out = String::from_str(prefix);
        out.append(symbol);
        out
    }
}

/// Every provider, in the order they are polled.
pub fn all_sources() -> (r: Vec<EarningsSource>)
    ensures
        r@ == seq![
            EarningsSource::FinViz,
            EarningsSource::Yahoo,
            EarningsSource::Zacks,
            EarningsSource::Estimize,
        ],
{
    let mut v: Vec<EarningsSource> = Vec::new();
    v.push(EarningsSource::FinViz);
    v.push(EarningsSource::Yahoo);
    v.push(EarningsSource::Zacks);
    v.push(EarningsSource::Estimize);
    proof {
        assert(v@ =~= seq![
            EarningsSource::FinViz,
            EarningsSource::Yahoo,
            EarningsSource::Zacks,
            EarningsSource::Estimize,
        ]);
    }
    v
}

/// The fetch outcome carries a dated estimate; a failed or empty fetch
/// carries none and drops its source from the round.
pub open spec fn resolved_pred() -> spec_fn((EarningsSource, Option<EarningsDateTime>)) -> bool {
    |o: (EarningsSource, Option<EarningsDateTime>)| o.1 is Some
}

/// The surviving estimate matches its fetch outcome: the outcome's
/// estimate, under the source's name.
pub open spec fn survivor_ok(
    o: (EarningsSource, Option<EarningsDateTime>),
    e: SourcedEarningsTime,
) -> bool {
    o.1 == Some(e.datetime) && e.source@ == o.0.spec_name()
}

/// Join a fetch round: keep, in order, one sourced estimate per outcome
/// that carried a date, and drop failed or empty sources.
#[verifier::loop_isolation(false)]
pub fn surviving_estimates(outcomes: &Vec<(EarningsSource, Option<EarningsDateTime>)>) -> (r: Vec<
    SourcedEarningsTime,
>)
    ensures
        r@.len() == outcomes@.filter(resolved_pred()).len(),
        forall|k: int|
            0 <= k < r@.len() ==> survivor_ok(
                #[trigger] outcomes@.filter(resolved_pred())[k],
                r@[k],
            ),
{
    broadcast use vstd::seq_lib::group_seq_properties;

    let mut r: Vec<SourcedEarningsTime> = Vec::new();
    let mut i: usize = 0;
    while i < outcomes.len()
        invariant
            0 <= i <= outcomes@.len(),
            r@.len() == outcomes@.take(i as int).filter(resolved_pred()).len(),
            forall|k: int|
                0 <= k < r@.len() ==> survivor_ok(
                    #[trigger] outcomes@.take(i as int).filter(resolved_pred())[k],
                    r@[k],
                ),
        decreases outcomes@.len() - i,
    {
        proof {
            outcomes@.lemma_take_succ_push(i as int);
            outcomes@.take(i as int).lemma_filter_push(outcomes@[i as int], resolved_pred());
        }
        let (src, est) = outcomes[i];
        match est {
            Some(datetime) => {
                r.push(SourcedEarningsTime { datetime, source: String::from_str(src.name()) });
            },
            None => {},
        }
        i = i + 1;
    }
    proof {
        outcomes@.lemma_take_len();
    }
    r
}

} // verus!
