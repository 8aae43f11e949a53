//! Earnings-date estimates and the date-consensus engine.
//!
//! Several sources each report an estimated earnings announcement date.
//! Every estimate is reduced to the last trading session before the
//! announcement; an estimate whose announcement time of day is unknown is
//! *fuzzy* and also counts for the neighbouring trading days.  The consensus
//! engine picks the candidate session with the most contributions (earliest
//! on a tie, never a past day) and partitions the sources into concurrences,
//! close disagreements and far disagreements.

use vstd::prelude::*;

use crate::calendar::{
    day_in_op_range, day_in_range, next_trading_day_number, prev_trading_day_number, Date,
    DatelikeExt, MAX_DAY_NUMBER, MIN_DAY_NUMBER,
};

verus! {

/// When the announcement happens relative to the trading session of its day.
#[derive(Clone, Copy, Debug, PartialEq, Eq, Structural)]
pub enum AnnounceTime {
    BeforeMarket,
    AfterMarket,
    Unknown,
}

impl AnnounceTime {
    /// The conventional short code for the announce time: `BMO` for before
    /// market open, `AMC` for after market close, and nothing when unknown.
    pub fn display_code(&self) -> (r: &'static str)
        ensures
            self is BeforeMarket ==> r@ == "BMO"@,
            self is AfterMarket ==> r@ == "AMC"@,
            self is Unknown ==> r@ == ""@,
    {
        match self {
            AnnounceTime::BeforeMarket => "BMO",
            AnnounceTime::AfterMarket => "AMC",
            AnnounceTime::Unknown => "",
        }
    }
}

/// An estimated announcement date together with its announce time.
#[derive(Clone, Copy, Debug, PartialEq, Eq, Structural)]
pub struct EarningsDateTime {
    pub date: Date,
    pub time: AnnounceTime,
}

impl EarningsDateTime {
    /// The last trading session before the announcement: the previous
    /// trading day for a before-market announcement, the day itself
    /// otherwise.
    pub open spec fn spec_last_session(self) -> int {
        match self.time {
            AnnounceTime::BeforeMarket => prev_trading_day_number(self.date.day()),
            AnnounceTime::AfterMarket => self.date.day(),
            AnnounceTime::Unknown => self.date.day(),
        }
    }

    /// Whether the estimate carries one-trading-day uncertainty because the
    /// announce time is unknown.
    pub open spec fn spec_fuzzy(self) -> bool {
        self.time is Unknown
    }

    /// The date of the last trading session before the announcement, along
    /// with the fuzzy flag.
    pub fn last_session(&self) -> (r: (Date, bool))
        requires
            day_in_range(self.date.day()),
        ensures
            r.0.day() == self.spec_last_session(),
            r.1 == self.spec_fuzzy(),
    {
        match self.time {
            AnnounceTime::BeforeMarket => (self.date.prev_trading_day(), false),
            AnnounceTime::AfterMarket => (self.date, false),
            AnnounceTime::Unknown => (self.date, true),
        }
    }
}

/// An estimate together with the identity of the source that produced it.
#[derive(Debug)]
pub struct SourcedEarningsTime {
    pub datetime: EarningsDateTime,
    pub source: String,
}

impl Clone for SourcedEarningsTime {
    fn clone(&self) -> (r: Self)
        ensures
            r == *self,
    {
        SourcedEarningsTime { datetime: self.datetime, source: self.source.clone() }
    }
}

/// The consensus: a selected last trading session, and the estimates grouped
/// by how far they land from it.
#[derive(Debug)]
pub struct EarningsGuess {
    pub last_session: Date,
    pub concurrences: Vec<SourcedEarningsTime>,
    pub close_disagreements: Vec<SourcedEarningsTime>,
    pub far_disagreements: Vec<SourcedEarningsTime>,
}


/// The mathematical content of a sourced estimate: day number, announce
/// time and source identity.
pub ghost struct EstimateView {
    pub date: int,
    pub time: AnnounceTime,
    pub source: Seq<char>,
}

impl View for SourcedEarningsTime {
    type V = EstimateView;

    open spec fn view(&self) -> EstimateView {
        EstimateView {
            date: self.datetime.date.day(),
            time: self.datetime.time,
            source: self.source@,
        }
    }
}

/// The views of the estimates of a list, in order.
pub open spec fn views_of(l: Seq<SourcedEarningsTime>) -> Seq<EstimateView> {
    l.map_values(|e: SourcedEarningsTime| e@)
}

/// The mathematical content of a consensus result.
pub ghost struct GuessView {
    pub last_session: int,
    pub concurrences: Seq<EstimateView>,
    pub close_disagreements: Seq<EstimateView>,
    pub far_disagreements: Seq<EstimateView>,
}

impl View for EarningsGuess {
    type V = GuessView;

    open spec fn view(&self) -> GuessView {
        GuessView {
            last_session: self.last_session.day(),
            concurrences: views_of(self.concurrences@),
            close_disagreements: views_of(self.close_disagreements@),
            far_disagreements: views_of(self.far_disagreements@),
        }
    }
}

/// The estimate contributes to candidate session `d`: exactly its own last
/// session, widened to the neighbouring trading days when fuzzy.
pub open spec fn contributes(e: EarningsDateTime, d: int) -> bool {
    ||| d == e.spec_last_session()
    ||| (e.spec_fuzzy() && (d == next_trading_day_number(e.spec_last_session()) || d
        == prev_trading_day_number(e.spec_last_session())))
}

/// The contribution test for candidate session `d`, as a predicate value.
pub open spec fn contrib_pred(d: int) -> spec_fn(SourcedEarningsTime) -> bool {
    |e: SourcedEarningsTime| contributes(e.datetime, d)
}

/// The estimates of `s` contributing to candidate session `d`, in input
/// order.
pub open spec fn contributors(s: Seq<SourcedEarningsTime>, d: int) -> Seq<SourcedEarningsTime> {
    s.filter(contrib_pred(d))
}

/// How many estimates of `s` contribute to candidate session `d`.
pub open spec fn support(s: Seq<SourcedEarningsTime>, d: int) -> nat {
    contributors(s, d).len()
}

/// The source identities appearing in `s`.
pub open spec fn source_set(s: Seq<SourcedEarningsTime>) -> Set<Seq<char>> {
    Set::new(|src: Seq<char>| exists|i: int| 0 <= i < s.len() && s[i].source@ == src)
}

/// `d` is the winning session: a non-past candidate with maximal support,
/// earliest among the tied.
pub open spec fn is_best_session(s: Seq<SourcedEarningsTime>, today: int, d: int) -> bool {
    &&& support(s, d) > 0
    &&& d >= today
    &&& forall|d2: int| d2 >= today ==> support(s, d2) <= support(s, d)
    &&& forall|d2: int| d2 >= today && support(s, d2) == support(s, d) ==> d <= d2
}

/// Keep the first estimate of each source not yet seen, in order.
pub open spec fn dedup_excluding(
    s: Seq<SourcedEarningsTime>,
    seen: Set<Seq<char>>,
) -> Seq<SourcedEarningsTime>
    decreases s.len(),
{
    if s.len() == 0 {
        Seq::empty()
    } else if seen.contains(s[0].source@) {
        dedup_excluding(s.drop_first(), seen)
    } else {
        seq![s[0]] + dedup_excluding(s.drop_first(), seen.insert(s[0].source@))
    }
}

/// `d` lies outside the winning session and its two neighbouring trading
/// days.
pub open spec fn outside_neighbourhood(d: int, w: int) -> bool {
    d != w && d != prev_trading_day_number(w) && d != next_trading_day_number(w)
}

/// The estimate contributes to some session outside the winning session's
/// one-trading-day neighbourhood.
pub open spec fn stray_contributor(e: EarningsDateTime, w: int) -> bool {
    ||| outside_neighbourhood(e.spec_last_session(), w)
    ||| (e.spec_fuzzy() && (outside_neighbourhood(next_trading_day_number(e.spec_last_session()), w)
        || outside_neighbourhood(prev_trading_day_number(e.spec_last_session()), w)))
}

/// The stray test for winning session `w`, as a predicate value.
pub open spec fn stray_pred(w: int) -> spec_fn(SourcedEarningsTime) -> bool {
    |e: SourcedEarningsTime| stray_contributor(e.datetime, w)
}

/// Everything [`best_earnings_guess_for_day`] promises of its result.
///
/// No consensus exists exactly when no candidate session on or after `today`
/// has any contribution.  Otherwise the winning session is the non-past
/// candidate with the most contributions (earliest on a tie); the
/// concurrences are exactly the contributions to it, in input order; the
/// close disagreements are the contributions to its neighbouring trading
/// days, deduplicated by source against the concurrences; and the far
/// disagreements are the estimates contributing only further away,
/// deduplicated by source against both other lists.
pub open spec fn consensus_post(
    s: Seq<SourcedEarningsTime>,
    today: int,
    r: Option<EarningsGuess>,
) -> bool {
    match r {
        None => forall|d: int| d >= today ==> support(s, d) == 0,
        Some(g) => {
            let w = g.last_session.day();
            &&& is_best_session(s, today, w)
            &&& g.concurrences@ == contributors(s, w)
            &&& g.close_disagreements@ == dedup_excluding(
                contributors(s, prev_trading_day_number(w)) + contributors(
                    s,
                    next_trading_day_number(w),
                ),
                source_set(contributors(s, w)),
            )
            &&& g.far_disagreements@ == dedup_excluding(
                s.filter(stray_pred(w)),
                source_set(g.concurrences@).union(source_set(g.close_disagreements@)),
            )
        },
    }
}

/// The estimate's own date is far enough inside the representable range for
/// the consensus engine's date arithmetic.
pub open spec fn estimate_in_op_range(e: SourcedEarningsTime) -> bool {
    day_in_op_range(e.datetime.date.day())
}

/// The estimate contributes to candidate session `d` (executable form of
/// [`contributes`]).
fn contributes_to(e: &SourcedEarningsTime, d: Date) -> (r: bool)
    requires
        estimate_in_op_range(*e),
    ensures
        r == contributes(e.datetime, d.day()),
{
    let (last, fuzzy) = e.datetime.last_session();
    if last.days == d.days {
        true
    } else if fuzzy {
        let next = last.next_trading_day();
        let prev = last.prev_trading_day();
        next.days == d.days || prev.days == d.days
    } else {
        false
    }
}

/// Count the estimates contributing to candidate session `d`.
#[verifier::loop_isolation(false)]
fn count_support(dates: &Vec<SourcedEarningsTime>, d: Date) -> (c: usize)
    requires
        forall|i: int| 0 <= i < dates@.len() ==> estimate_in_op_range(#[trigger] dates@[i]),
    ensures
        c == support(dates@, d.day()),
{
    broadcast use vstd::seq_lib::group_seq_properties;

    let mut c: usize = 0;
    let mut i: usize = 0;
    while i < dates.len()
        invariant
            0 <= i <= dates@.len(),
            c == support(dates@.take(i as int), d.day()),
            c <= i,
        decreases dates@.len() - i,
    {
        proof {
            dates@.lemma_take_succ_push(i as int);
            dates@.take(i as int).lemma_filter_push(dates@[i as int], contrib_pred(d.day()));
        }
        if contributes_to(&dates[i], d) {
            c = c + 1;
        }
        i = i + 1;
    }
    proof {
        dates@.lemma_take_len();
    }
    c
}


/// A sequence with no member satisfying the predicate filters to nothing.
proof fn lemma_filter_none<A>(s: Seq<A>, pred: spec_fn(A) -> bool)
    requires
        forall|i: int| 0 <= i < s.len() ==> !pred(#[trigger] s[i]),
    ensures
        s.filter(pred) == Seq::<A>::empty(),
    decreases s.len(),
{
    reveal(Seq::filter);
    if s.len() > 0 {
        lemma_filter_none(s.drop_last(), pred);
    }
    assert(s.filter(pred) =~= Seq::<A>::empty());
}

/// A non-empty filter exhibits a member satisfying the predicate.
proof fn lemma_filter_member<A>(s: Seq<A>, pred: spec_fn(A) -> bool)
    requires
        s.filter(pred).len() > 0,
    ensures
        exists|i: int| 0 <= i < s.len() && pred(#[trigger] s[i]),
{
    if forall|i: int| 0 <= i < s.len() ==> !pred(#[trigger] s[i]) {
        lemma_filter_none(s, pred);
    }
}

/// Pushing an estimate adds exactly its source to the source set.
proof fn lemma_source_set_push(s: Seq<SourcedEarningsTime>, e: SourcedEarningsTime)
    ensures
        source_set(s.push(e)) == source_set(s).insert(e.source@),
{
    let t = s.push(e);
    assert forall|src: Seq<char>| source_set(t).contains(src) implies source_set(s).insert(
        e.source@,
    ).contains(src) by {
        let i = choose|i: int| 0 <= i < t.len() && t[i].source@ == src;
        if i < s.len() {
            assert(s[i].source@ == src);
        }
    }
    assert forall|src: Seq<char>| source_set(s).insert(e.source@).contains(src) implies source_set(
        t,
    ).contains(src) by {
        if src == e.source@ {
            assert(t[s.len() as int].source@ == src);
        } else {
            let i = choose|i: int| 0 <= i < s.len() && s[i].source@ == src;
            assert(t[i].source@ == src);
        }
    }
    assert(source_set(s.push(e)) =~= source_set(s).insert(e.source@));
}

/// Whether some estimate of `v` carries the source identity `src`.
fn contains_source(v: &Vec<SourcedEarningsTime>, src: &String) -> (r: bool)
    ensures
        r == source_set(v@).contains(src@),
{
    let mut i: usize = 0;
    while i < v.len()
        invariant
            0 <= i <= v@.len(),
            forall|k: int| 0 <= k < i ==> (#[trigger] v@[k]).source@ != src@,
        decreases v@.len() - i,
    {
        if v[i].source == *src {
            return true;
        }
        i = i + 1;
    }
    false
}

/// The estimates of `dates` contributing to candidate session `d`, cloned
/// in input order.
#[verifier::loop_isolation(false)]
fn collect_contributors(dates: &Vec<SourcedEarningsTime>, d: Date) -> (out: Vec<
    SourcedEarningsTime,
>)
    requires
        forall|i: int| 0 <= i < dates@.len() ==> estimate_in_op_range(#[trigger] dates@[i]),
    ensures
        out@ == contributors(dates@, d.day()),
{
    broadcast use vstd::seq_lib::group_seq_properties;

    let mut out: Vec<SourcedEarningsTime> = Vec::new();
    let mut i: usize = 0;
    while i < dates.len()
        invariant
            0 <= i <= dates@.len(),
            out@ == contributors(dates@.take(i as int), d.day()),
        decreases dates@.len() - i,
    {
        proof {
            dates@.lemma_take_succ_push(i as int);
            dates@.take(i as int).lemma_filter_push(dates@[i as int], contrib_pred(d.day()));
        }
        if contributes_to(&dates[i], d) {
            out.push(dates[i].clone());
        }
        i = i + 1;
    }
    proof {
        dates@.lemma_take_len();
    }
    out
}

/// Keep the first estimate of each source of `base` whose source appears
/// neither in `seen_a` nor in `seen_b` nor earlier in `base`, in order.
#[verifier::loop_isolation(false)]
#[verifier::rlimit(30)]
fn push_unseen(
    base: &Vec<SourcedEarningsTime>,
    seen_a: &Vec<SourcedEarningsTime>,
    seen_b: &Vec<SourcedEarningsTime>,
) -> (out: Vec<SourcedEarningsTime>)
    ensures
        out@ == dedup_excluding(base@, source_set(seen_a@).union(source_set(seen_b@))),
{
    let ghost seen0 = source_set(seen_a@).union(source_set(seen_b@));
    let mut out: Vec<SourcedEarningsTime> = Vec::new();
    let mut j: usize = 0;
    proof {
        assert(base@.skip(0) =~= base@);
        assert(seen0.union(source_set(out@)) =~= seen0);
        assert(out@ + dedup_excluding(base@, seen0) =~= dedup_excluding(base@, seen0));
    }
    while j < base.len()
        invariant
            0 <= j <= base@.len(),
            dedup_excluding(base@, seen0) == out@ + dedup_excluding(
                base@.skip(j as int),
                seen0.union(source_set(out@)),
            ),
        decreases base@.len() - j,
    {
        let ghost seen_cur = seen0.union(source_set(out@));
        let ghost rest = base@.skip(j as int);
        let ghost e0 = base@[j as int];
        proof {
            assert(rest[0] == e0);
            assert(rest.drop_first() =~= base@.skip(j as int + 1));
        }
        let e = &base[j];
        let hit = contains_source(seen_a, &e.source) || contains_source(seen_b, &e.source)
            || contains_source(&out, &e.source);
        proof {
            assert(hit == seen_cur.contains(e0.source@));
        }
        if !hit {
            let ghost out0 = out@;
            out.push(e.clone());
            proof {
                assert(out@ == out0.push(e0));
                lemma_source_set_push(out0, e0);
                assert(seen_cur.insert(e0.source@) =~= seen0.union(source_set(out@)));
                assert(dedup_excluding(rest, seen_cur) == seq![rest[0]] + dedup_excluding(
                    rest.drop_first(),
                    seen_cur.insert(rest[0].source@),
                ));
                assert(out0 + (seq![e0] + dedup_excluding(
                    base@.skip(j as int + 1),
                    seen0.union(source_set(out@)),
                )) =~= out@ + dedup_excluding(
                    base@.skip(j as int + 1),
                    seen0.union(source_set(out@)),
                ));
            }
        } else {
            proof {
                assert(dedup_excluding(rest, seen_cur) == dedup_excluding(
                    rest.drop_first(),
                    seen_cur,
                ));
            }
        }
        j = j + 1;
    }
    proof {
        assert(base@.skip(base@.len() as int) =~= Seq::<SourcedEarningsTime>::empty());
        assert(out@ + Seq::<SourcedEarningsTime>::empty() =~= out@);
    }
    out
}


/// Some candidate in `cs` has day number `d`.
pub open spec fn has_day(cs: Seq<Date>, d: int) -> bool {
    exists|k: int| 0 <= k < cs.len() && cs[k].day() == d
}

/// `c` is a sound candidate: representable, and contributed to by some
/// estimate.
pub open spec fn candidate_ok(dates: Seq<SourcedEarningsTime>, c: Date) -> bool {
    day_in_range(c.day()) && exists|ii: int|
        0 <= ii < dates.len() && contributes(dates[ii].datetime, c.day())
}

/// Every session any estimate contributes to, with repetitions.
#[verifier::loop_isolation(false)]
fn collect_candidates(dates: &Vec<SourcedEarningsTime>) -> (cands: Vec<Date>)
    requires
        forall|i: int| 0 <= i < dates@.len() ==> estimate_in_op_range(#[trigger] dates@[i]),
    ensures
        forall|k: int| 0 <= k < cands@.len() ==> candidate_ok(dates@, #[trigger] cands@[k]),
        forall|ii: int, d: int|
            0 <= ii < dates@.len() && #[trigger] contributes(dates@[ii].datetime, d) ==> has_day(
                cands@,
                d,
            ),
{
    let mut cands: Vec<Date> = Vec::new();
    let mut i: usize = 0;
    while i < dates.len()
        invariant
            0 <= i <= dates@.len(),
            forall|k: int| 0 <= k < cands@.len() ==> candidate_ok(dates@, #[trigger] cands@[k]),
            forall|ii: int, d: int|
                0 <= ii < i && #[trigger] contributes(dates@[ii].datetime, d) ==> has_day(
                    cands@,
                    d,
                ),
        decreases dates@.len() - i,
    {
        let ghost cands0 = cands@;
        let ghost e = dates@[i as int].datetime;
        let (last, fuzzy) = dates[i].datetime.last_session();
        cands.push(last);
        if fuzzy {
            cands.push(last.next_trading_day());
            cands.push(last.prev_trading_day());
        }
        proof {
            assert forall|d: int| has_day(cands0, d) implies has_day(cands@, d) by {
                let k = choose|k: int| 0 <= k < cands0.len() && cands0[k].day() == d;
                assert(cands@[k].day() == d);
            }
            let n = cands0.len() as int;
            assert(cands@[n].day() == e.spec_last_session());
            assert(contributes(dates@[i as int].datetime, cands@[n].day()));
            assert(candidate_ok(dates@, cands@[n]));
            assert(has_day(cands@, e.spec_last_session()));
            if e.spec_fuzzy() {
                assert(cands@[n + 1].day() == next_trading_day_number(e.spec_last_session()));
                assert(cands@[n + 2].day() == prev_trading_day_number(e.spec_last_session()));
                assert(contributes(dates@[i as int].datetime, cands@[n + 1].day()));
                assert(contributes(dates@[i as int].datetime, cands@[n + 2].day()));
                assert(candidate_ok(dates@, cands@[n + 1]));
                assert(candidate_ok(dates@, cands@[n + 2]));
                assert(has_day(cands@, next_trading_day_number(e.spec_last_session())));
                assert(has_day(cands@, prev_trading_day_number(e.spec_last_session())));
            }
        }
        i = i + 1;
    }
    cands
}

/// Pick the non-past candidate session with the most contributions,
/// earliest on a tie; nothing when every candidate lies in the past.
#[verifier::loop_isolation(false)]
fn select_best_session(
    dates: &Vec<SourcedEarningsTime>,
    cands: &Vec<Date>,
    today: Date,
) -> (r: Option<Date>)
    requires
        forall|i: int| 0 <= i < dates@.len() ==> estimate_in_op_range(#[trigger] dates@[i]),
        forall|k: int| 0 <= k < cands@.len() ==> candidate_ok(dates@, #[trigger] cands@[k]),
        forall|ii: int, d: int|
            0 <= ii < dates@.len() && #[trigger] contributes(dates@[ii].datetime, d) ==> has_day(
                cands@,
                d,
            ),
    ensures
        match r {
            None => forall|d: int| d >= today.day() ==> support(dates@, d) == 0,
            Some(bd) => is_best_session(dates@, today.day(), bd.day()) && day_in_range(bd.day()),
        },
{
    broadcast use vstd::seq_lib::group_seq_properties;

    let mut best: Option<Date> = None;
    let mut best_count: usize = 0;
    let mut k: usize = 0;
    while k < cands.len()
        invariant
            0 <= k <= cands@.len(),
            match best {
                None => best_count == 0 && forall|k2: int|
                    0 <= k2 < k ==> (#[trigger] cands@[k2]).day() < today.day(),
                Some(bd) => {
                    &&& day_in_range(bd.day())
                    &&& bd.day() >= today.day()
                    &&& best_count == support(dates@, bd.day())
                    &&& best_count > 0
                    &&& forall|k2: int|
                        0 <= k2 < k && (#[trigger] cands@[k2]).day() >= today.day() ==> (support(
                            dates@,
                            cands@[k2].day(),
                        ) < best_count || (support(dates@, cands@[k2].day()) == best_count
                            && bd.day() <= cands@[k2].day()))
                },
            },
        decreases cands@.len() - k,
    {
        let dc = cands[k];
        if dc.days >= today.days {
            let c = count_support(dates, dc);
            proof {
                let ii = choose|ii: int|
                    0 <= ii < dates@.len() && contributes(dates@[ii].datetime, dc.day());
                dates@.lemma_filter_contains(contrib_pred(dc.day()), ii);
                assert(c > 0);
            }
            let take_it = match best {
                None => true,
                Some(bd) => c > best_count || (c == best_count && dc.days < bd.days),
            };
            if take_it {
                best = Some(dc);
                best_count = c;
            }
        }
        k = k + 1;
    }
    proof {
        match best {
            None => {
                assert forall|d: int| d >= today.day() implies support(dates@, d) == 0 by {
                    if support(dates@, d) > 0 {
                        lemma_filter_member(dates@, contrib_pred(d));
                        let ii = choose|ii: int|
                            0 <= ii < dates@.len() && contrib_pred(d)(dates@[ii]);
                        assert(contributes(dates@[ii].datetime, d));
                        assert(has_day(cands@, d));
                        let k2 = choose|k2: int|
                            0 <= k2 < cands@.len() && cands@[k2].day() == d;
                        assert(cands@[k2].day() < today.day());
                    }
                }
            },
            Some(bd) => {
                assert forall|d2: int| d2 >= today.day() implies #[trigger] support(dates@, d2)
                    <= support(dates@, bd.day()) by {
                    if support(dates@, d2) > 0 {
                        lemma_filter_member(dates@, contrib_pred(d2));
                        let ii = choose|ii: int|
                            0 <= ii < dates@.len() && contrib_pred(d2)(dates@[ii]);
                        assert(contributes(dates@[ii].datetime, d2));
                        assert(has_day(cands@, d2));
                        let k2 = choose|k2: int|
                            0 <= k2 < cands@.len() && cands@[k2].day() == d2;
                        assert(support(dates@, cands@[k2].day()) <= best_count);
                    }
                }
                assert forall|d2: int|
                    d2 >= today.day() && #[trigger] support(dates@, d2) == support(
                        dates@,
                        bd.day(),
                    ) implies bd.day() <= d2 by {
                    lemma_filter_member(dates@, contrib_pred(d2));
                    let ii = choose|ii: int| 0 <= ii < dates@.len() && contrib_pred(d2)(dates@[ii]);
                    assert(contributes(dates@[ii].datetime, d2));
                    assert(has_day(cands@, d2));
                    let k2 = choose|k2: int| 0 <= k2 < cands@.len() && cands@[k2].day() == d2;
                    assert(bd.day() <= cands@[k2].day());
                }
            },
        }
    }
    best
}

/// The estimate contributes to some session outside the one-trading-day
/// neighbourhood of `w` (executable form of [`stray_contributor`]).
fn is_stray(e: &SourcedEarningsTime, w: Date, prev_w: Date, next_w: Date) -> (r: bool)
    requires
        estimate_in_op_range(*e),
        prev_w.day() == prev_trading_day_number(w.day()),
        next_w.day() == next_trading_day_number(w.day()),
    ensures
        r == stray_contributor(e.datetime, w.day()),
{
    let (last, fuzzy) = e.datetime.last_session();
    if last.days != w.days && last.days != prev_w.days && last.days != next_w.days {
        true
    } else if fuzzy {
        let ln = last.next_trading_day();
        let lp = last.prev_trading_day();
        (ln.days != w.days && ln.days != prev_w.days && ln.days != next_w.days) || (lp.days
            != w.days && lp.days != prev_w.days && lp.days != next_w.days)
    } else {
        false
    }
}

/// The estimates of `dates` contributing to some session outside the
/// one-trading-day neighbourhood of `w`, cloned in input order.
#[verifier::loop_isolation(false)]
fn collect_strays(dates: &Vec<SourcedEarningsTime>, w: Date, prev_w: Date, next_w: Date) -> (out:
    Vec<SourcedEarningsTime>)
    requires
        forall|i: int| 0 <= i < dates@.len() ==> estimate_in_op_range(#[trigger] dates@[i]),
        prev_w.day() == prev_trading_day_number(w.day()),
        next_w.day() == next_trading_day_number(w.day()),
    ensures
        out@ == dates@.filter(stray_pred(w.day())),
{
    broadcast use vstd::seq_lib::group_seq_properties;

    let mut out: Vec<SourcedEarningsTime> = Vec::new();
    let mut i: usize = 0;
    while i < dates.len()
        invariant
            0 <= i <= dates@.len(),
            out@ == dates@.take(i as int).filter(stray_pred(w.day())),
        decreases dates@.len() - i,
    {
        proof {
            dates@.lemma_take_succ_push(i as int);
            dates@.take(i as int).lemma_filter_push(dates@[i as int], stray_pred(w.day()));
        }
        if is_stray(&dates[i], w, prev_w, next_w) {
            out.push(dates[i].clone());
        }
        i = i + 1;
    }
    proof {
        dates@.lemma_take_len();
    }
    out
}

/// The consensus for a given value of "today": group every estimate by its
/// last trading session (widened by one trading day each way when fuzzy),
/// pick the non-past session with the most contributions (earliest on a
/// tie), and partition the estimates into concurrences, close disagreements
/// and far disagreements; no consensus when every candidate lies in the
/// past.
pub fn best_earnings_guess_for_day(dates: &Vec<SourcedEarningsTime>, today: Date) -> (r: Option<
    EarningsGuess,
>)
    requires
        forall|i: int| 0 <= i < dates@.len() ==> estimate_in_op_range(#[trigger] dates@[i]),
    ensures
        consensus_post(dates@, today.day(), r),
{
    let cands = collect_candidates(dates);
    let picked = select_best_session(dates, &cands, today);
    match picked {
        None => None,
        Some(w) => {
            let conc = collect_contributors(dates, w);
            let prev_w = w.prev_trading_day();
            let next_w = w.next_trading_day();
            let mut close_base = collect_contributors(dates, prev_w);
            let mut next_part = collect_contributors(dates, next_w);
            close_base.append(&mut next_part);
            let no_seen: Vec<SourcedEarningsTime> = Vec::new();
            let close = push_unseen(&close_base, &conc, &no_seen);
            proof {
                assert(source_set(no_seen@) =~= Set::<Seq<char>>::empty());
                assert(source_set(conc@).union(source_set(no_seen@)) =~= source_set(conc@));
            }
            let far_base = collect_strays(dates, w, prev_w, next_w);
            let far = push_unseen(&far_base, &conc, &close);
            Some(
                EarningsGuess {
                    last_session: w,
                    concurrences: conc,
                    close_disagreements: close,
                    far_disagreements: far,
                },
            )
        },
    }
}


/// Every element kept by a filter is an element of the original sequence.
proof fn lemma_filter_subset<A>(s: Seq<A>, pred: spec_fn(A) -> bool)
    ensures
        forall|x: A| s.filter(pred).contains(x) ==> s.contains(x),
{
    assert forall|x: A| s.filter(pred).contains(x) implies s.contains(x) by {
        s.lemma_filter_contains_rev(pred, x);
    }
}

/// A predicate that holds everywhere filters to the sequence itself.
proof fn lemma_filter_all<A>(s: Seq<A>, pred: spec_fn(A) -> bool)
    requires
        forall|i: int| 0 <= i < s.len() ==> pred(#[trigger] s[i]),
    ensures
        s.filter(pred) == s,
    decreases s.len(),
{
    reveal(Seq::filter);
    if s.len() > 0 {
        lemma_filter_all(s.drop_last(), pred);
        assert(s.drop_last().push(s.last()) =~= s);
    }
}

/// Concatenation unions the source sets.
proof fn lemma_source_set_add(x: Seq<SourcedEarningsTime>, y: Seq<SourcedEarningsTime>)
    ensures
        source_set(x + y) == source_set(x).union(source_set(y)),
{
    assert forall|src: Seq<char>| source_set(x + y).contains(src) implies source_set(x).union(
        source_set(y),
    ).contains(src) by {
        let i = choose|i: int| 0 <= i < (x + y).len() && (x + y)[i].source@ == src;
        if i < x.len() {
            assert(x[i].source@ == src);
        } else {
            assert(y[i - x.len()].source@ == src);
        }
    }
    assert forall|src: Seq<char>| source_set(x).union(source_set(y)).contains(src)
        implies source_set(x + y).contains(src) by {
        if source_set(x).contains(src) {
            let i = choose|i: int| 0 <= i < x.len() && x[i].source@ == src;
            assert((x + y)[i].source@ == src);
        } else {
            let i = choose|i: int| 0 <= i < y.len() && y[i].source@ == src;
            assert((x + y)[x.len() + i].source@ == src);
        }
    }
    assert(source_set(x + y) =~= source_set(x).union(source_set(y)));
}

/// The source set of a single estimate.
proof fn lemma_source_set_singleton(e: SourcedEarningsTime)
    ensures
        source_set(seq![e]) == Set::<Seq<char>>::empty().insert(e.source@),
{
    assert(seq![e][0] == e);
    assert(source_set(seq![e]) =~= Set::<Seq<char>>::empty().insert(e.source@));
}

/// Deduplication keeps exactly the sources not yet seen.
proof fn lemma_dedup_sources(s: Seq<SourcedEarningsTime>, seen: Set<Seq<char>>)
    ensures
        source_set(dedup_excluding(s, seen)) == source_set(s).difference(seen),
    decreases s.len(),
{
    if s.len() == 0 {
        assert(source_set(dedup_excluding(s, seen)) =~= source_set(s).difference(seen));
    } else {
        let rest = s.drop_first();
        assert(s =~= seq![s[0]] + rest);
        lemma_source_set_add(seq![s[0]], rest);
        lemma_source_set_singleton(s[0]);
        if seen.contains(s[0].source@) {
            lemma_dedup_sources(rest, seen);
            assert(source_set(dedup_excluding(s, seen)) =~= source_set(s).difference(seen));
        } else {
            lemma_dedup_sources(rest, seen.insert(s[0].source@));
            lemma_source_set_add(seq![s[0]], dedup_excluding(rest, seen.insert(s[0].source@)));
            assert(source_set(dedup_excluding(s, seen)) =~= source_set(s).difference(seen));
        }
    }
}

/// The source of a kept element appears in the filtered sequence's sources.
proof fn lemma_source_set_filter_member(
    s: Seq<SourcedEarningsTime>,
    pred: spec_fn(SourcedEarningsTime) -> bool,
    i: int,
)
    requires
        0 <= i < s.len(),
        pred(s[i]),
    ensures
        source_set(s.filter(pred)).contains(s[i].source@),
{
    s.lemma_filter_contains(pred, i);
    let f = s.filter(pred);
    let j = choose|j: int| 0 <= j < f.len() && f[j] == s[i];
    assert(f[j].source@ == s[i].source@);
}

/// Sources of a filtered sequence are sources of the original.
proof fn lemma_source_set_filter_subset(
    s: Seq<SourcedEarningsTime>,
    pred: spec_fn(SourcedEarningsTime) -> bool,
)
    ensures
        forall|src: Seq<char>|
            source_set(s.filter(pred)).contains(src) ==> source_set(s).contains(src),
{
    lemma_filter_subset(s, pred);
    assert forall|src: Seq<char>| source_set(s.filter(pred)).contains(src) implies source_set(
        s,
    ).contains(src) by {
        let f = s.filter(pred);
        let i = choose|i: int| 0 <= i < f.len() && f[i].source@ == src;
        assert(f.contains(f[i]));
        assert(s.contains(f[i]));
        let j = choose|j: int| 0 <= j < s.len() && s[j] == f[i];
        assert(s[j].source@ == src);
    }
}

/// For any input, the three lists of a consensus are pairwise disjoint by
/// source identity and together cover exactly the sources that produced an
/// estimate.
pub proof fn lemma_consensus_partitions_sources(
    s: Seq<SourcedEarningsTime>,
    today: int,
    g: EarningsGuess,
)
    requires
        consensus_post(s, today, Some(g)),
    ensures
        source_set(g.concurrences@).disjoint(source_set(g.close_disagreements@)),
        source_set(g.concurrences@).disjoint(source_set(g.far_disagreements@)),
        source_set(g.close_disagreements@).disjoint(source_set(g.far_disagreements@)),
        source_set(g.concurrences@).union(source_set(g.close_disagreements@)).union(
            source_set(g.far_disagreements@),
        ) == source_set(s),
{
    let w = g.last_session.day();
    let pw = prev_trading_day_number(w);
    let nw = next_trading_day_number(w);
    let conc = g.concurrences@;
    let base = contributors(s, pw) + contributors(s, nw);
    let strays = s.filter(stray_pred(w));
    let ca = source_set(conc);
    let cb = source_set(g.close_disagreements@);
    let cc = source_set(g.far_disagreements@);
    lemma_dedup_sources(base, ca);
    lemma_dedup_sources(strays, ca.union(cb));
    lemma_source_set_add(contributors(s, pw), contributors(s, nw));
    assert forall|src: Seq<char>| source_set(s).contains(src) implies ca.union(cb).union(
        cc,
    ).contains(src) by {
        let i = choose|i: int| 0 <= i < s.len() && s[i].source@ == src;
        let e = s[i];
        let last = e.datetime.spec_last_session();
        if last == w {
            assert(contributes(e.datetime, w));
            assert(contrib_pred(w)(e));
            lemma_source_set_filter_member(s, contrib_pred(w), i);
        } else if last == pw {
            assert(contrib_pred(pw)(e));
            lemma_source_set_filter_member(s, contrib_pred(pw), i);
        } else if last == nw {
            assert(contrib_pred(nw)(e));
            lemma_source_set_filter_member(s, contrib_pred(nw), i);
        } else {
            assert(outside_neighbourhood(last, w));
            assert(stray_pred(w)(e));
            lemma_source_set_filter_member(s, stray_pred(w), i);
        }
    }
    assert forall|src: Seq<char>| ca.union(cb).union(cc).contains(src) implies source_set(
        s,
    ).contains(src) by {
        lemma_source_set_filter_subset(s, contrib_pred(w));
        lemma_source_set_filter_subset(s, contrib_pred(pw));
        lemma_source_set_filter_subset(s, contrib_pred(nw));
        lemma_source_set_filter_subset(s, stray_pred(w));
    }
    assert(ca.union(cb).union(cc) =~= source_set(s));
}

/// When every source reports the same non-fuzzy session on or after today,
/// the consensus is that session, every estimate concurs, and both
/// disagreement lists are empty.
pub proof fn lemma_unanimous_consensus(
    s: Seq<SourcedEarningsTime>,
    today: int,
    session: int,
    r: Option<EarningsGuess>,
)
    requires
        s.len() > 0,
        forall|i: int| 0 <= i < s.len() ==> !(#[trigger] s[i]).datetime.spec_fuzzy(),
        forall|i: int|
            0 <= i < s.len() ==> (#[trigger] s[i]).datetime.spec_last_session() == session,
        session >= today,
        consensus_post(s, today, r),
    ensures
        r is Some,
        r matches Some(g) ==> {
            &&& g.last_session.day() == session
            &&& g.concurrences@ == s
            &&& g.close_disagreements@ == Seq::<SourcedEarningsTime>::empty()
            &&& g.far_disagreements@ == Seq::<SourcedEarningsTime>::empty()
        },
{
    assert forall|i: int| 0 <= i < s.len() implies contrib_pred(session)(#[trigger] s[i]) by {
        assert(contributes(s[i].datetime, session));
    }
    lemma_filter_all(s, contrib_pred(session));
    assert(support(s, session) == s.len());
    if r is None {
        assert(support(s, session) == 0);
        assert(false);
    }
    let g = r->Some_0;
    let w = g.last_session.day();
    lemma_filter_member(s, contrib_pred(w));
    let i = choose|i: int| 0 <= i < s.len() && contrib_pred(w)(s[i]);
    assert(contributes(s[i].datetime, w));
    assert(w == session);
    assert(g.concurrences@ == s);
    let pw = prev_trading_day_number(w);
    let nw = next_trading_day_number(w);
    assert forall|i2: int| 0 <= i2 < s.len() implies !contrib_pred(pw)(#[trigger] s[i2]) by {
        assert(pw != session);
    }
    assert forall|i2: int| 0 <= i2 < s.len() implies !contrib_pred(nw)(#[trigger] s[i2]) by {
        assert(nw != session);
    }
    lemma_filter_none(s, contrib_pred(pw));
    lemma_filter_none(s, contrib_pred(nw));
    assert(contributors(s, pw) + contributors(s, nw)
        =~= Seq::<SourcedEarningsTime>::empty());
    assert forall|i2: int| 0 <= i2 < s.len() implies !stray_pred(w)(#[trigger] s[i2]) by {
        assert(!outside_neighbourhood(s[i2].datetime.spec_last_session(), w));
    }
    lemma_filter_none(s, stray_pred(w));
}

/// A consensus never selects a session strictly before today.
pub proof fn lemma_no_past_selection(s: Seq<SourcedEarningsTime>, today: int, g: EarningsGuess)
    requires
        consensus_post(s, today, Some(g)),
    ensures
        g.last_session.day() >= today,
{
}

/// On equal support, the consensus selects the earlier session.
pub proof fn lemma_tie_breaks_earliest(
    s: Seq<SourcedEarningsTime>,
    today: int,
    g: EarningsGuess,
    d2: int,
)
    requires
        consensus_post(s, today, Some(g)),
        d2 >= today,
        support(s, d2) == support(s, g.last_session.day()),
    ensures
        g.last_session.day() <= d2,
{
}

/// Relies on chrono: `Local::now().date_naive()` is the current calendar
/// day in the machine's local time zone, and `Datelike::num_days_from_ce`
/// counts it in days with day 1 = January 1 of year 1 of the proleptic
/// Gregorian calendar — the count [`Date`] uses.  chrono documents
/// `NaiveDate` as limited to roughly plus or minus 262,000 years, so the
/// count stays well inside the stated bounds.
#[verifier::external_body]
fn current_day_number() -> (r: i64)
    ensures
        -100_000_000 <= r <= 100_000_000,
{
    chrono::Datelike::num_days_from_ce(&chrono::Local::now().date_naive()) as i64
}

/// The consensus for the machine's current local day.
///
/// Whatever day the clock reports, the result satisfies the consensus
/// contract for some representable day; when the clock lies outside the
/// representable calendar there is no consensus.
pub fn best_earnings_guess(dates: &Vec<SourcedEarningsTime>) -> (r: Option<EarningsGuess>)
    requires
        forall|i: int| 0 <= i < dates@.len() ==> estimate_in_op_range(#[trigger] dates@[i]),
    ensures
        r matches Some(g) ==> exists|t: int|
            day_in_range(t) && consensus_post(dates@, t, Some(g)),
{
    let t = current_day_number();
    if MIN_DAY_NUMBER <= t && t <= MAX_DAY_NUMBER {
        let today = Date { days: t };
        let r = best_earnings_guess_for_day(dates, today);
        proof {
            if r is Some {
                let g = r->Some_0;
                assert(day_in_range(today.day()) && consensus_post(
                    dates@,
                    today.day(),
                    Some(g),
                ));
            }
        }
        r
    } else {
        None
    }
}

/// Append the always-trusted baseline estimate, under the reserved source
/// identity `CML`, to the scraped estimates before consensus runs.
pub fn add_baseline_estimate(dates: &mut Vec<SourcedEarningsTime>, datetime: EarningsDateTime)
    ensures
        final(dates)@.len() == old(dates)@.len() + 1,
        final(dates)@.take(old(dates)@.len() as int) == old(dates)@,
        final(dates)@.last().datetime == datetime,
        final(dates)@.last().source@ == "CML"@,
{
    dates.push(SourcedEarningsTime { datetime, source: "CML".to_owned() });
    proof {
        assert(dates@.take(old(dates)@.len() as int) =~= old(dates)@);
    }
}

/// The cached consensus is still fresh for `today`: its selected session is
/// no earlier than two trading days before today.
pub fn guess_is_fresh(g: &EarningsGuess, today: Date) -> (r: bool)
    requires
        day_in_op_range(today.day()),
    ensures
        r == (g.last_session.day() >= prev_trading_day_number(
            prev_trading_day_number(today.day()),
        )),
{
    let t1 = today.prev_trading_day();
    let t2 = t1.prev_trading_day();
    g.last_session.days >= t2.days
}

} // verus!
