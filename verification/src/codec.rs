//! The persisted form of a consensus result: a character-level codec with a
//! proved round trip.
//!
//! A guess is written as its last session's day number, then its three
//! estimate lists.  A number is decimal digits closed by `;`; an estimate
//! is its date, a one-letter announce-time code, and its length-prefixed
//! source name; a list is its estimates closed by `.`.  Length-prefixing
//! the source name lets it hold any character.

use vstd::prelude::*;

use vstd::string::StringExecFns;

use crate::calendar::{day_in_range, Date, MAX_DAY_NUMBER};
use crate::digits::{
    all_digits, dec_digits, digits_value, is_digit, lemma_dec_digits_value, lemma_digits_prefix_le,
    push_decimal,
};
use crate::earnings::{
    views_of, AnnounceTime, EarningsDateTime, EarningsGuess, EstimateView, GuessView,
    SourcedEarningsTime,
};

verus! {

/// A number: its decimal digits closed by a semicolon.
pub open spec fn enc_nat(n: int) -> Seq<char> {
    dec_digits(n) + seq![';']
}

/// The one-letter code of an announce time.
pub open spec fn time_char(t: AnnounceTime) -> char {
    match t {
        AnnounceTime::BeforeMarket => 'B',
        AnnounceTime::AfterMarket => 'A',
        AnnounceTime::Unknown => 'U',
    }
}

/// An estimate: its date, its announce-time code, and its length-prefixed
/// source identity.
pub open spec fn enc_estimate(e: EstimateView) -> Seq<char> {
    enc_nat(e.date) + seq![time_char(e.time)] + enc_nat(e.source.len() as int) + e.source
}

/// The estimates of a list, concatenated.
pub open spec fn enc_cat(l: Seq<EstimateView>) -> Seq<char>
    decreases l.len(),
{
    if l.len() == 0 {
        Seq::empty()
    } else {
        enc_estimate(l[0]) + enc_cat(l.drop_first())
    }
}

/// A list: its estimates closed by a full stop.
pub open spec fn enc_list(l: Seq<EstimateView>) -> Seq<char> {
    enc_cat(l) + seq!['.']
}

/// A guess: its last session, then its three lists.
pub open spec fn enc_guess(g: GuessView) -> Seq<char> {
    enc_nat(g.last_session) + enc_list(g.concurrences) + enc_list(g.close_disagreements)
        + enc_list(g.far_disagreements)
}

/// The estimate's date is a representable day.
pub open spec fn est_view_wf(e: EstimateView) -> bool {
    day_in_range(e.date)
}

/// Every date of the guess is a representable day.
pub open spec fn guess_view_wf(g: GuessView) -> bool {
    &&& day_in_range(g.last_session)
    &&& forall|i: int|
        0 <= i < g.concurrences.len() ==> est_view_wf(#[trigger] g.concurrences[i])
    &&& forall|i: int|
        0 <= i < g.close_disagreements.len() ==> est_view_wf(#[trigger] g.close_disagreements[i])
    &&& forall|i: int|
        0 <= i < g.far_disagreements.len() ==> est_view_wf(#[trigger] g.far_disagreements[i])
}

/// The index of the first semicolon, or the length when none.
pub open spec fn semi_pos(s: Seq<char>) -> int
    decreases s.len(),
{
    if s.len() == 0 {
        0
    } else if s[0] == ';' {
        0
    } else {
        1 + semi_pos(s.drop_first())
    }
}

/// Read a number: the digits before the first semicolon.
pub open spec fn dec_nat(s: Seq<char>) -> Option<(int, Seq<char>)> {
    let j = semi_pos(s);
    if j == s.len() {
        None
    } else if all_digits(s.take(j)) {
        Some((digits_value(s.take(j)), s.skip(j + 1)))
    } else {
        None
    }
}

/// Read an announce-time code.
pub open spec fn dec_time(s: Seq<char>) -> Option<(AnnounceTime, Seq<char>)> {
    if s.len() == 0 {
        None
    } else if s[0] == 'B' {
        Some((AnnounceTime::BeforeMarket, s.drop_first()))
    } else if s[0] == 'A' {
        Some((AnnounceTime::AfterMarket, s.drop_first()))
    } else if s[0] == 'U' {
        Some((AnnounceTime::Unknown, s.drop_first()))
    } else {
        None
    }
}

/// Read an estimate: a representable date, a time code, and a
/// length-prefixed source that the input must still hold.
pub open spec fn dec_estimate(s: Seq<char>) -> Option<(EstimateView, Seq<char>)> {
    match dec_nat(s) {
        Some(dp) => if day_in_range(dp.0) {
            match dec_time(dp.1) {
                Some(tp) => match dec_nat(tp.1) {
                    Some(lp) => if lp.0 <= lp.1.len() {
                        Some(
                            (
                                EstimateView {
                                    date: dp.0,
                                    time: tp.0,
                                    source: lp.1.take(lp.0),
                                },
                                lp.1.skip(lp.0),
                            ),
                        )
                    } else {
                        None
                    },
                    None => None,
                },
                None => None,
            }
        } else {
            None
        },
        None => None,
    }
}

/// Read a list: estimates until the closing full stop.
pub open spec fn dec_list(s: Seq<char>) -> Option<(Seq<EstimateView>, Seq<char>)>
    decreases s.len(),
{
    if s.len() == 0 {
        None
    } else if s[0] == '.' {
        Some((Seq::empty(), s.drop_first()))
    } else {
        match dec_estimate(s) {
            Some(ep) => if ep.1.len() < s.len() {
                match dec_list(ep.1) {
                    Some(lp) => Some((seq![ep.0] + lp.0, lp.1)),
                    None => None,
                }
            } else {
                None
            },
            None => None,
        }
    }
}

/// Read one guess, leaving whatever follows it.
pub open spec fn dec_guess_part(s: Seq<char>) -> Option<(GuessView, Seq<char>)> {
    match dec_nat(s) {
        Some(dp) => if day_in_range(dp.0) {
            match dec_list(dp.1) {
                Some(cp) => match dec_list(cp.1) {
                    Some(kp) => match dec_list(kp.1) {
                        Some(fp) => Some(
                            (
                                GuessView {
                                    last_session: dp.0,
                                    concurrences: cp.0,
                                    close_disagreements: kp.0,
                                    far_disagreements: fp.0,
                                },
                                fp.1,
                            ),
                        ),
                        None => None,
                    },
                    None => None,
                },
                None => None,
            }
        } else {
            None
        },
        None => None,
    }
}

/// Read a whole guess; the input must hold nothing else.
pub open spec fn dec_guess(s: Seq<char>) -> Option<GuessView> {
    match dec_guess_part(s) {
        Some(gp) => if gp.1.len() == 0 {
            Some(gp.0)
        } else {
            None
        },
        None => None,
    }
}

/// A cache entry: the symbol, length-prefixed, then its guess.
pub open spec fn enc_entry(sym: Seq<char>, g: GuessView) -> Seq<char> {
    enc_nat(sym.len() as int) + sym + enc_guess(g)
}

/// A cache: its entries, concatenated.
pub open spec fn enc_cache(l: Seq<(Seq<char>, GuessView)>) -> Seq<char>
    decreases l.len(),
{
    if l.len() == 0 {
        Seq::empty()
    } else {
        enc_entry(l[0].0, l[0].1) + enc_cache(l.drop_first())
    }
}

/// Read one cache entry, leaving whatever follows it.
pub open spec fn dec_entry(s: Seq<char>) -> Option<((Seq<char>, GuessView), Seq<char>)> {
    match dec_nat(s) {
        Some(np) => if np.0 <= np.1.len() {
            match dec_guess_part(np.1.skip(np.0)) {
                Some(gp) => Some(((np.1.take(np.0), gp.0), gp.1)),
                None => None,
            }
        } else {
            None
        },
        None => None,
    }
}

/// Read a whole cache: entries until the input runs out.
pub open spec fn dec_cache(s: Seq<char>) -> Option<Seq<(Seq<char>, GuessView)>>
    decreases s.len(),
{
    if s.len() == 0 {
        Some(Seq::empty())
    } else {
        match dec_entry(s) {
            Some(ep) => if ep.1.len() < s.len() {
                match dec_cache(ep.1) {
                    Some(l) => Some(seq![ep.0] + l),
                    None => None,
                }
            } else {
                None
            },
            None => None,
        }
    }
}

/// A scan that stopped at the first semicolon found it.
proof fn lemma_semi_pos_characterize(s: Seq<char>, j: int)
    requires
        0 <= j <= s.len(),
        forall|k: int| 0 <= k < j ==> (#[trigger] s[k]) != ';',
        j == s.len() || s[j] == ';',
    ensures
        semi_pos(s) == j,
    decreases s.len(),
{
    if s.len() > 0 && j > 0 {
        lemma_semi_pos_characterize(s.drop_first(), j - 1);
    }
}

/// Reading a written number gives the number back and leaves the rest.
proof fn lemma_dec_nat_enc(n: int, rest: Seq<char>)
    requires
        n >= 0,
    ensures
        dec_nat(enc_nat(n) + rest) == Some((n, rest)),
{
    let s = enc_nat(n) + rest;
    lemma_dec_digits_value(n);
    let k = dec_digits(n).len() as int;
    assert forall|i: int| 0 <= i < k implies (#[trigger] s[i]) != ';' by {
        assert(s[i] == dec_digits(n)[i]);
        assert(is_digit(dec_digits(n)[i]));
    }
    assert(s[k] == ';');
    lemma_semi_pos_characterize(s, k);
    assert(s.take(k) =~= dec_digits(n));
    assert(s.skip(k + 1) =~= rest);
}

/// Reading a written estimate gives the estimate back and leaves the rest.
proof fn lemma_dec_estimate_enc(e: EstimateView, rest: Seq<char>)
    requires
        est_view_wf(e),
    ensures
        dec_estimate(enc_estimate(e) + rest) == Some((e, rest)),
{
    let s = enc_estimate(e) + rest;
    let n = e.source.len() as int;
    let r1 = seq![time_char(e.time)] + (enc_nat(n) + (e.source + rest));
    assert(s =~= enc_nat(e.date) + r1);
    lemma_dec_nat_enc(e.date, r1);
    let r2 = enc_nat(n) + (e.source + rest);
    assert(r1[0] == time_char(e.time));
    assert(r1.drop_first() =~= r2);
    lemma_dec_nat_enc(n, e.source + rest);
    let s3 = e.source + rest;
    assert(s3.take(n) =~= e.source);
    assert(s3.skip(n) =~= rest);
    assert((EstimateView { date: e.date, time: e.time, source: s3.take(n) }) == e);
}

/// Reading a written list gives the list back and leaves the rest.
proof fn lemma_dec_list_enc(l: Seq<EstimateView>, rest: Seq<char>)
    requires
        forall|i: int| 0 <= i < l.len() ==> est_view_wf(#[trigger] l[i]),
    ensures
        dec_list(enc_list(l) + rest) == Some((l, rest)),
    decreases l.len(),
{
    let s = enc_list(l) + rest;
    if l.len() == 0 {
        assert(s =~= seq!['.'] + rest);
        assert(s[0] == '.');
        assert(s.drop_first() =~= rest);
        assert(dec_list(s) == Some((Seq::<EstimateView>::empty(), rest)));
        assert(l =~= Seq::<EstimateView>::empty());
    } else {
        let tail = enc_list(l.drop_first()) + rest;
        assert(s =~= enc_estimate(l[0]) + tail);
        lemma_dec_estimate_enc(l[0], tail);
        lemma_dec_digits_value(l[0].date);
        assert(s[0] == dec_digits(l[0].date)[0]);
        assert(is_digit(s[0]));
        assert(s[0] != '.');
        assert(s.len() > 0);
        assert(tail.len() < s.len());
        lemma_dec_list_enc(l.drop_first(), rest);
        assert(seq![l[0]] + l.drop_first() =~= l);
    }
}

/// Reading a written guess gives the guess back and leaves the rest.
proof fn lemma_dec_guess_part_enc(g: GuessView, rest: Seq<char>)
    requires
        guess_view_wf(g),
    ensures
        dec_guess_part(enc_guess(g) + rest) == Some((g, rest)),
{
    let s = enc_guess(g) + rest;
    let r1 = enc_list(g.concurrences) + (enc_list(g.close_disagreements) + (enc_list(
        g.far_disagreements,
    ) + rest));
    assert(s =~= enc_nat(g.last_session) + r1);
    lemma_dec_nat_enc(g.last_session, r1);
    let r2 = enc_list(g.close_disagreements) + (enc_list(g.far_disagreements) + rest);
    lemma_dec_list_enc(g.concurrences, r2);
    let r3 = enc_list(g.far_disagreements) + rest;
    lemma_dec_list_enc(g.close_disagreements, r3);
    lemma_dec_list_enc(g.far_disagreements, rest);
}

/// Writing a consensus and reading it back yields it unchanged, field for
/// field.
pub proof fn lemma_guess_roundtrip(g: GuessView)
    requires
        guess_view_wf(g),
    ensures
        dec_guess(enc_guess(g)) == Some(g),
{
    lemma_dec_guess_part_enc(g, Seq::<char>::empty());
    assert(enc_guess(g) + Seq::<char>::empty() =~= enc_guess(g));
}

/// Every date of every entry of the cache is a representable day.
pub open spec fn cache_view_wf(l: Seq<(Seq<char>, GuessView)>) -> bool {
    forall|i: int| 0 <= i < l.len() ==> guess_view_wf((#[trigger] l[i]).1)
}

/// Reading a written entry gives the entry back and leaves the rest.
proof fn lemma_dec_entry_enc(sym: Seq<char>, g: GuessView, rest: Seq<char>)
    requires
        guess_view_wf(g),
    ensures
        dec_entry(enc_entry(sym, g) + rest) == Some(((sym, g), rest)),
        (enc_entry(sym, g) + rest).len() > rest.len(),
{
    let s = enc_entry(sym, g) + rest;
    let n = sym.len() as int;
    let r1 = sym + (enc_guess(g) + rest);
    assert(s =~= enc_nat(n) + r1);
    lemma_dec_nat_enc(n, r1);
    assert(r1.take(n) =~= sym);
    assert(r1.skip(n) =~= enc_guess(g) + rest);
    lemma_dec_guess_part_enc(g, rest);
    lemma_dec_digits_value(n);
}

/// Writing a cache and reading it back yields every entry unchanged.
pub proof fn lemma_cache_roundtrip(l: Seq<(Seq<char>, GuessView)>)
    requires
        cache_view_wf(l),
    ensures
        dec_cache(enc_cache(l)) == Some(l),
    decreases l.len(),
{
    if l.len() == 0 {
    } else {
        let rest = enc_cache(l.drop_first());
        let s = enc_entry(l[0].0, l[0].1) + rest;
        assert(enc_cache(l) == s);
        lemma_dec_entry_enc(l[0].0, l[0].1, rest);
        assert(s.len() > 0);
        assert forall|i: int| 0 <= i < l.drop_first().len() implies guess_view_wf(
            (#[trigger] l.drop_first()[i]).1,
        ) by {
            assert(l.drop_first()[i] == l[i + 1]);
        }
        lemma_cache_roundtrip(l.drop_first());
        assert(seq![l[0]] + l.drop_first() =~= l);
    }
}


/// Concatenated encoding grows by one estimate at the end.
proof fn lemma_enc_cat_snoc(l: Seq<EstimateView>, e: EstimateView)
    ensures
        enc_cat(l.push(e)) == enc_cat(l) + enc_estimate(e),
    decreases l.len(),
{
    if l.len() == 0 {
        assert(l.push(e)[0] == e);
        assert(l.push(e).drop_first() =~= Seq::<EstimateView>::empty());
        assert(enc_cat(Seq::<EstimateView>::empty()) == Seq::<char>::empty());
        assert(enc_cat(l.push(e)) == enc_estimate(e) + Seq::<char>::empty());
        assert(enc_cat(l) == Seq::<char>::empty());
        assert(enc_estimate(e) + Seq::<char>::empty() =~= Seq::<char>::empty() + enc_estimate(
            e,
        ));
    } else {
        assert(l.push(e)[0] == l[0]);
        assert(l.push(e).drop_first() =~= l.drop_first().push(e));
        assert(enc_cat(l.push(e)) == enc_estimate(l[0]) + enc_cat(l.drop_first().push(e)));
        lemma_enc_cat_snoc(l.drop_first(), e);
        assert(enc_estimate(l[0]) + (enc_cat(l.drop_first()) + enc_estimate(e)) =~= (enc_estimate(
            l[0],
        ) + enc_cat(l.drop_first())) + enc_estimate(e));
    }
}

/// Write one estimate onto the end of `out`.
fn push_estimate(out: &mut String, e: &SourcedEarningsTime)
    requires
        day_in_range(e.datetime.date.day()),
    ensures
        final(out)@ == old(out)@ + enc_estimate(e@),
{
    push_decimal(out, e.datetime.date.days as u64);
    out.push(';');
    let tc: char = match e.datetime.time {
        AnnounceTime::BeforeMarket => 'B',
        AnnounceTime::AfterMarket => 'A',
        AnnounceTime::Unknown => 'U',
    };
    out.push(tc);
    let n = e.source.as_str().unicode_len();
    push_decimal(out, n as u64);
    out.push(';');
    out.append(e.source.as_str());
    proof {
        assert(out@ =~= old(out)@ + enc_estimate(e@));
    }
}

/// Write one estimate list, closed by its full stop, onto the end of
/// `out`.
#[verifier::loop_isolation(false)]
fn push_list(out: &mut String, l: &Vec<SourcedEarningsTime>)
    requires
        forall|i: int|
            0 <= i < l@.len() ==> day_in_range((#[trigger] l@[i]).datetime.date.day()),
    ensures
        final(out)@ == old(out)@ + enc_list(views_of(l@)),
{
    broadcast use vstd::seq_lib::group_seq_properties;

    let ghost lv = views_of(l@);
    let mut i: usize = 0;
    proof {
        assert(lv.take(0) =~= Seq::<EstimateView>::empty());
        assert(old(out)@ + Seq::<char>::empty() =~= old(out)@);
    }
    while i < l.len()
        invariant
            0 <= i <= l@.len(),
            out@ == old(out)@ + enc_cat(lv.take(i as int)),
        decreases l@.len() - i,
    {
        proof {
            lv.lemma_take_succ_push(i as int);
            lemma_enc_cat_snoc(lv.take(i as int), lv[i as int]);
            assert(lv[i as int] == l@[i as int]@);
        }
        push_estimate(out, &l[i]);
        proof {
            assert((old(out)@ + enc_cat(lv.take(i as int))) + enc_estimate(lv[i as int]) =~= old(
                out,
            )@ + enc_cat(lv.take(i as int + 1)));
        }
        i = i + 1;
    }
    proof {
        assert(lv.take(l@.len() as int) =~= lv);
    }
    out.push('.');
    proof {
        assert((old(out)@ + enc_cat(lv)).push('.') =~= old(out)@ + enc_list(lv));
    }
}

/// Write a consensus in its persisted form.
pub fn encode_guess(g: &EarningsGuess) -> (r: String)
    requires
        guess_view_wf(g@),
    ensures
        r@ == enc_guess(g@),
{
    proof {
        assert forall|i: int| 0 <= i < g.concurrences@.len() implies day_in_range(
            (#[trigger] g.concurrences@[i]).datetime.date.day(),
        ) by {
            assert(g@.concurrences[i] == g.concurrences@[i]@);
        }
        assert forall|i: int| 0 <= i < g.close_disagreements@.len() implies day_in_range(
            (#[trigger] g.close_disagreements@[i]).datetime.date.day(),
        ) by {
            assert(g@.close_disagreements[i] == g.close_disagreements@[i]@);
        }
        assert forall|i: int| 0 <= i < g.far_disagreements@.len() implies day_in_range(
            (#[trigger] g.far_disagreements@[i]).datetime.date.day(),
        ) by {
            assert(g@.far_disagreements[i] == g.far_disagreements@[i]@);
        }
    }
    let mut out = String::new();
    push_decimal(&mut out, g.last_session.days as u64);
    out.push(';');
    push_list(&mut out, &g.concurrences);
    push_list(&mut out, &g.close_disagreements);
    push_list(&mut out, &g.far_disagreements);
    proof {
        assert(out@ =~= enc_guess(g@));
    }
    out
}

/// The first semicolon cannot come before an index where none was seen.
proof fn lemma_semi_pos_lower(s: Seq<char>, j: int)
    requires
        0 <= j <= s.len(),
        forall|k: int| 0 <= k < j ==> (#[trigger] s[k]) != ';',
    ensures
        semi_pos(s) >= j,
    decreases s.len(),
{
    if s.len() > 0 && s[0] != ';' {
        lemma_semi_pos_lower(
            s.drop_first(),
            if j > 0 {
                j - 1
            } else {
                0
            },
        );
    }
}

/// The first semicolon's index never exceeds the length.
proof fn lemma_semi_pos_le(s: Seq<char>)
    ensures
        0 <= semi_pos(s) <= s.len(),
    decreases s.len(),
{
    if s.len() > 0 && s[0] != ';' {
        lemma_semi_pos_le(s.drop_first());
    }
}

/// Read a number at `pos`: digits up to a semicolon, as long as the value
/// fits a machine word.
#[verifier::loop_isolation(false)]
#[verifier::rlimit(50)]
fn dec_nat_exec(s: &str, pos: usize) -> (r: Option<(u64, usize)>)
    requires
        pos <= s@.len(),
    ensures
        match r {
            Some(p) => {
                &&& dec_nat(s@.skip(pos as int)) == Some((p.0 as int, s@.skip(p.1 as int)))
                &&& pos < p.1 <= s@.len()
            },
            None => dec_nat(s@.skip(pos as int)) is None || (dec_nat(s@.skip(pos as int)) matches
                Some(q) && q.0 > u64::MAX),
        },
{
    let len = s.unicode_len();
    let ghost body = s@.skip(pos as int);
    let mut acc: u128 = 0;
    let mut j: usize = pos;
    while j < len
        invariant
            pos <= j <= len,
            forall|k: int|
                0 <= k < j - pos ==> is_digit(#[trigger] body[k]) && body[k] != ';',
            acc == digits_value(body.take(j - pos)),
            acc <= u64::MAX,
        decreases len - j,
    {
        let c = s.get_char(j);
        proof {
            assert(body[j - pos] == s@[j as int]);
        }
        if c == ';' {
            if j == pos {
                proof {
                    lemma_semi_pos_characterize(body, 0);
                }
                return None;
            }
            proof {
                lemma_semi_pos_characterize(body, j - pos);
                assert(body.skip(j - pos + 1) =~= s@.skip(j as int + 1));
            }
            return Some((acc as u64, j + 1));
        }
        if c < '0' || c > '9' {
            proof {
                lemma_semi_pos_lower(body, j - pos + 1);
                lemma_semi_pos_le(body);
                let jj = semi_pos(body);
                if jj < body.len() {
                    assert(body.take(jj)[j - pos] == body[j - pos]);
                    assert(!is_digit(body.take(jj)[j - pos]));
                    assert(!all_digits(body.take(jj)));
                    assert(dec_nat(body) is None);
                } else {
                    assert(jj == body.len());
                    assert(dec_nat(body) is None);
                }
            }
            return None;
        }
        let d: u128 = (c as u32 as u128) - 48;
        proof {
            assert(body.take(j - pos + 1).drop_last() =~= body.take(j - pos));
            assert(body.take(j - pos + 1).last() == body[j - pos]);
        }
        if acc > (u64::MAX as u128 - d) / 10 {
            proof {
                lemma_semi_pos_lower(body, j - pos + 1);
                lemma_semi_pos_le(body);
                let jj = semi_pos(body);
                if jj < body.len() && all_digits(body.take(jj)) {
                    assert(body.take(jj).take(j - pos + 1) =~= body.take(j - pos + 1));
                    lemma_digits_prefix_le(body.take(jj), j - pos + 1);
                    assert(digits_value(body.take(j - pos + 1)) == acc * 10 + d);
                    vstd::arithmetic::div_mod::lemma_fundamental_div_mod(
                        u64::MAX as u128 as int - d,
                        10,
                    );
                    assert(acc * 10 + d > u64::MAX);
                    assert(digits_value(body.take(jj)) > u64::MAX);
                }
            }
            return None;
        }
        acc = acc * 10 + d;
        j = j + 1;
    }
    proof {
        lemma_semi_pos_characterize(body, body.len() as int);
    }
    None
}

/// Read one estimate at `pos`.
#[verifier::loop_isolation(false)]
#[verifier::rlimit(50)]
fn dec_estimate_exec(s: &str, pos: usize) -> (r: Option<(SourcedEarningsTime, usize)>)
    requires
        pos <= s@.len(),
    ensures
        match r {
            Some(p) => {
                &&& dec_estimate(s@.skip(pos as int)) == Some((p.0@, s@.skip(p.1 as int)))
                &&& pos < p.1 <= s@.len()
            },
            None => dec_estimate(s@.skip(pos as int)) is None,
        },
{
    let len = s.unicode_len();
    let date_u: u64;
    let p1: usize;
    match dec_nat_exec(s, pos) {
        Some(p) => {
            date_u = p.0;
            p1 = p.1;
        },
        None => {
            return None;
        },
    }
    if date_u < 1 || date_u > MAX_DAY_NUMBER as u64 {
        return None;
    }
    if p1 == len {
        return None;
    }
    let tc = s.get_char(p1);
    let time: AnnounceTime;
    if tc == 'B' {
        time = AnnounceTime::BeforeMarket;
    } else if tc == 'A' {
        time = AnnounceTime::AfterMarket;
    } else if tc == 'U' {
        time = AnnounceTime::Unknown;
    } else {
        return None;
    }
    let p2 = p1 + 1;
    proof {
        assert(s@.skip(p1 as int).drop_first() =~= s@.skip(p2 as int));
    }
    let srclen_u: u64;
    let p3: usize;
    match dec_nat_exec(s, p2) {
        Some(p) => {
            srclen_u = p.0;
            p3 = p.1;
        },
        None => {
            proof {
                lemma_semi_pos_lower(s@.skip(p2 as int), 0);
                lemma_semi_pos_le(s@.skip(p2 as int));
                match dec_nat(s@.skip(p2 as int)) {
                    Some(q) => {
                        assert(q.0 > u64::MAX);
                        assert(usize::MAX <= u64::MAX);
                        assert(q.1.len() <= s@.skip(p2 as int).len());
                        assert(s@.skip(p2 as int).len() <= s@.len());
                        assert(s@.len() == len as int);
                    },
                    None => {},
                }
            }
            return None;
        },
    }
    let remaining = len - p3;
    if srclen_u > remaining as u64 {
        return None;
    }
    let srclen = srclen_u as usize;
    let sub = s.substring_char(p3, p3 + srclen);
    let source = String::from_str(sub);
    let date = Date { days: date_u as i64 };
    let e = SourcedEarningsTime { datetime: EarningsDateTime { date, time }, source };
    proof {
        assert(sub@ =~= s@.skip(p3 as int).take(srclen_u as int));
        assert(s@.skip(p3 as int).skip(srclen_u as int) =~= s@.skip(p3 as int + srclen as int));
        assert(e@ == (EstimateView {
            date: date_u as int,
            time,
            source: s@.skip(p3 as int).take(srclen_u as int),
        }));
    }
    Some((e, p3 + srclen))
}

/// Unfolding of list reading past one estimate.
proof fn lemma_dec_list_cons(s: Seq<char>, e: EstimateView, rest: Seq<char>)
    requires
        s.len() > 0,
        s[0] != '.',
        dec_estimate(s) == Some((e, rest)),
        rest.len() < s.len(),
    ensures
        dec_list(s) == (match dec_list(rest) {
            Some(lp) => Some((seq![e] + lp.0, lp.1)),
            None => None::<(Seq<EstimateView>, Seq<char>)>,
        }),
{
}

/// Pushing an estimate keeps the accumulated views aligned.
proof fn lemma_views_push(out0: Seq<SourcedEarningsTime>, e: SourcedEarningsTime, l2: Seq<
    EstimateView,
>)
    ensures
        views_of(out0.push(e)) == views_of(out0).push(e@),
        views_of(out0) + (seq![e@] + l2) == views_of(out0.push(e)) + l2,
{
    assert(views_of(out0.push(e)) =~= views_of(out0).push(e@));
    assert(views_of(out0) + (seq![e@] + l2) =~= views_of(out0).push(e@) + l2);
}

/// Read one estimate list at `pos`, up to its closing full stop.
#[verifier::loop_isolation(false)]
#[verifier::rlimit(100)]
fn dec_list_exec(s: &str, pos: usize) -> (r: Option<(Vec<SourcedEarningsTime>, usize)>)
    requires
        pos <= s@.len(),
    ensures
        match r {
            Some(p) => {
                &&& dec_list(s@.skip(pos as int)) == Some((views_of(p.0@), s@.skip(p.1 as int)))
                &&& pos < p.1 <= s@.len()
            },
            None => dec_list(s@.skip(pos as int)) is None,
        },
{
    broadcast use vstd::seq_lib::group_seq_properties;

    let len = s.unicode_len();
    let mut out: Vec<SourcedEarningsTime> = Vec::new();
    let mut j: usize = pos;
    proof {
        assert(views_of(out@) =~= Seq::<EstimateView>::empty());
    }
    while j < len
        invariant
            pos <= j <= len,
            match dec_list(s@.skip(j as int)) {
                Some(q) => dec_list(s@.skip(pos as int)) == Some((views_of(out@) + q.0, q.1)),
                None => dec_list(s@.skip(pos as int)) is None,
            },
        decreases len - j,
    {
        let ghost here = s@.skip(j as int);
        let c = s.get_char(j);
        proof {
            assert(here[0] == s@[j as int]);
        }
        if c == '.' {
            proof {
                assert(here.drop_first() =~= s@.skip(j as int + 1));
                assert(dec_list(here) == Some(
                    (Seq::<EstimateView>::empty(), s@.skip(j as int + 1)),
                ));
                assert(views_of(out@) + Seq::<EstimateView>::empty() =~= views_of(out@));
            }
            return Some((out, j + 1));
        }
        match dec_estimate_exec(s, j) {
            None => {
                return None;
            },
            Some(p) => {
                let ghost out0 = out@;
                let p2 = p.1;
                proof {
                    assert(s@.skip(p2 as int).len() < here.len());
                }
                proof {
                    lemma_dec_list_cons(here, p.0@, s@.skip(p2 as int));
                    lemma_views_push(out0, p.0, Seq::<EstimateView>::empty());
                    match dec_list(s@.skip(p2 as int)) {
                        Some(q) => {
                            lemma_views_push(out0, p.0, q.0);
                        },
                        None => {},
                    }
                }
                out.push(p.0);
                j = p2;
            },
        }
    }
    proof {
        assert(s@.skip(len as int).len() == 0);
    }
    None
}

/// Read one guess at `pos`, leaving whatever follows it.
fn dec_guess_part_exec(s: &str, pos: usize) -> (r: Option<(EarningsGuess, usize)>)
    requires
        pos <= s@.len(),
    ensures
        match r {
            Some(p) => {
                &&& dec_guess_part(s@.skip(pos as int)) == Some((p.0@, s@.skip(p.1 as int)))
                &&& pos < p.1 <= s@.len()
            },
            None => dec_guess_part(s@.skip(pos as int)) is None,
        },
{
    let last_u: u64;
    let p1: usize;
    match dec_nat_exec(s, pos) {
        Some(p) => {
            last_u = p.0;
            p1 = p.1;
        },
        None => {
            return None;
        },
    }
    if last_u < 1 || last_u > MAX_DAY_NUMBER as u64 {
        return None;
    }
    let conc: Vec<SourcedEarningsTime>;
    let p2: usize;
    match dec_list_exec(s, p1) {
        Some(p) => {
            conc = p.0;
            p2 = p.1;
        },
        None => {
            return None;
        },
    }
    let close: Vec<SourcedEarningsTime>;
    let p3: usize;
    match dec_list_exec(s, p2) {
        Some(p) => {
            close = p.0;
            p3 = p.1;
        },
        None => {
            return None;
        },
    }
    let far: Vec<SourcedEarningsTime>;
    let p4: usize;
    match dec_list_exec(s, p3) {
        Some(p) => {
            far = p.0;
            p4 = p.1;
        },
        None => {
            return None;
        },
    }
    let g = EarningsGuess {
        last_session: Date { days: last_u as i64 },
        concurrences: conc,
        close_disagreements: close,
        far_disagreements: far,
    };
    Some((g, p4))
}

/// Read a consensus from its persisted form; the input must hold exactly
/// one.
pub fn decode_guess(s: &str) -> (r: Option<EarningsGuess>)
    ensures
        match r {
            Some(g) => dec_guess(s@) == Some(g@),
            None => dec_guess(s@) is None,
        },
{
    proof {
        assert(s@.skip(0) =~= s@);
    }
    match dec_guess_part_exec(s, 0) {
        Some(p) => {
            if p.1 == s.unicode_len() {
                Some(p.0)
            } else {
                None
            }
        },
        None => None,
    }
}

/// The views of the entries of a cache, in order.
pub open spec fn cache_views(l: Seq<(String, EarningsGuess)>) -> Seq<(Seq<char>, GuessView)> {
    l.map_values(|p: (String, EarningsGuess)| (p.0@, p.1@))
}

/// The whole-cache encoding grows by one entry at the end.
proof fn lemma_enc_cache_snoc(l: Seq<(Seq<char>, GuessView)>, e: (Seq<char>, GuessView))
    ensures
        enc_cache(l.push(e)) == enc_cache(l) + enc_entry(e.0, e.1),
    decreases l.len(),
{
    if l.len() == 0 {
        assert(l.push(e)[0] == e);
        assert(l.push(e).drop_first() =~= Seq::<(Seq<char>, GuessView)>::empty());
        assert(enc_cache(Seq::<(Seq<char>, GuessView)>::empty()) == Seq::<char>::empty());
        assert(enc_cache(l.push(e)) == enc_entry(e.0, e.1) + Seq::<char>::empty());
        assert(enc_cache(l) == Seq::<char>::empty());
        assert(enc_entry(e.0, e.1) + Seq::<char>::empty() =~= Seq::<char>::empty() + enc_entry(
            e.0,
            e.1,
        ));
    } else {
        assert(l.push(e)[0] == l[0]);
        assert(l.push(e).drop_first() =~= l.drop_first().push(e));
        assert(enc_cache(l.push(e)) == enc_entry(l[0].0, l[0].1) + enc_cache(
            l.drop_first().push(e),
        ));
        lemma_enc_cache_snoc(l.drop_first(), e);
        assert(enc_entry(l[0].0, l[0].1) + (enc_cache(l.drop_first()) + enc_entry(e.0, e.1))
            =~= (enc_entry(l[0].0, l[0].1) + enc_cache(l.drop_first())) + enc_entry(e.0, e.1));
    }
}

/// Write a whole cache in its persisted form.
#[verifier::loop_isolation(false)]
pub fn encode_cache(entries: &Vec<(String, EarningsGuess)>) -> (r: String)
    requires
        forall|i: int| 0 <= i < entries@.len() ==> guess_view_wf((#[trigger] entries@[i]).1@),
    ensures
        r@ == enc_cache(cache_views(entries@)),
{
    broadcast use vstd::seq_lib::group_seq_properties;

    let ghost cv = cache_views(entries@);
    let mut out = String::new();
    let mut i: usize = 0;
    proof {
        assert(cv.take(0) =~= Seq::<(Seq<char>, GuessView)>::empty());
    }
    while i < entries.len()
        invariant
            0 <= i <= entries@.len(),
            out@ == enc_cache(cv.take(i as int)),
        decreases entries@.len() - i,
    {
        proof {
            cv.lemma_take_succ_push(i as int);
            lemma_enc_cache_snoc(cv.take(i as int), cv[i as int]);
            assert(cv[i as int] == (entries@[i as int].0@, entries@[i as int].1@));
        }
        let sym = &entries[i].0;
        let n = sym.as_str().unicode_len();
        push_decimal(&mut out, n as u64);
        out.push(';');
        out.append(sym.as_str());
        let enc = encode_guess(&entries[i].1);
        out.append(enc.as_str());
        proof {
            assert(out@ =~= enc_cache(cv.take(i as int + 1)));
        }
        i = i + 1;
    }
    proof {
        assert(cv.take(entries@.len() as int) =~= cv);
    }
    out
}

/// Read one cache entry at `pos`, leaving whatever follows it.
#[verifier::loop_isolation(false)]
#[verifier::rlimit(50)]
fn dec_entry_exec(s: &str, pos: usize) -> (r: Option<(String, EarningsGuess, usize)>)
    requires
        pos <= s@.len(),
    ensures
        match r {
            Some(p) => {
                &&& dec_entry(s@.skip(pos as int)) == Some(((p.0@, p.1@), s@.skip(p.2 as int)))
                &&& pos < p.2 <= s@.len()
            },
            None => dec_entry(s@.skip(pos as int)) is None,
        },
{
    let len = s.unicode_len();
    let symlen_u: u64;
    let p1: usize;
    match dec_nat_exec(s, pos) {
        Some(p) => {
            symlen_u = p.0;
            p1 = p.1;
        },
        None => {
            proof {
                lemma_semi_pos_lower(s@.skip(pos as int), 0);
                lemma_semi_pos_le(s@.skip(pos as int));
                match dec_nat(s@.skip(pos as int)) {
                    Some(q) => {
                        assert(q.0 > u64::MAX);
                        assert(usize::MAX <= u64::MAX);
                        assert(q.1.len() <= s@.skip(pos as int).len());
                        assert(s@.skip(pos as int).len() <= s@.len());
                        assert(s@.len() == len as int);
                    },
                    None => {},
                }
            }
            return None;
        },
    }
    let remaining = len - p1;
    if symlen_u > remaining as u64 {
        return None;
    }
    let symlen = symlen_u as usize;
    let sub = s.substring_char(p1, p1 + symlen);
    let sym = String::from_str(sub);
    proof {
        assert(sub@ =~= s@.skip(p1 as int).take(symlen_u as int));
        assert(s@.skip(p1 as int).skip(symlen_u as int) =~= s@.skip(p1 as int + symlen as int));
    }
    match dec_guess_part_exec(s, p1 + symlen) {
        Some(p) => Some((sym, p.0, p.1)),
        None => None,
    }
}

/// Read a whole cache from its persisted form: entries until the input
/// runs out.
#[verifier::loop_isolation(false)]
#[verifier::rlimit(50)]
pub fn decode_cache(s: &str) -> (r: Option<Vec<(String, EarningsGuess)>>)
    ensures
        match r {
            Some(v) => dec_cache(s@) == Some(cache_views(v@)),
            None => dec_cache(s@) is None,
        },
{
    broadcast use vstd::seq_lib::group_seq_properties;

    let len = s.unicode_len();
    let mut out: Vec<(String, EarningsGuess)> = Vec::new();
    let mut pos: usize = 0;
    proof {
        assert(s@.skip(0) =~= s@);
        assert(cache_views(out@) =~= Seq::<(Seq<char>, GuessView)>::empty());
    }
    while pos < len
        invariant
            0 <= pos <= len,
            match dec_cache(s@.skip(pos as int)) {
                Some(l2) => dec_cache(s@) == Some(cache_views(out@) + l2),
                None => dec_cache(s@) is None,
            },
        decreases len - pos,
    {
        let ghost here = s@.skip(pos as int);
        match dec_entry_exec(s, pos) {
            None => {
                proof {
                    assert(here.len() > 0);
                    assert(dec_cache(here) is None);
                }
                return None;
            },
            Some(p) => {
                let ghost out0 = out@;
                let p2 = p.2;
                proof {
                    assert(here.len() > 0);
                    assert(s@.skip(p2 as int).len() < here.len());
                }
                out.push((p.0, p.1));
                proof {
                    let ev = (out@[out0.len() as int].0@, out@[out0.len() as int].1@);
                    assert(cache_views(out@) =~= cache_views(out0).push(ev));
                    match dec_cache(s@.skip(p2 as int)) {
                        Some(l2) => {
                            assert(dec_cache(here) == Some(seq![ev] + l2));
                            assert(cache_views(out0) + (seq![ev] + l2) =~= cache_views(out@)
                                + l2);
                        },
                        None => {
                            assert(dec_cache(here) is None);
                        },
                    }
                }
                pos = p2;
            },
        }
    }
    proof {
        assert(s@.skip(len as int) =~= Seq::<char>::empty());
        assert(dec_cache(Seq::<char>::empty()) == Some(Seq::<(Seq<char>, GuessView)>::empty()));
        assert(cache_views(out@) + Seq::<(Seq<char>, GuessView)>::empty() =~= cache_views(out@));
    }
    Some(out)
}

} // verus!
