use vstd::prelude::*;

use crate::fixed::{add_checked, div_toward_zero, fits, lemma_tdiv_fits, tdiv, SCALE, SCALE_SQ};
use crate::model::{StoreError, Fault, PortLine, PriceLine};
use crate::text::str_eq;

verus! {

/// Age in seconds past which a quote is stale: five days.
pub const STALE_SECS: i128 = 432_000;

/// Units above which, in absolute value, a position is open: 0.01.
pub const OPEN_UNITS: i128 = 10_000;

/// The quote of `ticker` in a snapshot; where several rows name it, the
/// last one counts.
pub open spec fn last_quote(prices: Seq<PriceLine>, ticker: Seq<char>) -> Option<PriceLine>
    decreases prices.len(),
{
    if prices.len() == 0 {
        None
    } else if prices.last().ticker@ == ticker {
        Some(prices.last())
    } else {
        last_quote(prices.drop_last(), ticker)
    }
}

/// Whether a quote dated `date` is stale at `now` (both in seconds).
pub open spec fn is_stale(now: i64, date: i64) -> bool {
    now - date > STALE_SECS
}

/// Whether a position is open: more than 0.01 units held, long or short.
pub open spec fn is_current(units: i128) -> bool {
    units > OPEN_UNITS || units < -OPEN_UNITS
}

pub open spec fn cash_asset() -> Seq<char> {
    seq!['C', 'a', 's', 'h']
}

/// The symbol under which the snapshot quotes a currency against the base.
pub open spec fn rate_ticker(currency: Seq<char>) -> Seq<char> {
    currency + seq!['U', 'S', 'D', '=', 'X']
}

/// The quote of a position's own symbol, if it has one.
pub open spec fn quote_of(l: PortLine, prices: Seq<PriceLine>) -> Option<PriceLine> {
    match l.ticker {
        Some(t) => last_quote(prices, t@),
        None => None,
    }
}

/// A position's price: one for cash-equivalents, else its quote, else the
/// price it had.
pub open spec fn spec_price(l: PortLine, prices: Seq<PriceLine>) -> int {
    if l.asset@ == cash_asset() {
        SCALE as int
    } else {
        match quote_of(l, prices) {
            Some(q) => q.price as int,
            None => l.price as int,
        }
    }
}

/// A position's worth in the base currency: price × units × rate, or
/// price × units where the snapshot has no rate for its currency.
pub open spec fn spec_value(l: PortLine, prices: Seq<PriceLine>) -> Option<int> {
    let pu = spec_price(l, prices) * l.units;
    match last_quote(prices, rate_ticker(l.currency@)) {
        Some(r) => if fits(pu) && fits(pu * r.price) {
            Some(tdiv(pu * r.price, SCALE_SQ as int))
        } else {
            None
        },
        None => if fits(pu) {
            Some(tdiv(pu, SCALE as int))
        } else {
            None
        },
    }
}

/// The annotations valuation appends: `PO` for a stale price, then `CO`
/// for a stale rate or `CN` for a missing one.
pub open spec fn flags(l: PortLine, prices: Seq<PriceLine>, now: i64) -> Seq<char> {
    let po = match quote_of(l, prices) {
        Some(q) => if is_stale(now, q.date) {
            seq!['P', 'O']
        } else {
            Seq::empty()
        },
        None => Seq::empty(),
    };
    let cur = match last_quote(prices, rate_ticker(l.currency@)) {
        Some(r) => if is_stale(now, r.date) {
            seq!['C', 'O']
        } else {
            Seq::empty()
        },
        None => seq!['C', 'N'],
    };
    po + cur
}

/// `n` is `l` valued against the snapshot at `now`.
pub open spec fn is_valued(l: PortLine, n: PortLine, prices: Seq<PriceLine>, now: i64) -> bool {
    &&& spec_value(l, prices) is Some
    &&& n == PortLine {
        price: spec_price(l, prices) as i128,
        amount_usd: spec_value(l, prices)->Some_0 as i128,
        error: n.error,
        ..l
    }
    &&& n.error@ == l.error@ + flags(l, prices, now)
}

proof fn lemma_last_quote_suffix(prices: Seq<PriceLine>, ticker: Seq<char>, i: int)
    requires
        0 <= i <= prices.len(),
        forall|k: int| i <= k < prices.len() ==> (#[trigger] prices[k]).ticker@ != ticker,
    ensures
        last_quote(prices, ticker) == last_quote(prices.take(i), ticker),
    decreases prices.len() - i,
{
    if i == prices.len() {
        assert(prices.take(i) =~= prices);
    } else {
        assert(prices.drop_last().take(i) =~= prices.take(i));
        lemma_last_quote_suffix(prices.drop_last(), ticker, i);
    }
}

proof fn lemma_last_quote_at(prices: Seq<PriceLine>, ticker: Seq<char>, i: int)
    requires
        0 <= i < prices.len(),
        prices[i].ticker@ == ticker,
        forall|k: int| i < k < prices.len() ==> (#[trigger] prices[k]).ticker@ != ticker,
    ensures
        last_quote(prices, ticker) == Some(prices[i]),
{
    lemma_last_quote_suffix(prices, ticker, i + 1);
    assert(prices.take(i + 1).drop_last() =~= prices.take(i));
}

/// Index of the quote of `ticker` (the last row naming it).
pub fn find_quote(prices: &Vec<PriceLine>, ticker: &str) -> (r: Option<usize>)
    ensures
        match last_quote(prices@, ticker@) {
            Some(q) => r is Some && r->Some_0 < prices@.len() && prices@[r->Some_0 as int] == q,
            None => r is None,
        },
{
    let mut i: usize = prices.len();
    while i > 0
        invariant
            i <= prices@.len(),
            forall|k: int| i <= k < prices@.len() ==> (#[trigger] prices@[k]).ticker@ != ticker@,
        decreases i,
    {
        if str_eq(prices[i - 1].ticker.as_str(), ticker) {
            proof {
                lemma_last_quote_at(prices@, ticker@, i - 1);
            }
            return Some(i - 1);
        }
        i = i - 1;
    }
    proof {
        lemma_last_quote_suffix(prices@, ticker@, 0);
        assert(prices@.take(0).len() == 0);
    }
    None
}

fn stale(now: i64, date: i64) -> (r: bool)
    ensures
        r == is_stale(now, date),
{
    (now as i128) - (date as i128) > STALE_SECS
}

/// Values one position against the snapshot at `now` (seconds): sets its
/// price and base-currency amount and appends the annotations.
pub fn value_line(l: PortLine, prices: &Vec<PriceLine>, now: i64) -> (r: Result<PortLine, StoreError>)
    ensures
        match spec_value(l, prices@) {
            Some(_) => r is Ok && is_valued(l, r->Ok_0, prices@, now),
            None => r is Err && r->Err_0@ == Fault::Overflow,
        },
{
    proof {
        reveal_strlit("Cash");
        reveal_strlit("USD=X");
        reveal_strlit("PO");
        reveal_strlit("CO");
        reveal_strlit("CN");
        assert("Cash"@ =~= cash_asset());
        assert("USD=X"@ =~= seq!['U', 'S', 'D', '=', 'X']);
        assert("PO"@ =~= seq!['P', 'O']);
        assert("CO"@ =~= seq!['C', 'O']);
        assert("CN"@ =~= seq!['C', 'N']);
    }
    let ghost l0 = l;
    let mut l = l;
    let mut price = l.price;
    let mut error = l.error.clone();
    let q = match &l.ticker {
        Some(t) => find_quote(prices, t.as_str()),
        None => None,
    };
    match q {
        Some(k) => {
            price = prices[k].price;
            if stale(now, prices[k].date) {
                error.append("PO");
            }
        },
        None => {},
    }
    if str_eq(l.asset.as_str(), "Cash") {
        price = SCALE;
    }
    let rt = l.currency.clone().concat("USD=X");
    let amount = match price.checked_mul(l.units) {
        None => return Err(StoreError::Overflow),
        Some(pu) => match find_quote(prices, rt.as_str()) {
            Some(k) => {
                if stale(now, prices[k].date) {
                    error.append("CO");
                }
                match pu.checked_mul(prices[k].price) {
                    None => return Err(StoreError::Overflow),
                    Some(x) => {
                        proof {
                            lemma_tdiv_fits(x as int, SCALE_SQ as int);
                        }
                        div_toward_zero(x, SCALE_SQ)
                    },
                }
            },
            None => {
                error.append("CN");
                proof {
                    lemma_tdiv_fits(pu as int, SCALE as int);
                }
                div_toward_zero(pu, SCALE)
            },
        },
    };
    l.price = price;
    l.amount_usd = amount;
    l.error = error;
    proof {
        assert(l.error@ =~= l0.error@ + flags(l0, prices@, now));
    }
    Ok(l)
}

/// Values every position, in order.
pub fn value_lines(lines: Vec<PortLine>, prices: &Vec<PriceLine>, now: i64) -> (r: Result<
    Vec<PortLine>,
    StoreError,
>)
    ensures
        match r {
            Ok(v) => v@.len() == lines@.len() && forall|k: int|
                0 <= k < lines@.len() ==> is_valued(lines@[k], #[trigger] v@[k], prices@, now),
            Err(e) => e@ == Fault::Overflow && exists|k: int|
                0 <= k < lines@.len() && (#[trigger] spec_value(lines@[k], prices@)) is None,
        },
        (forall|k: int| 0 <= k < lines@.len() ==> (#[trigger] spec_value(lines@[k], prices@)) is Some)
            ==> r is Ok,
{
    let ghost all = lines@;
    let mut rest = lines;
    let mut out: Vec<PortLine> = Vec::new();
    proof {
        assert(rest@ =~= all.skip(0));
    }
    while rest.len() > 0
        invariant
            all == lines@,
            out@.len() + rest@.len() == all.len(),
            rest@ =~= all.skip(out@.len() as int),
            forall|k: int| 0 <= k < out@.len() ==> is_valued(all[k], #[trigger] out@[k], prices@, now),
        decreases rest@.len(),
    {
        let ghost k = out@.len() as int;
        let l = rest.remove(0);
        assert(l == all[k]);
        match value_line(l, prices, now) {
            Ok(n) => out.push(n),
            Err(e) => {
                assert(spec_value(all[k], prices@) is None);
                return Err(e);
            },
        }
        assert(rest@ =~= all.skip(out@.len() as int));
    }
    Ok(out)
}

/// Whether a position is open.
pub fn is_current_stock(units: i128) -> (r: bool)
    ensures
        r == is_current(units),
{
    units > OPEN_UNITS || units < -OPEN_UNITS
}

/// The positions a view keeps, in order: all of them, or the open ones.
pub open spec fn retained(lines: Seq<PortLine>, all: bool) -> Seq<PortLine>
    decreases lines.len(),
{
    if lines.len() == 0 {
        lines
    } else {
        let sub = retained(lines.drop_last(), all);
        if all || is_current(lines.last().units) {
            sub.push(lines.last())
        } else {
            sub
        }
    }
}

/// Sum of the base-currency amounts.
pub open spec fn sum_amounts(lines: Seq<PortLine>) -> int
    decreases lines.len(),
{
    if lines.len() == 0 {
        0
    } else {
        sum_amounts(lines.drop_last()) + lines.last().amount_usd
    }
}

/// Every running total of the amounts, in order, fits an `i128`.
pub open spec fn sums_fit(lines: Seq<PortLine>) -> bool {
    forall|i: int| 0 <= i <= lines.len() ==> fits(#[trigger] sum_amounts(lines.take(i)))
}

/// Quotient rounded toward zero, for a divisor of either sign.
pub open spec fn quot(x: int, d: int) -> int {
    if d > 0 {
        tdiv(x, d)
    } else {
        -tdiv(x, -d)
    }
}

/// Share of `amount` in `total`, fixed-point (`SCALE` is everything); zero
/// when the total is zero, where no share is defined.
pub open spec fn weight(amount: int, total: int) -> Option<int> {
    if total == 0 {
        Some(0)
    } else if fits(amount * SCALE) && fits(quot(amount * SCALE, total)) {
        Some(quot(amount * SCALE, total))
    } else {
        None
    }
}

/// `n` is `l` with its share of `total` set.
pub open spec fn is_weighted(l: PortLine, n: PortLine, total: int) -> bool {
    &&& weight(l.amount_usd as int, total) is Some
    &&& n == PortLine { amount_perc: weight(l.amount_usd as int, total)->Some_0 as i128, ..l }
}

/// Sum of the shares.
pub open spec fn sum_perc(lines: Seq<PortLine>) -> int
    decreases lines.len(),
{
    if lines.len() == 0 {
        0
    } else {
        sum_perc(lines.drop_last()) + lines.last().amount_perc
    }
}

proof fn lemma_retained_step(lines: Seq<PortLine>, all: bool, i: int)
    requires
        0 <= i < lines.len(),
    ensures
        retained(lines.take(i + 1), all) == (if all || is_current(lines[i].units) {
            retained(lines.take(i), all).push(lines[i])
        } else {
            retained(lines.take(i), all)
        }),
{
    assert(lines.take(i + 1).drop_last() =~= lines.take(i));
}

/// Keeps all positions, or only the open ones.
pub fn filter_lines(lines: Vec<PortLine>, all: bool) -> (r: Vec<PortLine>)
    ensures
        r@ == retained(lines@, all),
{
    let ghost src = lines@;
    let mut rest = lines;
    let mut out: Vec<PortLine> = Vec::new();
    let ghost mut i: int = 0;
    proof {
        assert(src.take(0) =~= Seq::<PortLine>::empty());
        assert(rest@ =~= src.skip(0));
    }
    while rest.len() > 0
        invariant
            src == lines@,
            0 <= i <= src.len(),
            i + rest@.len() == src.len(),
            rest@ =~= src.skip(i),
            out@ == retained(src.take(i), all),
        decreases rest@.len(),
    {
        let l = rest.remove(0);
        proof {
            lemma_retained_step(src, all, i);
        }
        if all || is_current_stock(l.units) {
            out.push(l);
        }
        proof {
            i = i + 1;
        }
        assert(rest@ =~= src.skip(i));
    }
    proof {
        assert(src.take(i) =~= src);
    }
    out
}

/// Sum of the amounts, `None` where a running total leaves `i128`.
pub fn total_amount(lines: &Vec<PortLine>) -> (r: Option<i128>)
    ensures
        match r {
            Some(t) => sums_fit(lines@) && t == sum_amounts(lines@),
            None => !sums_fit(lines@),
        },
{
    let mut total: i128 = 0;
    let mut i: usize = 0;
    proof {
        assert(lines@.take(0) =~= Seq::<PortLine>::empty());
    }
    while i < lines.len()
        invariant
            i <= lines@.len(),
            total == sum_amounts(lines@.take(i as int)),
            forall|k: int| 0 <= k <= i ==> fits(#[trigger] sum_amounts(lines@.take(k))),
        decreases lines@.len() - i,
    {
        proof {
            assert(lines@.take(i + 1).drop_last() =~= lines@.take(i as int));
        }
        match add_checked(total, lines[i].amount_usd) {
            Some(t) => total = t,
            None => {
                assert(!fits(sum_amounts(lines@.take(i + 1))));
                return None;
            },
        }
        i = i + 1;
    }
    proof {
        assert(lines@.take(i as int) =~= lines@);
    }
    Some(total)
}

/// The share of `amount` in `total`.
pub fn weight_of(amount: i128, total: i128) -> (r: Option<i128>)
    ensures
        match weight(amount as int, total as int) {
            Some(w) => r == Some(w as i128),
            None => r is None,
        },
{
    if total == 0 {
        return Some(0);
    }
    match amount.checked_mul(SCALE) {
        None => None,
        Some(x) => x.checked_div(total),
    }
}

/// Sets every position's share of `total`.
pub fn set_weights(lines: Vec<PortLine>, total: i128) -> (r: Result<Vec<PortLine>, StoreError>)
    ensures
        match r {
            Ok(v) => v@.len() == lines@.len() && forall|k: int|
                0 <= k < lines@.len() ==> is_weighted(lines@[k], #[trigger] v@[k], total as int),
            Err(e) => e@ == Fault::Overflow && exists|k: int|
                0 <= k < lines@.len() && (#[trigger] weight(lines@[k].amount_usd as int, total as int))
                    is None,
        },
        (forall|k: int|
            0 <= k < lines@.len() ==> (#[trigger] weight(lines@[k].amount_usd as int, total as int))
                is Some) ==> r is Ok,
{
    let ghost src = lines@;
    let mut rest = lines;
    let mut out: Vec<PortLine> = Vec::new();
    proof {
        assert(rest@ =~= src.skip(0));
    }
    while rest.len() > 0
        invariant
            src == lines@,
            out@.len() + rest@.len() == src.len(),
            rest@ =~= src.skip(out@.len() as int),
            forall|k: int| 0 <= k < out@.len() ==> is_weighted(src[k], #[trigger] out@[k], total as int),
        decreases rest@.len(),
    {
        let ghost k = out@.len() as int;
        let mut l = rest.remove(0);
        assert(l == src[k]);
        match weight_of(l.amount_usd, total) {
            Some(w) => {
                l.amount_perc = w;
                out.push(l);
            },
            None => {
                assert(weight(src[k].amount_usd as int, total as int) is None);
                return Err(StoreError::Overflow);
            },
        }
        assert(rest@ =~= src.skip(out@.len() as int));
    }
    Ok(out)
}

/// The active view is the full one less the closed positions: a position
/// is in the view without closed ones exactly when it is in the full view
/// and holds more than 0.01 units, long or short; the full view keeps
/// every position.
pub proof fn law_active_view(lines: Seq<PortLine>)
    ensures
        retained(lines, true) == lines,
        forall|l: PortLine|
            #[trigger] retained(lines, false).contains(l) <==> (retained(lines, true).contains(l)
                && is_current(l.units)),
    decreases lines.len(),
{
    if lines.len() > 0 {
        let dl = lines.drop_last();
        let last = lines.last();
        law_active_view(dl);
        assert(dl.push(last) =~= lines);
        let sub = retained(dl, false);
        let r = retained(lines, false);
        assert(r == (if is_current(last.units) { sub.push(last) } else { sub }));
        assert forall|l: PortLine| #[trigger] r.contains(l) <==> (lines.contains(l) && is_current(l.units)) by {
            if lines.contains(l) && is_current(l.units) {
                let k = choose|k: int| 0 <= k < lines.len() && lines[k] == l;
                if k < lines.len() - 1 {
                    assert(dl[k] == l);
                    assert(dl.contains(l));
                    assert(retained(dl, true).contains(l));
                    assert(sub.contains(l));
                    let m = choose|m: int| 0 <= m < sub.len() && sub[m] == l;
                    if is_current(last.units) {
                        assert(sub.push(last)[m] == l);
                    }
                    assert(r.contains(l));
                } else {
                    assert(l == last);
                    assert(sub.push(last)[sub.len() as int] == l);
                    assert(r.contains(l));
                }
            }
            if r.contains(l) {
                let m = choose|m: int| 0 <= m < r.len() && r[m] == l;
                if is_current(last.units) && m == sub.len() {
                    assert(l == last);
                    assert(lines[lines.len() - 1] == l);
                } else {
                    assert(sub[m] == l);
                    assert(sub.contains(l));
                    assert(retained(dl, true).contains(l));
                    assert(dl.contains(l));
                    let k = choose|k: int| 0 <= k < dl.len() && dl[k] == l;
                    assert(lines[k] == l);
                }
            }
        }
    }
}

proof fn lemma_quot_error(x: int, d: int)
    requires
        d != 0,
    ensures
        -(if d > 0 { d } else { -d }) < x - quot(x, d) * d < (if d > 0 { d } else { -d }),
{
    let m = if d > 0 { d } else { -d };
    vstd::arithmetic::div_mod::lemma_fundamental_div_mod(x, m);
    vstd::arithmetic::div_mod::lemma_fundamental_div_mod(-x, m);
    vstd::arithmetic::div_mod::lemma_mod_bound(x, m);
    vstd::arithmetic::div_mod::lemma_mod_bound(-x, m);
    if d > 0 {
        if x >= 0 {
            assert(x - (x / d) * d == x % d) by (nonlinear_arith)
                requires x == d * (x / d) + x % d;
        } else {
            assert(x - (-((-x) / d)) * d == -((-x) % d)) by (nonlinear_arith)
                requires -x == d * ((-x) / d) + (-x) % d;
        }
    } else {
        if x >= 0 {
            assert(x - (-(x / m)) * d == x % m) by (nonlinear_arith)
                requires x == m * (x / m) + x % m, m == -d;
        } else {
            assert(x - (-(-((-x) / m))) * d == -((-x) % m)) by (nonlinear_arith)
                requires -x == m * ((-x) / m) + (-x) % m, m == -d;
        }
    }
}

proof fn lemma_perc_sum(lines: Seq<PortLine>, total: int)
    requires
        total != 0,
        forall|k: int|
            0 <= k < lines.len() ==> (#[trigger] lines[k]).amount_perc == quot(
                lines[k].amount_usd * SCALE,
                total,
            ),
    ensures
        ({
            let m = if total > 0 { total } else { -total };
            let e = SCALE * sum_amounts(lines) - total * sum_perc(lines);
            -(lines.len() * (m - 1)) <= e <= lines.len() * (m - 1)
        }),
    decreases lines.len(),
{
    if lines.len() > 0 {
        let sub = lines.drop_last();
        assert forall|k: int| 0 <= k < sub.len() implies (#[trigger] sub[k]).amount_perc == quot(
            sub[k].amount_usd * SCALE,
            total,
        ) by {
            assert(sub[k] == lines[k]);
        }
        lemma_perc_sum(sub, total);
        let l = lines.last();
        assert(l == lines[lines.len() - 1]);
        lemma_quot_error(l.amount_usd * SCALE, total);
        let m = if total > 0 { total } else { -total };
        let es = SCALE * sum_amounts(sub) - total * sum_perc(sub);
        let el = l.amount_usd * SCALE - quot(l.amount_usd * SCALE, total) * total;
        assert(SCALE * sum_amounts(lines) - total * sum_perc(lines) == es + el) by (nonlinear_arith)
            requires
                sum_amounts(lines) == sum_amounts(sub) + l.amount_usd,
                sum_perc(lines) == sum_perc(sub) + l.amount_perc,
                l.amount_perc == quot(l.amount_usd * SCALE, total),
                es == SCALE * sum_amounts(sub) - total * sum_perc(sub),
                el == l.amount_usd * SCALE - quot(l.amount_usd * SCALE, total) * total,
        ;
        assert(lines.len() * (m - 1) == sub.len() * (m - 1) + (m - 1)) by (nonlinear_arith)
            requires lines.len() == sub.len() + 1;
    }
}

/// The shares of a weighted view add up to one whole unit (`SCALE`), up
/// to the rounding of each share: the sum is off by less than one
/// fixed-point step per position.
pub proof fn law_shares_sum_to_one(lines: Seq<PortLine>)
    requires
        sum_amounts(lines) != 0,
        forall|k: int|
            0 <= k < lines.len() ==> (#[trigger] lines[k]).amount_perc == quot(
                lines[k].amount_usd * SCALE,
                sum_amounts(lines),
            ),
    ensures
        SCALE - lines.len() < sum_perc(lines) < SCALE + lines.len(),
{
    let t = sum_amounts(lines);
    lemma_perc_sum(lines, t);
    let m = if t > 0 { t } else { -t };
    let n = lines.len() as int;
    let p = sum_perc(lines);
    let e = SCALE * t - t * p;
    assert(n >= 1) by {
        if lines.len() == 0 {
            assert(sum_amounts(lines) == 0);
        }
    }
    assert(e == t * (SCALE - p)) by (nonlinear_arith)
        requires e == SCALE * t - t * p;
    if t > 0 {
        assert(SCALE - n < p < SCALE + n) by (nonlinear_arith)
            requires e == t * (SCALE - p), -(n * (t - 1)) <= e <= n * (t - 1), t > 0, n >= 1;
    } else {
        assert(SCALE - n < p < SCALE + n) by (nonlinear_arith)
            requires e == t * (SCALE - p), -(n * (-t - 1)) <= e <= n * (-t - 1), t < 0, n >= 1;
    }
}

} // verus!
