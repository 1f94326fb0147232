use vstd::prelude::*;

use crate::fixed::{add_checked, div_toward_zero, fits, mul_fixed, tdiv, SCALE, SCALE_SQ};
use crate::model::{StoreError, Fault, PortLine, Stocks, Trade, TradeType};
use crate::text::{cash_name, is_cash, is_cash_name, lemma_cash_name_is_cash, make_cash_name};

verus! {

/// The five running figures of a position, or changes to them.
#[derive(Clone, Copy, Debug, PartialEq, Eq, Structural)]
pub struct Delta {
    pub units: i128,
    pub cost: i128,
    pub revenue: i128,
    pub divs: i128,
    pub fees: i128,
}

/// The unit price of a trade, zero when absent.
pub open spec fn price_or_zero(t: Trade) -> int {
    match t.price {
        Some(p) => p as int,
        None => 0,
    }
}

/// The fee of a trade, zero when absent.
pub open spec fn fee_or_zero(t: Trade) -> int {
    match t.fees {
        Some(f) => f as int,
        None => 0,
    }
}

/// Traded amount: units × price × currency multiplier, in fixed point.
pub open spec fn spec_amount(t: Trade) -> Option<int> {
    let up = t.units * price_or_zero(t);
    if fits(up) && fits(up * t.currency) {
        Some(tdiv(up * t.currency, SCALE_SQ as int))
    } else {
        None
    }
}

/// Fee amount: fee × currency multiplier, in fixed point.
pub open spec fn spec_fee_amount(t: Trade) -> Option<int> {
    let fc = fee_or_zero(t) * t.currency;
    if fits(fc) {
        Some(tdiv(fc, SCALE as int))
    } else {
        None
    }
}

pub open spec fn delta(units: int, cost: int, revenue: int, divs: int, fees: int) -> Delta {
    Delta {
        units: units as i128,
        cost: cost as i128,
        revenue: revenue as i128,
        divs: divs as i128,
        fees: fees as i128,
    }
}

/// Change that a (non-split) trade makes to its own instrument's position.
pub open spec fn target_delta(t: Trade) -> Option<Delta> {
    match (spec_amount(t), spec_fee_amount(t)) {
        (Some(a), Some(fa)) => match t.kind {
            TradeType::Div => Some(delta(0, 0, 0, a, 0)),
            TradeType::TrIn => Some(delta(t.units as int, 0, a, 0, 0)),
            TradeType::TrOut => if fits(-t.units) {
                Some(delta(-t.units, a, 0, 0, 0))
            } else {
                None
            },
            TradeType::Buy => Some(delta(t.units as int, a, 0, 0, fa)),
            TradeType::Sell => if fits(-t.units) {
                Some(delta(-t.units, 0, a, 0, fa))
            } else {
                None
            },
            TradeType::Split => Some(delta(0, 0, 0, 0, 0)),
        },
        _ => None,
    }
}

/// Change that a trade makes to the linked cash position. The fee reaches
/// the cash position as written in the ledger, without the currency
/// multiplier.
pub open spec fn cash_delta(t: Trade) -> Option<Delta> {
    match spec_amount(t) {
        Some(a) => match t.kind {
            TradeType::Div => Some(delta(a, 0, 0, a, 0)),
            TradeType::Buy => if fits(-a) {
                Some(delta(-a, a, 0, 0, fee_or_zero(t)))
            } else {
                None
            },
            TradeType::Sell => Some(delta(a, 0, a, 0, fee_or_zero(t))),
            _ => Some(delta(0, 0, 0, 0, 0)),
        },
        None => None,
    }
}

/// The running figures of a position.
pub open spec fn values(l: PortLine) -> Delta {
    Delta {
        units: l.units,
        cost: l.cost_usd,
        revenue: l.revenue_usd,
        divs: l.divs_usd,
        fees: l.fees_usd,
    }
}

/// A position with its running figures replaced.
pub open spec fn set_values(l: PortLine, v: Delta) -> PortLine {
    PortLine {
        units: v.units,
        cost_usd: v.cost,
        revenue_usd: v.revenue,
        divs_usd: v.divs,
        fees_usd: v.fees,
        ..l
    }
}

/// Figures plus a change, or `None` where one leaves `i128`.
pub open spec fn sum_values(v: Delta, d: Delta) -> Option<Delta> {
    if fits(v.units + d.units) && fits(v.cost + d.cost) && fits(v.revenue + d.revenue) && fits(
        v.divs + d.divs,
    ) && fits(v.fees + d.fees) {
        Some(
            delta(
                v.units + d.units,
                v.cost + d.cost,
                v.revenue + d.revenue,
                v.divs + d.divs,
                v.fees + d.fees,
            ),
        )
    } else {
        None
    }
}

/// Whether a trade is booked against the account's cash instrument too:
/// every trade on a non-cash instrument but a split.
pub open spec fn is_linked(t: Trade) -> bool {
    !is_cash_name(t.stock@) && t.kind != TradeType::Split
}

/// Whether a linked trade moves cash.
pub open spec fn moves_cash(t: Trade) -> bool {
    is_linked(t) && (t.kind == TradeType::Div || t.kind == TradeType::Buy || t.kind
        == TradeType::Sell)
}

pub open spec fn has_name(lines: Seq<PortLine>, name: Seq<char>) -> bool {
    exists|i: int| 0 <= i < lines.len() && (#[trigger] lines[i]).name@ == name
}

pub open spec fn index_of(lines: Seq<PortLine>, name: Seq<char>) -> int {
    choose|i: int| 0 <= i < lines.len() && (#[trigger] lines[i]).name@ == name
}

/// No two positions share a name.
pub open spec fn names_unique(lines: Seq<PortLine>) -> bool {
    forall|i: int, j: int|
        0 <= i < lines.len() && 0 <= j < lines.len() && i != j ==> (#[trigger] lines[i]).name@
            != (#[trigger] lines[j]).name@
}

/// One ledger event applied to the positions.
pub open spec fn step(lines: Seq<PortLine>, t: Trade) -> Result<Seq<PortLine>, Fault> {
    if !has_name(lines, t.stock@) {
        Err(Fault::UnknownInstrument(t.stock@))
    } else if is_linked(t) && !has_name(lines, cash_name(t.account@)) {
        Err(Fault::UnknownCashAccount(cash_name(t.account@)))
    } else {
        let i = index_of(lines, t.stock@);
        let l = lines[i];
        if t.kind == TradeType::Split {
            if fits(l.units * t.split) {
                Ok(lines.update(i, PortLine { units: tdiv(l.units * t.split, SCALE as int) as i128, ..l }))
            } else {
                Err(Fault::Overflow)
            }
        } else {
            match target_delta(t) {
                None => Err(Fault::Overflow),
                Some(d) => match sum_values(values(l), d) {
                    None => Err(Fault::Overflow),
                    Some(nv) => if moves_cash(t) {
                        let j = index_of(lines, cash_name(t.account@));
                        match cash_delta(t) {
                            None => Err(Fault::Overflow),
                            Some(cd) => match sum_values(values(lines[j]), cd) {
                                None => Err(Fault::Overflow),
                                Some(cv) => Ok(
                                    lines.update(i, set_values(l, nv)).update(
                                        j,
                                        set_values(lines[j], cv),
                                    ),
                                ),
                            },
                        }
                    } else {
                        Ok(lines.update(i, set_values(l, nv)))
                    },
                },
            }
        }
    }
}

/// The ledger folded into the positions, in ledger order; the first
/// failing event ends the fold.
pub open spec fn fold(lines: Seq<PortLine>, trades: Seq<Trade>) -> Result<Seq<PortLine>, Fault>
    decreases trades.len(),
{
    if trades.len() == 0 {
        Ok(lines)
    } else {
        match fold(lines, trades.drop_last()) {
            Ok(l) => step(l, trades.last()),
            Err(e) => Err(e),
        }
    }
}

/// Same names in the same places.
pub open spec fn same_names(a: Seq<PortLine>, b: Seq<PortLine>) -> bool {
    a.len() == b.len() && forall|k: int| 0 <= k < a.len() ==> (#[trigger] a[k]).name@ == b[k].name@
}

proof fn lemma_index_of(lines: Seq<PortLine>, name: Seq<char>, i: int)
    requires
        names_unique(lines),
        0 <= i < lines.len(),
        lines[i].name@ == name,
    ensures
        has_name(lines, name),
        index_of(lines, name) == i,
{
    assert(has_name(lines, name));
}

/// Proof that a step keeps every position's name in place.
pub proof fn lemma_step_keeps_names(lines: Seq<PortLine>, t: Trade)
    requires
        step(lines, t) is Ok,
    ensures
        same_names(lines, step(lines, t)->Ok_0),
{
    let n = step(lines, t)->Ok_0;
    let i = index_of(lines, t.stock@);
    let j = index_of(lines, cash_name(t.account@));
    assert forall|k: int| 0 <= k < lines.len() implies (#[trigger] lines[k]).name@ == n[k].name@ by {
        if k == i {
        } else if k == j {
        }
    }
}

/// Position of the instrument `name`, if the table holds one.
pub fn find_line(lines: &Vec<PortLine>, name: &String) -> (r: Option<usize>)
    ensures
        match r {
            Some(i) => i < lines@.len() && lines@[i as int].name@ == name@,
            None => !has_name(lines@, name@),
        },
{
    let mut i: usize = 0;
    while i < lines.len()
        invariant
            i <= lines@.len(),
            forall|k: int| 0 <= k < i ==> (#[trigger] lines@[k]).name@ != name@,
        decreases lines@.len() - i,
    {
        if lines[i].name == *name {
            return Some(i);
        }
        i = i + 1;
    }
    None
}

fn neg_checked(x: i128) -> (r: Option<i128>)
    ensures
        r == (if fits(-x) {
            Some((-x) as i128)
        } else {
            None::<i128>
        }),
{
    (0i128).checked_sub(x)
}

/// The traded amount of a trade.
pub fn amount(t: &Trade) -> (r: Option<i128>)
    ensures
        match spec_amount(*t) {
            Some(a) => r == Some(a as i128),
            None => r is None,
        },
{
    let p: i128 = match t.price {
        Some(p) => p,
        None => 0,
    };
    match t.units.checked_mul(p) {
        None => None,
        Some(up) => match up.checked_mul(t.currency) {
            None => None,
            Some(upc) => {
                proof {
                    crate::fixed::lemma_tdiv_fits(upc as int, SCALE_SQ as int);
                }
                Some(div_toward_zero(upc, SCALE_SQ))
            },
        },
    }
}

/// The fee amount of a trade.
pub fn fee_amount(t: &Trade) -> (r: Option<i128>)
    ensures
        match spec_fee_amount(*t) {
            Some(a) => r == Some(a as i128),
            None => r is None,
        },
{
    let f: i128 = match t.fees {
        Some(f) => f,
        None => 0,
    };
    match f.checked_mul(t.currency) {
        None => None,
        Some(fc) => {
            proof {
                crate::fixed::lemma_tdiv_fits(fc as int, SCALE as int);
            }
            Some(div_toward_zero(fc, SCALE))
        },
    }
}

fn make_delta(units: i128, cost: i128, revenue: i128, divs: i128, fees: i128) -> (r: Delta)
    ensures
        r == delta(units as int, cost as int, revenue as int, divs as int, fees as int),
{
    Delta { units, cost, revenue, divs, fees }
}

fn target_delta_of(t: &Trade) -> (r: Option<Delta>)
    ensures
        r == target_delta(*t),
{
    let a = match amount(t) {
        Some(a) => a,
        None => return None,
    };
    let fa = match fee_amount(t) {
        Some(fa) => fa,
        None => return None,
    };
    match t.kind {
        TradeType::Div => Some(make_delta(0, 0, 0, a, 0)),
        TradeType::TrIn => Some(make_delta(t.units, 0, a, 0, 0)),
        TradeType::TrOut => match neg_checked(t.units) {
            Some(nu) => Some(make_delta(nu, a, 0, 0, 0)),
            None => None,
        },
        TradeType::Buy => Some(make_delta(t.units, a, 0, 0, fa)),
        TradeType::Sell => match neg_checked(t.units) {
            Some(nu) => Some(make_delta(nu, 0, a, 0, fa)),
            None => None,
        },
        TradeType::Split => Some(make_delta(0, 0, 0, 0, 0)),
    }
}

fn cash_delta_of(t: &Trade) -> (r: Option<Delta>)
    ensures
        r == cash_delta(*t),
{
    let a = match amount(t) {
        Some(a) => a,
        None => return None,
    };
    let f: i128 = match t.fees {
        Some(f) => f,
        None => 0,
    };
    match t.kind {
        TradeType::Div => Some(make_delta(a, 0, 0, a, 0)),
        TradeType::Buy => match neg_checked(a) {
            Some(na) => Some(make_delta(na, a, 0, 0, f)),
            None => None,
        },
        TradeType::Sell => Some(make_delta(a, 0, a, 0, f)),
        _ => Some(make_delta(0, 0, 0, 0, 0)),
    }
}

fn sum_values_of(l: &PortLine, d: &Delta) -> (r: Option<Delta>)
    ensures
        r == sum_values(values(*l), *d),
{
    let units = match add_checked(l.units, d.units) {
        Some(x) => x,
        None => return None,
    };
    let cost = match add_checked(l.cost_usd, d.cost) {
        Some(x) => x,
        None => return None,
    };
    let revenue = match add_checked(l.revenue_usd, d.revenue) {
        Some(x) => x,
        None => return None,
    };
    let divs = match add_checked(l.divs_usd, d.divs) {
        Some(x) => x,
        None => return None,
    };
    let fees = match add_checked(l.fees_usd, d.fees) {
        Some(x) => x,
        None => return None,
    };
    Some(make_delta(units, cost, revenue, divs, fees))
}

fn replace_values(lines: &mut Vec<PortLine>, i: usize, v: Delta)
    requires
        i < old(lines)@.len(),
    ensures
        final(lines)@ == old(lines)@.update(i as int, set_values(old(lines)@[i as int], v)),
{
    let mut l = lines.remove(i);
    l.units = v.units;
    l.cost_usd = v.cost;
    l.revenue_usd = v.revenue;
    l.divs_usd = v.divs;
    l.fees_usd = v.fees;
    lines.insert(i, l);
    assert(lines@ =~= old(lines)@.update(i as int, set_values(old(lines)@[i as int], v)));
}

/// Applies one ledger event to the positions. Both the event's own position
/// and the linked cash position are computed before either is written, so
/// on an error the positions are left as they were.
pub fn apply_trade(lines: &mut Vec<PortLine>, t: &Trade) -> (r: Result<(), StoreError>)
    requires
        names_unique(old(lines)@),
    ensures
        match step(old(lines)@, *t) {
            Ok(n) => r is Ok && final(lines)@ == n,
            Err(f) => r is Err && r->Err_0@ == f && final(lines)@ == old(lines)@,
        },
{
    let i = match find_line(lines, &t.stock) {
        Some(i) => i,
        None => return Err(StoreError::UnknownInstrument { name: t.stock.clone() }),
    };
    proof {
        lemma_index_of(lines@, t.stock@, i as int);
    }
    let linked = !is_cash(t.stock.as_str()) && t.kind != TradeType::Split;
    let cash = make_cash_name(t.account.as_str());
    let mut j: usize = 0;
    if linked {
        match find_line(lines, &cash) {
            Some(k) => {
                j = k;
                proof {
                    lemma_index_of(lines@, cash@, k as int);
                }
            },
            None => return Err(StoreError::UnknownCashAccount { name: cash }),
        }
    }
    if t.kind == TradeType::Split {
        match mul_fixed(lines[i].units, t.split) {
            Some(u) => {
                let l = &lines[i];
                let v = make_delta(u, l.cost_usd, l.revenue_usd, l.divs_usd, l.fees_usd);
                replace_values(lines, i, v);
                assert(lines@ =~= step(old(lines)@, *t)->Ok_0);
                return Ok(());
            },
            None => return Err(StoreError::Overflow),
        }
    }
    let d = match target_delta_of(t) {
        Some(d) => d,
        None => return Err(StoreError::Overflow),
    };
    let nv = match sum_values_of(&lines[i], &d) {
        Some(v) => v,
        None => return Err(StoreError::Overflow),
    };
    let moves = linked && (t.kind == TradeType::Div || t.kind == TradeType::Buy || t.kind
        == TradeType::Sell);
    if moves {
        let cd = match cash_delta_of(t) {
            Some(cd) => cd,
            None => return Err(StoreError::Overflow),
        };
        let cv = match sum_values_of(&lines[j], &cd) {
            Some(v) => v,
            None => return Err(StoreError::Overflow),
        };
        proof {
            lemma_cash_name_is_cash(t.account@);
            assert(i != j);
        }
        replace_values(lines, i, nv);
        replace_values(lines, j, cv);
    } else {
        replace_values(lines, i, nv);
    }
    Ok(())
}

/// The view of an optional text.
pub open spec fn opt_view(o: Option<String>) -> Option<Seq<char>> {
    match o {
        Some(s) => Some(s@),
        None => None,
    }
}

/// `l` is the empty position of instrument `s`: its descriptive fields
/// copied (the currency is the underlying one), every figure zero and no
/// annotation.
pub open spec fn is_fresh_line(l: PortLine, s: Stocks) -> bool {
    &&& opt_view(l.ticker) == opt_view(s.ticker)
    &&& l.name@ == s.name@
    &&& l.currency@ == s.currencyunderlying@
    &&& l.asset@ == s.asset@
    &&& l.group@ == s.group@
    &&& l.tags@ == s.tags@
    &&& l.riskyness@ == s.riskyness@
    &&& l.units == 0 && l.price == 0 && l.amount_usd == 0 && l.amount_perc == 0
    &&& l.cost_usd == 0 && l.revenue_usd == 0 && l.divs_usd == 0 && l.fees_usd == 0
    &&& l.error@.len() == 0
}

/// No two instruments of a registry share a name.
pub open spec fn stock_names_unique(stocks: Seq<Stocks>) -> bool {
    forall|i: int, j: int|
        0 <= i < stocks.len() && 0 <= j < stocks.len() && i != j ==> (#[trigger] stocks[i]).name@
            != (#[trigger] stocks[j]).name@
}

pub fn clone_opt(o: &Option<String>) -> (r: Option<String>)
    ensures
        opt_view(r) == opt_view(*o),
{
    match o {
        Some(s) => Some(s.clone()),
        None => None,
    }
}

impl PortLine {
    /// The empty position of an instrument.
    pub fn from(s: &Stocks) -> (r: PortLine)
        ensures
            is_fresh_line(r, *s),
    {
        PortLine {
            ticker: clone_opt(&s.ticker),
            name: s.name.clone(),
            currency: s.currencyunderlying.clone(),
            asset: s.asset.clone(),
            group: s.group.clone(),
            tags: s.tags.clone(),
            riskyness: s.riskyness.clone(),
            units: 0,
            cost_usd: 0,
            revenue_usd: 0,
            divs_usd: 0,
            fees_usd: 0,
            price: 0,
            error: String::new(),
            amount_usd: 0,
            amount_perc: 0,
        }
    }
}

/// One empty position per instrument, in registry order.
pub fn fresh_lines(stocks: &Vec<Stocks>) -> (r: Vec<PortLine>)
    ensures
        r@.len() == stocks@.len(),
        forall|k: int| 0 <= k < stocks@.len() ==> is_fresh_line(#[trigger] r@[k], stocks@[k]),
        stock_names_unique(stocks@) ==> names_unique(r@),
{
    let mut r: Vec<PortLine> = Vec::new();
    let mut i: usize = 0;
    while i < stocks.len()
        invariant
            i <= stocks@.len(),
            r@.len() == i,
            forall|k: int| 0 <= k < i ==> is_fresh_line(#[trigger] r@[k], stocks@[k]),
        decreases stocks@.len() - i,
    {
        r.push(PortLine::from(&stocks[i]));
        i = i + 1;
    }
    proof {
        if stock_names_unique(stocks@) {
            assert forall|a: int, b: int|
                0 <= a < r@.len() && 0 <= b < r@.len() && a != b implies (#[trigger] r@[a]).name@
                    != (#[trigger] r@[b]).name@ by {
                assert(is_fresh_line(r@[a], stocks@[a]));
                assert(is_fresh_line(r@[b], stocks@[b]));
            }
        }
    }
    r
}

proof fn lemma_unique_kept(a: Seq<PortLine>, b: Seq<PortLine>)
    requires
        names_unique(a),
        same_names(a, b),
    ensures
        names_unique(b),
{
    assert forall|i: int, j: int|
        0 <= i < b.len() && 0 <= j < b.len() && i != j implies (#[trigger] b[i]).name@
            != (#[trigger] b[j]).name@ by {
        assert(a[i].name@ == b[i].name@);
        assert(a[j].name@ == b[j].name@);
    }
}

proof fn lemma_same_names_trans(a: Seq<PortLine>, b: Seq<PortLine>, c: Seq<PortLine>)
    requires
        same_names(a, b),
        same_names(b, c),
    ensures
        same_names(a, c),
{
    assert forall|k: int| 0 <= k < a.len() implies (#[trigger] a[k]).name@ == c[k].name@ by {
        assert(b[k].name@ == c[k].name@);
    }
}

proof fn lemma_fold_prefix(lines: Seq<PortLine>, trades: Seq<Trade>, k: int)
    requires
        0 <= k < trades.len(),
    ensures
        fold(lines, trades.take(k + 1)) == match fold(lines, trades.take(k)) {
            Ok(l) => step(l, trades[k]),
            Err(e) => Err(e),
        },
{
    assert(trades.take(k + 1).drop_last() =~= trades.take(k));
}

proof fn lemma_fold_err_sticks(lines: Seq<PortLine>, trades: Seq<Trade>, k: int)
    requires
        0 <= k <= trades.len(),
        fold(lines, trades.take(k)) is Err,
    ensures
        fold(lines, trades) == fold(lines, trades.take(k)),
    decreases trades.len() - k,
{
    if k < trades.len() {
        lemma_fold_prefix(lines, trades, k);
        lemma_fold_err_sticks(lines, trades, k + 1);
    } else {
        assert(trades.take(k) =~= trades);
    }
}

/// Folds the ledger into the positions, event by event in ledger order.
pub fn fold_trades(lines: Vec<PortLine>, trades: &Vec<Trade>) -> (r: Result<Vec<PortLine>, StoreError>)
    requires
        names_unique(lines@),
    ensures
        match fold(lines@, trades@) {
            Ok(n) => r is Ok && r->Ok_0@ == n,
            Err(f) => r is Err && r->Err_0@ == f,
        },
{
    let ghost init = lines@;
    let mut cur = lines;
    let mut i: usize = 0;
    proof {
        assert(trades@.take(0) =~= Seq::<Trade>::empty());
        assert(same_names(init, init));
    }
    while i < trades.len()
        invariant
            i <= trades@.len(),
            init == lines@,
            names_unique(init),
            fold(init, trades@.take(i as int)) == Ok::<Seq<PortLine>, Fault>(cur@),
            same_names(init, cur@),
        decreases trades@.len() - i,
    {
        proof {
            lemma_unique_kept(init, cur@);
            lemma_fold_prefix(init, trades@, i as int);
        }
        let ghost before = cur@;
        match apply_trade(&mut cur, &trades[i]) {
            Ok(()) => {
                proof {
                    lemma_step_keeps_names(before, trades@[i as int]);
                    lemma_same_names_trans(init, before, cur@);
                }
            },
            Err(e) => {
                proof {
                    assert(step(before, trades@[i as int]) is Err);
                    assert(fold(init, trades@.take(i + 1)) == Err::<Seq<PortLine>, Fault>(e@));
                    lemma_fold_err_sticks(init, trades@, i + 1);
                    assert(fold(init, trades@) == Err::<Seq<PortLine>, Fault>(e@));
                }
                return Err(e);
            },
        }
        i = i + 1;
    }
    proof {
        assert(trades@.take(i as int) =~= trades@);
    }
    Ok(cur)
}

/// A buy followed at once by a sell of the same instrument, quantity, price,
/// fees and currency multiplier, on the same account, leaves the units of
/// every position (the instrument's and its cash account's) as they were.
pub proof fn law_buy_then_sell_restores_units(lines: Seq<PortLine>, buy: Trade, sell: Trade)
    requires
        names_unique(lines),
        buy.kind == TradeType::Buy,
        sell.kind == TradeType::Sell,
        sell.account@ == buy.account@,
        sell.stock@ == buy.stock@,
        sell.units == buy.units,
        sell.price == buy.price,
        sell.fees == buy.fees,
        sell.currency == buy.currency,
        step(lines, buy) is Ok,
        step(step(lines, buy)->Ok_0, sell) is Ok,
    ensures
        ({
            let after = step(step(lines, buy)->Ok_0, sell)->Ok_0;
            after.len() == lines.len() && forall|k: int|
                0 <= k < lines.len() ==> (#[trigger] after[k]).units == lines[k].units
        }),
{
    let mid = step(lines, buy)->Ok_0;
    let after = step(mid, sell)->Ok_0;
    lemma_step_keeps_names(lines, buy);
    lemma_step_keeps_names(mid, sell);
    lemma_unique_kept(lines, mid);
    let i = index_of(lines, buy.stock@);
    let c = cash_name(buy.account@);
    assert(mid[i].name@ == buy.stock@);
    lemma_index_of(mid, buy.stock@, i);
    if is_linked(buy) {
        let j = index_of(lines, c);
        assert(mid[j].name@ == c);
        lemma_index_of(mid, c, j);
        lemma_cash_name_is_cash(buy.account@);
        assert(i != j);
    }
    assert(spec_amount(sell) == spec_amount(buy));
}

/// Two splits of one instrument in a row, by ratios `r1` then `r2`, leave
/// the same positions as one split by the fixed-point product `r1 × r2`,
/// wherever neither product of the two splits is rounded (the units times
/// `r1`, and `r1` times `r2`, are whole multiples of the scale).
pub proof fn law_split_composes(lines: Seq<PortLine>, t1: Trade, t2: Trade, t12: Trade)
    requires
        names_unique(lines),
        t1.kind == TradeType::Split,
        t2.kind == TradeType::Split,
        t12.kind == TradeType::Split,
        t2.stock@ == t1.stock@,
        t12.stock@ == t1.stock@,
        t12.split == tdiv(t1.split * t2.split, SCALE as int),
        step(lines, t1) is Ok,
        step(step(lines, t1)->Ok_0, t2) is Ok,
        (lines[index_of(lines, t1.stock@)].units * t1.split) % (SCALE as int) == 0,
        (t1.split * t2.split) % (SCALE as int) == 0,
    ensures
        step(lines, t12) == step(step(lines, t1)->Ok_0, t2),
{
    let mid = step(lines, t1)->Ok_0;
    lemma_step_keeps_names(lines, t1);
    lemma_unique_kept(lines, mid);
    let i = index_of(lines, t1.stock@);
    assert(mid[i].name@ == t1.stock@);
    lemma_index_of(mid, t1.stock@, i);
    let u = lines[i].units as int;
    let r1 = t1.split as int;
    let r2 = t2.split as int;
    let s = SCALE as int;
    let a = (u * r1) / s;
    let b = (r1 * r2) / s;
    lemma_exact_tdiv(u * r1, s);
    lemma_exact_tdiv(r1 * r2, s);
    assert(u * r1 == a * s);
    assert(r1 * r2 == b * s);
    assert(a * r2 == u * b) by (nonlinear_arith)
        requires
            u * r1 == a * s,
            r1 * r2 == b * s,
            s > 0,
    ;
    assert(mid[i].units == a);
    assert(step(lines, t12)->Ok_0 =~= step(mid, t2)->Ok_0);
}

/// Exact division rounds nothing, whatever the sign.
proof fn lemma_exact_tdiv(x: int, d: int)
    requires
        d >= 1,
        x % d == 0,
    ensures
        tdiv(x, d) == x / d,
        x == (x / d) * d,
{
    vstd::arithmetic::div_mod::lemma_fundamental_div_mod(x, d);
    assert(x == (x / d) * d) by (nonlinear_arith)
        requires x == d * (x / d) + x % d, x % d == 0;
    if x < 0 {
        vstd::arithmetic::div_mod::lemma_fundamental_div_mod(-x, d);
        assert((-x) % d == 0) by {
            vstd::arithmetic::div_mod::lemma_mod_multiples_basic(-(x / d), d);
            assert(-x == (-(x / d)) * d) by (nonlinear_arith)
                requires x == d * (x / d);
        }
        assert((-x) / d == -(x / d)) by (nonlinear_arith)
            requires -x == d * ((-x) / d), x == d * (x / d), d >= 1;
    }
}

/// Cash linkage of a trade on a non-cash instrument: a buy takes its amount
/// out of the account's cash and adds it to the instrument's cost; a sell or
/// a dividend puts its amount into the cash (as revenue, or as dividends),
/// and the instrument's revenue, or dividends, grow by the same amount.
pub proof fn law_cash_linkage(lines: Seq<PortLine>, t: Trade)
    requires
        names_unique(lines),
        !is_cash_name(t.stock@),
        t.kind == TradeType::Buy || t.kind == TradeType::Sell || t.kind == TradeType::Div,
        step(lines, t) is Ok,
    ensures
        ({
            let n = step(lines, t)->Ok_0;
            let i = index_of(lines, t.stock@);
            let j = index_of(lines, cash_name(t.account@));
            let a = spec_amount(t)->Some_0;
            &&& spec_amount(t) is Some
            &&& i != j
            &&& t.kind == TradeType::Buy ==> n[j].units == lines[j].units - a && n[i].cost_usd
                == lines[i].cost_usd + a && n[j].cost_usd == lines[j].cost_usd + a
            &&& t.kind == TradeType::Sell ==> n[j].units == lines[j].units + a
                && n[i].revenue_usd == lines[i].revenue_usd + a && n[j].revenue_usd
                == lines[j].revenue_usd + a
            &&& t.kind == TradeType::Div ==> n[j].units == lines[j].units + a && n[i].divs_usd
                == lines[i].divs_usd + a && n[j].divs_usd == lines[j].divs_usd + a
        }),
{
    lemma_cash_name_is_cash(t.account@);
}

/// Same names in the same places, and the same units held.
pub open spec fn same_units(a: Seq<PortLine>, b: Seq<PortLine>) -> bool {
    same_names(a, b) && forall|k: int| 0 <= k < a.len() ==> (#[trigger] a[k]).units == b[k].units
}

/// Folding a ledger made of two parts folds the first, then the second.
pub proof fn lemma_fold_append(lines: Seq<PortLine>, a: Seq<Trade>, b: Seq<Trade>)
    ensures
        fold(lines, a + b) == match fold(lines, a) {
            Ok(m) => fold(m, b),
            Err(e) => Err(e),
        },
    decreases b.len(),
{
    if b.len() == 0 {
        assert(a + b =~= a);
    } else {
        lemma_fold_append(lines, a, b.drop_last());
        assert((a + b).drop_last() =~= a + b.drop_last());
        assert((a + b).last() == b.last());
    }
}

proof fn lemma_fold_one(m: Seq<PortLine>, a: Trade)
    ensures
        fold(m, seq![a]) == step(m, a),
{
    assert(seq![a].drop_last() =~= Seq::<Trade>::empty());
    assert(fold(m, Seq::<Trade>::empty()) == Ok::<Seq<PortLine>, Fault>(m));
    assert(seq![a].last() == a);
}

proof fn lemma_fold_two(m: Seq<PortLine>, a: Trade, b: Trade)
    ensures
        fold(m, seq![a, b]) == match step(m, a) {
            Ok(x) => step(x, b),
            Err(e) => Err(e),
        },
{
    lemma_fold_one(m, a);
    assert(seq![a, b].drop_last() =~= seq![a]);
    assert(seq![a, b].last() == b);
}

proof fn lemma_fold_keeps_names(lines: Seq<PortLine>, ts: Seq<Trade>)
    requires
        fold(lines, ts) is Ok,
    ensures
        same_names(lines, fold(lines, ts)->Ok_0),
    decreases ts.len(),
{
    if ts.len() == 0 {
        assert(same_names(lines, lines));
    } else {
        let m = fold(lines, ts.drop_last());
        assert(m is Ok);
        lemma_fold_keeps_names(lines, ts.drop_last());
        lemma_step_keeps_names(m->Ok_0, ts.last());
        lemma_same_names_trans(lines, m->Ok_0, fold(lines, ts)->Ok_0);
    }
}

proof fn lemma_step_same_units(x: Seq<PortLine>, y: Seq<PortLine>, t: Trade)
    requires
        names_unique(x),
        same_units(x, y),
        step(x, t) is Ok,
        step(y, t) is Ok,
    ensures
        same_units(step(x, t)->Ok_0, step(y, t)->Ok_0),
{
    lemma_unique_kept(x, y);
    lemma_step_keeps_names(x, t);
    lemma_step_keeps_names(y, t);
    let i = index_of(x, t.stock@);
    assert(y[i].name@ == t.stock@);
    lemma_index_of(y, t.stock@, i);
    if is_linked(t) {
        let j = index_of(x, cash_name(t.account@));
        assert(y[j].name@ == cash_name(t.account@));
        lemma_index_of(y, cash_name(t.account@), j);
    }
    let nx = step(x, t)->Ok_0;
    let ny = step(y, t)->Ok_0;
    assert forall|k: int| 0 <= k < nx.len() implies (#[trigger] nx[k]).units == ny[k].units by {
        assert(x[k].units == y[k].units);
    }
    lemma_same_names_trans(nx, x, y);
    lemma_same_names_trans(nx, y, ny);
}

proof fn lemma_fold_same_units(x: Seq<PortLine>, y: Seq<PortLine>, ts: Seq<Trade>)
    requires
        names_unique(x),
        same_units(x, y),
        fold(x, ts) is Ok,
        fold(y, ts) is Ok,
    ensures
        same_units(fold(x, ts)->Ok_0, fold(y, ts)->Ok_0),
    decreases ts.len(),
{
    if ts.len() > 0 {
        let d = ts.drop_last();
        assert(fold(x, d) is Ok);
        assert(fold(y, d) is Ok);
        lemma_fold_same_units(x, y, d);
        lemma_fold_keeps_names(x, d);
        lemma_unique_kept(x, fold(x, d)->Ok_0);
        lemma_step_same_units(fold(x, d)->Ok_0, fold(y, d)->Ok_0, ts.last());
    }
}

proof fn lemma_same_names_sym(a: Seq<PortLine>, b: Seq<PortLine>)
    requires
        same_names(a, b),
    ensures
        same_names(b, a),
{
}

/// In any ledger, a buy followed at once by a sell of the same instrument,
/// quantity, price, fees and currency multiplier, on the same account,
/// leaves the units of every position as the ledger without the pair
/// gives them, whatever comes before and after the pair.
pub proof fn law_round_trip_in_ledger(
    lines: Seq<PortLine>,
    before: Seq<Trade>,
    buy: Trade,
    sell: Trade,
    after: Seq<Trade>,
)
    requires
        names_unique(lines),
        buy.kind == TradeType::Buy,
        sell.kind == TradeType::Sell,
        sell.account@ == buy.account@,
        sell.stock@ == buy.stock@,
        sell.units == buy.units,
        sell.price == buy.price,
        sell.fees == buy.fees,
        sell.currency == buy.currency,
        fold(lines, before + seq![buy, sell] + after) is Ok,
        fold(lines, before + after) is Ok,
    ensures
        same_units(
            fold(lines, before + seq![buy, sell] + after)->Ok_0,
            fold(lines, before + after)->Ok_0,
        ),
{
    lemma_fold_append(lines, before + seq![buy, sell], after);
    lemma_fold_append(lines, before, seq![buy, sell]);
    lemma_fold_append(lines, before, after);
    let m = fold(lines, before)->Ok_0;
    assert(fold(lines, before) is Ok);
    let pair = seq![buy, sell];
    lemma_fold_two(m, buy, sell);
    assert(step(m, buy) is Ok);
    let m2 = fold(m, pair)->Ok_0;
    lemma_fold_keeps_names(lines, before);
    lemma_unique_kept(lines, m);
    law_buy_then_sell_restores_units(m, buy, sell);
    lemma_step_keeps_names(m, buy);
    lemma_step_keeps_names(step(m, buy)->Ok_0, sell);
    lemma_same_names_trans(m, step(m, buy)->Ok_0, m2);
    lemma_same_names_sym(m, m2);
    lemma_unique_kept(m, m2);
    assert(same_units(m2, m));
    lemma_fold_same_units(m2, m, after);
}

/// In any ledger, two splits of one instrument in a row, by `r1` then
/// `r2`, leave the same positions as one split by the fixed-point product,
/// whatever comes before and after, wherever neither product is rounded.
#[verifier::rlimit(40)]
pub proof fn law_split_composes_in_ledger(
    lines: Seq<PortLine>,
    before: Seq<Trade>,
    t1: Trade,
    t2: Trade,
    t12: Trade,
    after: Seq<Trade>,
)
    requires
        names_unique(lines),
        t1.kind == TradeType::Split,
        t2.kind == TradeType::Split,
        t12.kind == TradeType::Split,
        t2.stock@ == t1.stock@,
        t12.stock@ == t1.stock@,
        t12.split == tdiv(t1.split * t2.split, SCALE as int),
        fold(lines, before + seq![t1, t2] + after) is Ok,
        ({
            let m = fold(lines, before)->Ok_0;
            (m[index_of(m, t1.stock@)].units * t1.split) % (SCALE as int) == 0
        }),
        (t1.split * t2.split) % (SCALE as int) == 0,
    ensures
        fold(lines, before + seq![t12] + after) == fold(lines, before + seq![t1, t2] + after),
{
    lemma_fold_append(lines, before + seq![t1, t2], after);
    lemma_fold_append(lines, before, seq![t1, t2]);
    lemma_fold_append(lines, before + seq![t12], after);
    lemma_fold_append(lines, before, seq![t12]);
    assert(fold(lines, before) is Ok);
    let m = fold(lines, before)->Ok_0;
    lemma_fold_two(m, t1, t2);
    lemma_fold_one(m, t12);
    assert(step(m, t1) is Ok);
    lemma_fold_keeps_names(lines, before);
    lemma_unique_kept(lines, m);
    law_split_composes(m, t1, t2, t12);
}

/// Cash linkage at the end of any ledger: appending a buy, sell or
/// dividend on a non-cash instrument moves the account's cash units by
/// minus (buy) or plus (sell, dividend) the traded amount, and the
/// instrument's cost (buy), revenue (sell) or dividends grow by it.
pub proof fn law_cash_linkage_in_ledger(lines: Seq<PortLine>, ledger: Seq<Trade>, t: Trade)
    requires
        names_unique(lines),
        !is_cash_name(t.stock@),
        t.kind == TradeType::Buy || t.kind == TradeType::Sell || t.kind == TradeType::Div,
        fold(lines, ledger.push(t)) is Ok,
    ensures
        ({
            let m = fold(lines, ledger)->Ok_0;
            let n = fold(lines, ledger.push(t))->Ok_0;
            let i = index_of(m, t.stock@);
            let j = index_of(m, cash_name(t.account@));
            let a = spec_amount(t)->Some_0;
            &&& spec_amount(t) is Some
            &&& i != j
            &&& t.kind == TradeType::Buy ==> n[j].units == m[j].units - a && n[i].cost_usd
                == m[i].cost_usd + a && n[j].cost_usd == m[j].cost_usd + a
            &&& t.kind == TradeType::Sell ==> n[j].units == m[j].units + a && n[i].revenue_usd
                == m[i].revenue_usd + a && n[j].revenue_usd == m[j].revenue_usd + a
            &&& t.kind == TradeType::Div ==> n[j].units == m[j].units + a && n[i].divs_usd
                == m[i].divs_usd + a && n[j].divs_usd == m[j].divs_usd + a
        }),
{
    assert(ledger.push(t).drop_last() =~= ledger);
    assert(fold(lines, ledger) is Ok);
    let m = fold(lines, ledger)->Ok_0;
    lemma_fold_keeps_names(lines, ledger);
    lemma_unique_kept(lines, m);
    law_cash_linkage(m, t);
}

/// Same positions apart from their running figures: ticker, currency,
/// asset, price, annotation and name kept.
pub open spec fn same_descr(a: Seq<PortLine>, b: Seq<PortLine>) -> bool {
    a.len() == b.len() && forall|k: int|
        0 <= k < a.len() ==> {
            &&& (#[trigger] a[k]).ticker == b[k].ticker
            &&& a[k].currency == b[k].currency
            &&& a[k].asset == b[k].asset
            &&& a[k].price == b[k].price
            &&& a[k].error == b[k].error
            &&& a[k].name == b[k].name
        }
}

proof fn lemma_step_keeps_descr(lines: Seq<PortLine>, t: Trade)
    requires
        step(lines, t) is Ok,
    ensures
        same_descr(lines, step(lines, t)->Ok_0),
{
    let n = step(lines, t)->Ok_0;
    let i = index_of(lines, t.stock@);
    let j = index_of(lines, cash_name(t.account@));
    assert forall|k: int| 0 <= k < lines.len() implies (#[trigger] lines[k]).ticker == n[k].ticker
        && lines[k].currency == n[k].currency && lines[k].asset == n[k].asset && lines[k].price
        == n[k].price && lines[k].error == n[k].error && lines[k].name == n[k].name by {
        if k == i {
        } else if k == j {
        }
    }
}

/// The fold changes no position's ticker, currency, asset, price,
/// annotation or name.
pub proof fn lemma_fold_keeps_descr(lines: Seq<PortLine>, ts: Seq<Trade>)
    requires
        fold(lines, ts) is Ok,
    ensures
        same_descr(lines, fold(lines, ts)->Ok_0),
    decreases ts.len(),
{
    if ts.len() > 0 {
        let m = fold(lines, ts.drop_last());
        assert(m is Ok);
        lemma_fold_keeps_descr(lines, ts.drop_last());
        lemma_step_keeps_descr(m->Ok_0, ts.last());
    }
}

} // verus!
