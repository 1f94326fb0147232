use vstd::prelude::*;

use crate::args::ReportType;
use crate::dates::now_secs;
use crate::ledger::{
    load_prices, load_stocks, load_trades, prices_failed, prices_loaded, stocks_failed,
    stocks_loaded, trades_failed, trades_loaded,
};
use crate::model::{Fault, PortLine, PriceLine, Stocks, StoreError, Trade};
use crate::prices::{all_writable, price_file, quote_unwritable};
use crate::position::{fold, fold_trades, fresh_lines, is_fresh_line, lemma_fold_keeps_descr};
use crate::report::{group_lines, group_sums_fit, is_grouping, set_group_weights, ReportLine};
use crate::text::{contains, lower_of, lowercase, seq_contains};
use crate::fixed::SCALE;
use crate::valuation::{
    cash_asset, last_quote, quote_of, rate_ticker,
    filter_lines, is_current, is_valued, is_weighted, law_active_view, law_shares_sum_to_one, quot, retained, set_weights,
    spec_value, sum_amounts, sum_perc, sums_fit, total_amount, value_lines, weight,
};

verus! {

/// The header line a new registry file holds.
pub const STOCKS_HEADER: &'static str = "Name\tAsset\tGroup\tTags\tRiskyness\tTicker\tTradedcurrency\tCurrencyunderlying";

/// The header line a new ledger file holds.
pub const TRADES_HEADER: &'static str = "Account\tDate\tType\tStock\tUnits\tPrice\tFees\tSplit\tCurrency";

/// The three tables of a portfolio, as text: the instrument registry, the
/// trade ledger and the price snapshot.
pub struct Store {
    pub stocks_text: String,
    pub trades_text: String,
    pub prices_text: String,
}

/// `lines` are the empty positions of the registry `stocks`.
pub open spec fn fresh_for(stocks: Seq<Stocks>, lines: Seq<PortLine>) -> bool {
    lines.len() == stocks.len() && forall|k: int|
        0 <= k < lines.len() ==> is_fresh_line(#[trigger] lines[k], stocks[k])
}

/// `b` is `a` valued position by position.
pub open spec fn valued_all(a: Seq<PortLine>, b: Seq<PortLine>, prices: Seq<PriceLine>, now: i64) -> bool {
    a.len() == b.len() && forall|k: int| 0 <= k < a.len() ==> is_valued(a[k], #[trigger] b[k], prices, now)
}

/// `b` is `a` with every share of `total` set.
pub open spec fn weighted_all(a: Seq<PortLine>, b: Seq<PortLine>, total: int) -> bool {
    a.len() == b.len() && forall|k: int| 0 <= k < a.len() ==> is_weighted(a[k], #[trigger] b[k], total)
}

/// The registry and the ledger load, and the ledger folds into `n` from
/// the registry's empty positions `lines`.
pub open spec fn folded_from(
    s: Store,
    sv: Seq<Stocks>,
    tv: Seq<Trade>,
    lines: Seq<PortLine>,
    n: Seq<PortLine>,
) -> bool {
    &&& stocks_loaded(s.stocks_text@, sv)
    &&& trades_loaded(s.trades_text@, tv)
    &&& fresh_for(sv, lines)
    &&& fold(lines, tv) == Ok::<Seq<PortLine>, Fault>(n)
}

/// `out` is the portfolio view at `now` built through the stated
/// intermediate values: folded positions valued against the snapshot `pv`,
/// the closed ones dropped unless `all`, shares of their total set.
pub open spec fn port_from(
    s: Store,
    now: i64,
    all: bool,
    sv: Seq<Stocks>,
    tv: Seq<Trade>,
    lines: Seq<PortLine>,
    n: Seq<PortLine>,
    pv: Seq<PriceLine>,
    valued: Seq<PortLine>,
    out: Seq<PortLine>,
) -> bool {
    &&& folded_from(s, sv, tv, lines, n)
    &&& prices_loaded(s.prices_text@, pv)
    &&& valued_all(n, valued, pv, now)
    &&& sums_fit(retained(valued, all))
    &&& weighted_all(retained(valued, all), out, sum_amounts(retained(valued, all)))
}

/// `out` is the portfolio view of the store at `now`.
pub open spec fn port_spec(s: Store, now: i64, all: bool, out: Seq<PortLine>) -> bool {
    exists|sv: Seq<Stocks>, tv: Seq<Trade>, lines: Seq<PortLine>, n: Seq<PortLine>, pv: Seq<PriceLine>, valued: Seq<PortLine>|
        #[trigger] port_from(s, now, all, sv, tv, lines, n, pv, valued, out)
}

/// The positions fold, the snapshot loads and valuation, the total or a
/// share leaves the fixed-point range.
pub open spec fn port_overflows(
    s: Store,
    now: i64,
    all: bool,
    sv: Seq<Stocks>,
    tv: Seq<Trade>,
    lines: Seq<PortLine>,
    n: Seq<PortLine>,
    pv: Seq<PriceLine>,
) -> bool {
    &&& folded_from(s, sv, tv, lines, n)
    &&& prices_loaded(s.prices_text@, pv)
    &&& ((exists|k: int| 0 <= k < n.len() && (#[trigger] spec_value(n[k], pv)) is None) || exists|
        valued: Seq<PortLine>,
    |
        #[trigger] valued_all(n, valued, pv, now) && (!sums_fit(retained(valued, all)) || exists|
            k: int,
        |
            0 <= k < retained(valued, all).len() && (#[trigger] weight(
                retained(valued, all)[k].amount_usd as int,
                sum_amounts(retained(valued, all)),
            )) is None))
}

/// `f` is the error the portfolio view of the store gives at `now`: the
/// first stage that fails names it.
pub open spec fn port_failed(s: Store, now: i64, all: bool, f: Fault) -> bool {
    ||| stocks_failed(s.stocks_text@, f)
    ||| exists|sv: Seq<Stocks>| #[trigger] stocks_loaded(s.stocks_text@, sv) && trades_failed(s.trades_text@, f)
    ||| exists|sv: Seq<Stocks>, tv: Seq<Trade>, lines: Seq<PortLine>|
        stocks_loaded(s.stocks_text@, sv) && trades_loaded(s.trades_text@, tv) && #[trigger] fresh_for(sv, lines)
            && #[trigger] fold(lines, tv) == Err::<Seq<PortLine>, Fault>(f)
    ||| exists|sv: Seq<Stocks>, tv: Seq<Trade>, lines: Seq<PortLine>, n: Seq<PortLine>|
        #[trigger] folded_from(s, sv, tv, lines, n) && prices_failed(s.prices_text@, f)
    ||| f == Fault::Overflow && exists|sv: Seq<Stocks>, tv: Seq<Trade>, lines: Seq<PortLine>, n: Seq<PortLine>, pv: Seq<PriceLine>|
        #[trigger] port_overflows(s, now, all, sv, tv, lines, n, pv)
}

/// What the portfolio view at `now` gives: the view, or the error of the
/// first stage that fails.
pub open spec fn port_outcome(s: Store, now: i64, all: bool, r: Result<Vec<PortLine>, StoreError>) -> bool {
    match r {
        Ok(v) => port_spec(s, now, all, v@),
        Err(e) => port_failed(s, now, all, e@),
    }
}

/// What the total at `now` gives: the summed amount of the open positions,
/// or an error.
pub open spec fn total_outcome(s: Store, now: i64, r: Result<i128, StoreError>) -> bool {
    match r {
        Ok(t) => exists|v: Seq<PortLine>| #[trigger] port_spec(s, now, false, v) && sums_fit(v) && t == sum_amounts(v),
        Err(e) => port_failed(s, now, false, e@) || (e@ == Fault::Overflow && exists|v: Seq<PortLine>|
            #[trigger] port_spec(s, now, false, v) && !sums_fit(v)),
    }
}

/// `v` are the groups of the open positions `port`, each with its share of
/// their total.
pub open spec fn report_rows(port: Seq<PortLine>, groups: Seq<ReportLine>, rt: ReportType, v: Seq<ReportLine>) -> bool {
    &&& is_grouping(port, groups, rt)
    &&& sums_fit(port)
    &&& v.len() == groups.len()
    &&& forall|k: int|
        0 <= k < groups.len() ==> {
            &&& weight((#[trigger] groups[k]).amount_usd as int, sum_amounts(port)) is Some
            &&& v[k] == ReportLine {
                amount_perc: weight(groups[k].amount_usd as int, sum_amounts(port))->Some_0 as i128,
                ..groups[k]
            }
        }
}

/// `v` is the report of the open positions at `now`.
pub open spec fn report_ok(s: Store, now: i64, rt: ReportType, v: Seq<ReportLine>) -> bool {
    exists|port: Seq<PortLine>, groups: Seq<ReportLine>|
        #[trigger] port_spec(s, now, false, port) && #[trigger] report_rows(port, groups, rt, v)
}

/// What the report at `now` gives: the groups of the open positions, or an
/// error.
pub open spec fn report_outcome(s: Store, now: i64, rt: ReportType, r: Result<Vec<ReportLine>, StoreError>) -> bool {
    match r {
        Ok(v) => report_ok(s, now, rt, v@),
        Err(e) => port_failed(s, now, false, e@) || (e@ == Fault::Overflow && exists|port: Seq<PortLine>|
            #[trigger] port_spec(s, now, false, port) && (!sums_fit(port) || !group_sums_fit(port, rt)
            || exists|groups: Seq<ReportLine>, k: int| #[trigger] is_grouping(port, groups, rt)
            && 0 <= k < groups.len() && (#[trigger] weight(groups[k].amount_usd as int, sum_amounts(port))) is None)),
    }
}

proof fn lemma_same_amounts(a: Seq<PortLine>, b: Seq<PortLine>)
    requires
        a.len() == b.len(),
        forall|k: int| 0 <= k < a.len() ==> (#[trigger] a[k]).amount_usd == b[k].amount_usd,
    ensures
        sum_amounts(a) == sum_amounts(b),
    decreases a.len(),
{
    if a.len() > 0 {
        assert forall|k: int| 0 <= k < a.drop_last().len() implies (#[trigger] a.drop_last()[k]).amount_usd
            == b.drop_last()[k].amount_usd by {
            assert(a[k].amount_usd == b[k].amount_usd);
        }
        lemma_same_amounts(a.drop_last(), b.drop_last());
        assert(a[a.len() - 1].amount_usd == b[b.len() - 1].amount_usd);
    }
}

/// The shares of a portfolio view whose amounts do not sum to zero add up
/// to one whole unit (`SCALE`), off by less than one fixed-point step per
/// position.
pub proof fn law_port_shares_sum_to_one(s: Store, now: i64, all: bool, out: Seq<PortLine>)
    requires
        port_spec(s, now, all, out),
        sum_amounts(out) != 0,
    ensures
        SCALE - out.len() < sum_perc(out) < SCALE + out.len(),
{
    let (sv, tv, lines, n, pv, valued) = choose|
        sv: Seq<Stocks>,
        tv: Seq<Trade>,
        lines: Seq<PortLine>,
        n: Seq<PortLine>,
        pv: Seq<PriceLine>,
        valued: Seq<PortLine>,
    | #[trigger] port_from(s, now, all, sv, tv, lines, n, pv, valued, out);
    let r = retained(valued, all);
    assert forall|k: int| 0 <= k < r.len() implies (#[trigger] r[k]).amount_usd == out[k].amount_usd by {
        assert(is_weighted(r[k], out[k], sum_amounts(r)));
    }
    lemma_same_amounts(r, out);
    assert forall|k: int| 0 <= k < out.len() implies (#[trigger] out[k]).amount_perc == quot(
        out[k].amount_usd * SCALE,
        sum_amounts(out),
    ) by {
        assert(is_weighted(r[k], out[k], sum_amounts(r)));
    }
    law_shares_sum_to_one(out);
}

/// A position with its share cleared, to compare views whose totals differ.
pub open spec fn strip_share(l: PortLine) -> PortLine {
    PortLine { amount_perc: 0, ..l }
}

pub open spec fn stripped(v: Seq<PortLine>) -> Seq<PortLine> {
    v.map_values(|l: PortLine| strip_share(l))
}

proof fn lemma_stripped_weighted(a: Seq<PortLine>, b: Seq<PortLine>, total: int)
    requires
        weighted_all(a, b, total),
    ensures
        stripped(b) == stripped(a),
{
    assert forall|k: int| 0 <= k < a.len() implies #[trigger] stripped(b)[k] == stripped(a)[k] by {
        assert(is_weighted(a[k], b[k], total));
    }
    assert(stripped(b) =~= stripped(a));
}

proof fn lemma_stripped_contains(v: Seq<PortLine>, y: PortLine)
    ensures
        stripped(v).contains(y) <==> exists|x: PortLine| #[trigger] v.contains(x) && strip_share(x) == y,
{
    if stripped(v).contains(y) {
        let k = choose|k: int| 0 <= k < stripped(v).len() && stripped(v)[k] == y;
        assert(v.contains(v[k]));
    }
    if exists|x: PortLine| #[trigger] v.contains(x) && strip_share(x) == y {
        let x = choose|x: PortLine| #[trigger] v.contains(x) && strip_share(x) == y;
        let k = choose|k: int| 0 <= k < v.len() && v[k] == x;
        assert(stripped(v)[k] == y);
    }
}

/// The view without closed positions is the full view less the closed
/// ones: built from the same valued positions, a position (its share set
/// aside, as the two views share out different totals) is in the view
/// without closed ones exactly when it is in the full view and holds more
/// than 0.01 units, long or short.
pub proof fn law_port_active_view(
    s: Store,
    now: i64,
    sv: Seq<Stocks>,
    tv: Seq<Trade>,
    lines: Seq<PortLine>,
    n: Seq<PortLine>,
    pv: Seq<PriceLine>,
    valued: Seq<PortLine>,
    full: Seq<PortLine>,
    open: Seq<PortLine>,
)
    requires
        port_from(s, now, true, sv, tv, lines, n, pv, valued, full),
        port_from(s, now, false, sv, tv, lines, n, pv, valued, open),
    ensures
        forall|l: PortLine|
            #[trigger] stripped(open).contains(l) <==> (stripped(full).contains(l) && is_current(
                l.units,
            )),
{
    law_active_view(valued);
    lemma_stripped_weighted(retained(valued, false), open, sum_amounts(retained(valued, false)));
    lemma_stripped_weighted(retained(valued, true), full, sum_amounts(retained(valued, true)));
    assert forall|l: PortLine|
        #[trigger] stripped(open).contains(l) <==> (stripped(full).contains(l) && is_current(l.units)) by {
        lemma_stripped_contains(retained(valued, false), l);
        lemma_stripped_contains(valued, l);
        if stripped(open).contains(l) {
            let x = choose|x: PortLine| #[trigger] retained(valued, false).contains(x) && strip_share(x) == l;
            assert(valued.contains(x) && is_current(x.units));
        }
        if stripped(full).contains(l) && is_current(l.units) {
            let x = choose|x: PortLine| #[trigger] valued.contains(x) && strip_share(x) == l;
            assert(retained(valued, false).contains(x));
        }
    }
}

proof fn lemma_retained_within(v: Seq<PortLine>, all: bool, x: PortLine)
    requires
        retained(v, all).contains(x),
    ensures
        v.contains(x),
{
    law_active_view(v);
}

/// A position of the portfolio view whose currency has no rate in the
/// snapshot is worth its price times its units, unconverted, and is
/// annotated `CN` (after `PO` where its quote is stale); where it is no
/// cash-equivalent and has no quote either, its price and worth are zero.
pub proof fn law_port_missing_rate(
    s: Store,
    now: i64,
    all: bool,
    sv: Seq<Stocks>,
    tv: Seq<Trade>,
    lines: Seq<PortLine>,
    n: Seq<PortLine>,
    pv: Seq<PriceLine>,
    valued: Seq<PortLine>,
    out: Seq<PortLine>,
    k: int,
)
    requires
        port_from(s, now, all, sv, tv, lines, n, pv, valued, out),
        0 <= k < out.len(),
        last_quote(pv, rate_ticker(out[k].currency@)) is None,
    ensures
        out[k].error@ == seq!['C', 'N'] || out[k].error@ == seq!['P', 'O', 'C', 'N'],
        out[k].amount_usd == crate::fixed::tdiv(out[k].price * out[k].units, SCALE as int),
        out[k].asset@ != cash_asset() && quote_of(out[k], pv) is None ==> out[k].price == 0
            && out[k].amount_usd == 0,
{
    let r = retained(valued, all);
    assert(is_weighted(r[k], out[k], sum_amounts(r)));
    assert(r.contains(r[k]));
    lemma_retained_within(valued, all, r[k]);
    let j = choose|j: int| 0 <= j < valued.len() && valued[j] == r[k];
    assert(is_valued(n[j], valued[j], pv, now));
    lemma_fold_keeps_descr(lines, tv);
    assert(is_fresh_line(lines[j], sv[j]));
    assert(n[j].price == 0);
    assert(n[j].error@.len() == 0);
    assert(crate::valuation::flags(n[j], pv, now) =~= seq!['C', 'N'] || crate::valuation::flags(n[j], pv, now) =~= seq!['P', 'O', 'C', 'N']);
    assert(n[j].error@ + crate::valuation::flags(n[j], pv, now) =~= crate::valuation::flags(n[j], pv, now));
    if out[k].asset@ != cash_asset() && quote_of(out[k], pv) is None {
        assert(crate::valuation::spec_price(n[j], pv) == 0);
        assert(0 * out[k].units == 0);
    }
}

/// Trades whose instrument name, case folded, contains `q`.
pub open spec fn trades_named(tv: Seq<Trade>, q: Seq<char>) -> Seq<Trade>
    decreases tv.len(),
{
    if tv.len() == 0 {
        tv
    } else {
        let sub = trades_named(tv.drop_last(), q);
        if seq_contains(lower_of(tv.last().stock@), q) {
            sub.push(tv.last())
        } else {
            sub
        }
    }
}

/// Positions whose name, case folded, contains `q`.
pub open spec fn lines_named(lines: Seq<PortLine>, q: Seq<char>) -> Seq<PortLine>
    decreases lines.len(),
{
    if lines.len() == 0 {
        lines
    } else {
        let sub = lines_named(lines.drop_last(), q);
        if seq_contains(lower_of(lines.last().name@), q) {
            sub.push(lines.last())
        } else {
            sub
        }
    }
}

/// The case-folded search text; an absent one matches everything.
pub open spec fn query_of(name_substring: Option<String>) -> Seq<char> {
    match name_substring {
        Some(s) => lower_of(s@),
        None => Seq::empty(),
    }
}

fn query(name_substring: &Option<String>) -> (r: String)
    ensures
        r@ == query_of(*name_substring),
{
    match name_substring {
        Some(s) => lowercase(s.as_str()),
        None => String::new(),
    }
}

impl Store {
    /// The instrument registry.
    pub fn load_stocks(&self) -> (r: Result<Vec<Stocks>, StoreError>)
        ensures
            match r {
                Ok(v) => stocks_loaded(self.stocks_text@, v@),
                Err(e) => stocks_failed(self.stocks_text@, e@),
            },
    {
        load_stocks(self.stocks_text.as_str())
    }

    /// The price snapshot.
    pub fn load_prices(&self) -> (r: Result<Vec<PriceLine>, StoreError>)
        ensures
            match r {
                Ok(v) => prices_loaded(self.prices_text@, v@),
                Err(e) => prices_failed(self.prices_text@, e@),
            },
    {
        load_prices(self.prices_text.as_str())
    }

    /// Replaces the price snapshot by `lines`; on an error the store is
    /// left as it was.
    pub fn write_prices(&mut self, lines: Vec<PriceLine>) -> (r: Result<(), StoreError>)
        ensures
            match r {
                Ok(()) => final(self).prices_text@ == price_file(lines@),
                Err(e) => final(self).prices_text@ == old(self).prices_text@ && exists|k: int|
                    0 <= k < lines@.len() && #[trigger] quote_unwritable(lines@[k], e@),
            },
            all_writable(lines@) ==> r is Ok,
            final(self).stocks_text@ == old(self).stocks_text@,
            final(self).trades_text@ == old(self).trades_text@,
    {
        match crate::prices::write_prices(&lines) {
            Ok(text) => {
                self.prices_text = text;
                Ok(())
            },
            Err(e) => Err(e),
        }
    }

    /// Counts the trades and the instruments, reading both tables in full.
    pub fn check(&self) -> (r: Result<(usize, usize), StoreError>)
        ensures
            match r {
                Ok((ct, cs)) => exists|sv: Seq<Stocks>, tv: Seq<Trade>|
                    #[trigger] stocks_loaded(self.stocks_text@, sv) && #[trigger] trades_loaded(
                        self.trades_text@,
                        tv,
                    ) && ct == tv.len() && cs == sv.len(),
                Err(e) => stocks_failed(self.stocks_text@, e@) || exists|sv: Seq<Stocks>|
                    #[trigger] stocks_loaded(self.stocks_text@, sv) && trades_failed(
                        self.trades_text@,
                        e@,
                    ),
            },
    {
        let stocks = match load_stocks(self.stocks_text.as_str()) {
            Ok(v) => v,
            Err(e) => return Err(e),
        };
        let trades = match load_trades(self.trades_text.as_str()) {
            Ok(v) => v,
            Err(e) => {
                assert(stocks_loaded(self.stocks_text@, stocks@));
                return Err(e);
            },
        };
        assert(stocks_loaded(self.stocks_text@, stocks@) && trades_loaded(self.trades_text@, trades@));
        Ok((trades.len(), stocks.len()))
    }

    /// The portfolio view at `now` (seconds since the Unix epoch): every
    /// position with `all`, else the open ones.
    pub fn port_at(&self, all: bool, now: i64) -> (r: Result<Vec<PortLine>, StoreError>)
        ensures
            port_outcome(*self, now, all, r),
    {
        let stocks = match load_stocks(self.stocks_text.as_str()) {
            Ok(v) => v,
            Err(e) => return Err(e),
        };
        let ghost sv = stocks@;
        let trades = match load_trades(self.trades_text.as_str()) {
            Ok(v) => v,
            Err(e) => {
                assert(stocks_loaded(self.stocks_text@, sv));
                return Err(e);
            },
        };
        let ghost tv = trades@;
        let lines = fresh_lines(&stocks);
        let ghost lv = lines@;
        assert(fresh_for(sv, lv));
        let folded = match fold_trades(lines, &trades) {
            Ok(v) => v,
            Err(e) => {
                assert(fold(lv, tv) == Err::<Seq<PortLine>, Fault>(e@));
                return Err(e);
            },
        };
        let ghost n = folded@;
        assert(folded_from(*self, sv, tv, lv, n));
        let prices = match load_prices(self.prices_text.as_str()) {
            Ok(v) => v,
            Err(e) => return Err(e),
        };
        let ghost pv = prices@;
        let valued = match value_lines(folded, &prices, now) {
            Ok(v) => v,
            Err(e) => {
                assert(port_overflows(*self, now, all, sv, tv, lv, n, pv));
                return Err(e);
            },
        };
        let ghost vv = valued@;
        assert(valued_all(n, vv, pv, now));
        let kept = filter_lines(valued, all);
        let total = match total_amount(&kept) {
            Some(t) => t,
            None => {
                assert(port_overflows(*self, now, all, sv, tv, lv, n, pv));
                return Err(StoreError::Overflow);
            },
        };
        let ghost kv = kept@;
        let out = match set_weights(kept, total) {
            Ok(v) => v,
            Err(e) => {
                assert(port_overflows(*self, now, all, sv, tv, lv, n, pv));
                return Err(e);
            },
        };
        assert(port_from(*self, now, all, sv, tv, lv, n, pv, vv, out@));
        Ok(out)
    }

    /// The portfolio view now: every position with `all`, else the open
    /// ones.
    pub fn port(&self, all: bool) -> (r: Result<Vec<PortLine>, StoreError>)
        ensures
            exists|now: i64| #[trigger] port_outcome(*self, now, all, r),
    {
        let now = now_secs();
        self.port_at(all, now)
    }

    /// The value of the open positions, summed.
    pub fn total(&self) -> (r: Result<i128, StoreError>)
        ensures
            exists|now: i64| #[trigger] total_outcome(*self, now, r),
    {
        let now = now_secs();
        let lines = match self.port_at(false, now) {
            Ok(v) => v,
            Err(e) => {
                let r: Result<i128, StoreError> = Err(e);
                assert(total_outcome(*self, now, r));
                return r;
            },
        };
        let r = match total_amount(&lines) {
            Some(t) => Ok(t),
            None => Err(StoreError::Overflow),
        };
        assert(total_outcome(*self, now, r));
        r
    }

    /// The open positions grouped along one dimension, each group with its
    /// summed amount and its share of the total.
    pub fn report(&self, report_type: ReportType) -> (r: Result<Vec<ReportLine>, StoreError>)
        ensures
            exists|now: i64| #[trigger] report_outcome(*self, now, report_type, r),
    {
        let now = now_secs();
        let r = self.report_at(report_type, now);
        assert(report_outcome(*self, now, report_type, r));
        r
    }

    fn report_at(&self, report_type: ReportType, now: i64) -> (r: Result<Vec<ReportLine>, StoreError>)
        ensures
            report_outcome(*self, now, report_type, r),
    {
        let lines = match self.port_at(false, now) {
            Ok(v) => v,
            Err(e) => return Err(e),
        };
        let total = match total_amount(&lines) {
            Some(t) => t,
            None => return Err(StoreError::Overflow),
        };
        let groups = match group_lines(&lines, report_type) {
            Some(g) => g,
            None => return Err(StoreError::Overflow),
        };
        let ghost gv = groups@;
        match set_group_weights(groups, total) {
            Some(v) => {
                assert(is_grouping(lines@, gv, report_type));
                assert(report_rows(lines@, gv, report_type, v@));
                assert(port_spec(*self, now, false, lines@));
                assert(report_ok(*self, now, report_type, v@));
                let r: Result<Vec<ReportLine>, StoreError> = Ok(v);
                assert(report_outcome(*self, now, report_type, r));
                r
            },
            None => {
                proof {
                    let k = choose|k: int|
                        0 <= k < gv.len() && (#[trigger] weight(gv[k].amount_usd as int, total as int)) is None;
                    assert(is_grouping(lines@, gv, report_type) && 0 <= k < gv.len() && weight(
                        gv[k].amount_usd as int,
                        sum_amounts(lines@),
                    ) is None);
                }
                let r: Result<Vec<ReportLine>, StoreError> = Err(StoreError::Overflow);
                assert(report_outcome(*self, now, report_type, r));
                r
            },
        }
    }

    /// The trades whose instrument name contains the search text, letter
    /// case aside; all of them without one.
    pub fn trades(&self, name_substring: Option<String>) -> (r: Result<Vec<Trade>, StoreError>)
        ensures
            match r {
                Ok(v) => exists|tv: Seq<Trade>|
                    #[trigger] trades_loaded(self.trades_text@, tv) && v@ == trades_named(tv, query_of(name_substring)),
                Err(e) => trades_failed(self.trades_text@, e@),
            },
    {
        let q = query(&name_substring);
        let trades = match load_trades(self.trades_text.as_str()) {
            Ok(v) => v,
            Err(e) => return Err(e),
        };
        let ghost tv = trades@;
        let mut rest = trades;
        let mut out: Vec<Trade> = Vec::new();
        let ghost mut i: int = 0;
        proof {
            assert(tv.take(0) =~= Seq::<Trade>::empty());
            assert(rest@ =~= tv.skip(0));
        }
        while rest.len() > 0
            invariant
                0 <= i <= tv.len(),
                i + rest@.len() == tv.len(),
                rest@ =~= tv.skip(i),
                out@ == trades_named(tv.take(i), q@),
                trades_loaded(self.trades_text@, tv),
                q@ == query_of(name_substring),
            decreases rest@.len(),
        {
            let t = rest.remove(0);
            proof {
                assert(tv.take(i + 1).drop_last() =~= tv.take(i));
                assert(t == tv[i]);
            }
            let name = lowercase(t.stock.as_str());
            if contains(name.as_str(), q.as_str()) {
                out.push(t);
            }
            proof {
                i = i + 1;
            }
            assert(rest@ =~= tv.skip(i));
        }
        proof {
            assert(tv.take(i) =~= tv);
        }
        Ok(out)
    }

    /// The instruments whose name contains the search text, letter case
    /// aside, as empty positions; all of them without one.
    pub fn stocks(&self, name_substring: Option<String>) -> (r: Result<Vec<PortLine>, StoreError>)
        ensures
            match r {
                Ok(v) => exists|sv: Seq<Stocks>, lines: Seq<PortLine>|
                    #[trigger] stocks_loaded(self.stocks_text@, sv) && #[trigger] fresh_for(sv, lines) && v@
                        == lines_named(lines, query_of(name_substring)),
                Err(e) => stocks_failed(self.stocks_text@, e@),
            },
    {
        let q = query(&name_substring);
        let stocks = match load_stocks(self.stocks_text.as_str()) {
            Ok(v) => v,
            Err(e) => return Err(e),
        };
        let ghost sv = stocks@;
        let lines = fresh_lines(&stocks);
        let ghost lv = lines@;
        let mut rest = lines;
        let mut out: Vec<PortLine> = Vec::new();
        let ghost mut i: int = 0;
        proof {
            assert(lv.take(0) =~= Seq::<PortLine>::empty());
            assert(rest@ =~= lv.skip(0));
        }
        while rest.len() > 0
            invariant
                0 <= i <= lv.len(),
                i + rest@.len() == lv.len(),
                rest@ =~= lv.skip(i),
                out@ == lines_named(lv.take(i), q@),
                stocks_loaded(self.stocks_text@, sv),
                fresh_for(sv, lv),
                q@ == query_of(name_substring),
            decreases rest@.len(),
        {
            let l = rest.remove(0);
            proof {
                assert(lv.take(i + 1).drop_last() =~= lv.take(i));
                assert(l == lv[i]);
            }
            let name = lowercase(l.name.as_str());
            if contains(name.as_str(), q.as_str()) {
                out.push(l);
            }
            proof {
                i = i + 1;
            }
            assert(rest@ =~= lv.skip(i));
        }
        proof {
            assert(lv.take(i) =~= lv);
        }
        Ok(out)
    }
}

} // verus!
