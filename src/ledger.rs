use vstd::prelude::*;

use crate::dates::{day_start, day_start_secs, ledger_format, parse_day, parsed_day, snapshot_format};
use crate::decimal::{parse_fixed, spec_parse_fixed};
use crate::model::{Fault, PriceLine, Stocks, StoreError, Table, Trade, TradeType};
use crate::position::{opt_view, stock_names_unique};
use crate::text::{eq_ascii_ci, str_eq_ascii_ci};
use crate::tsv::{read_tsv, strs_view, tsv_records};

verus! {

/// `i` is the first column of a header named `name`, letter case aside.
pub open spec fn is_first_col(header: Seq<Seq<char>>, name: Seq<char>, i: int) -> bool {
    &&& 0 <= i < header.len()
    &&& eq_ascii_ci(header[i], name)
    &&& forall|j: int| 0 <= j < i ==> !eq_ascii_ci(#[trigger] header[j], name)
}

/// The column of a header named `name`, letter case aside; the first one
/// where several are.
pub open spec fn col_index(header: Seq<Seq<char>>, name: Seq<char>) -> Option<usize> {
    if exists|i: int| is_first_col(header, name, i) {
        Some((choose|i: int| is_first_col(header, name, i)) as usize)
    } else {
        None
    }
}

/// The field of a row in column `c`, if the row reaches it.
pub open spec fn field(row: Seq<Seq<char>>, c: usize) -> Option<Seq<char>> {
    if c < row.len() {
        Some(row[c as int])
    } else {
        None
    }
}

/// An optional field: absent where the column or the row lacks it, or it is
/// empty.
pub open spec fn opt_field(row: Seq<Seq<char>>, c: Option<usize>) -> Option<Seq<char>> {
    match c {
        Some(k) => match field(row, k) {
            Some(f) => if f.len() > 0 {
                Some(f)
            } else {
                None
            },
            None => None,
        },
        None => None,
    }
}

/// An optional number is readable where present.
pub open spec fn opt_num_ok(row: Seq<Seq<char>>, c: Option<usize>) -> bool {
    match opt_field(row, c) {
        Some(f) => spec_parse_fixed(f) is Some,
        None => true,
    }
}

/// The value of an optional number.
pub open spec fn opt_num(row: Seq<Seq<char>>, c: Option<usize>) -> Option<i128> {
    match opt_field(row, c) {
        Some(f) => Some(spec_parse_fixed(f)->Some_0 as i128),
        None => None,
    }
}

/// The value of a required number.
pub open spec fn num(row: Seq<Seq<char>>, c: usize) -> i128 {
    spec_parse_fixed(row[c as int])->Some_0 as i128
}

pub open spec fn num_ok(row: Seq<Seq<char>>, c: usize) -> bool {
    c < row.len() && spec_parse_fixed(row[c as int]) is Some
}

fn find_col(header: &Vec<String>, name: &str) -> (r: Option<usize>)
    ensures
        r == col_index(strs_view(header@), name@),
{
    let ghost h = strs_view(header@);
    let mut i: usize = 0;
    while i < header.len()
        invariant
            i <= header@.len(),
            h == strs_view(header@),
            forall|j: int| 0 <= j < i ==> !eq_ascii_ci(#[trigger] h[j], name@),
        decreases header@.len() - i,
    {
        if str_eq_ascii_ci(header[i].as_str(), name) {
            proof {
                assert(is_first_col(h, name@, i as int));
                assert forall|j: int| is_first_col(h, name@, j) implies j == i by {
                    if j < i {
                    } else if j > i {
                        assert(!eq_ascii_ci(h[i as int], name@));
                    }
                }
            }
            return Some(i);
        }
        i = i + 1;
    }
    None
}

fn field_text(row: &Vec<String>, c: usize) -> (r: Option<&String>)
    ensures
        match field(strs_view(row@), c) {
            Some(f) => r is Some && r->Some_0@ == f,
            None => r is None,
        },
{
    if c < row.len() {
        Some(&row[c])
    } else {
        None
    }
}

fn opt_text(row: &Vec<String>, c: Option<usize>) -> (r: Option<String>)
    ensures
        opt_view(r) == opt_field(strs_view(row@), c),
{
    match c {
        Some(k) => match field_text(row, k) {
            Some(f) => if f.unicode_len() > 0 {
                Some(f.clone())
            } else {
                None
            },
            None => None,
        },
        None => None,
    }
}

fn opt_number(row: &Vec<String>, c: Option<usize>) -> (r: Option<Option<i128>>)
    ensures
        match r {
            Some(v) => opt_num_ok(strs_view(row@), c) && v == opt_num(strs_view(row@), c),
            None => !opt_num_ok(strs_view(row@), c),
        },
{
    match opt_text(row, c) {
        Some(f) => match parse_fixed(f.as_str()) {
            Some(v) => Some(Some(v)),
            None => None,
        },
        None => Some(None),
    }
}

fn number(row: &Vec<String>, c: usize) -> (r: Option<i128>)
    ensures
        match r {
            Some(v) => num_ok(strs_view(row@), c) && v == num(strs_view(row@), c),
            None => !num_ok(strs_view(row@), c),
        },
{
    match field_text(row, c) {
        Some(f) => parse_fixed(f.as_str()),
        None => None,
    }
}

pub open spec fn stock_col_name() -> Seq<char> {
    seq!['N', 'a', 'm', 'e']
}

pub open spec fn stock_col_asset() -> Seq<char> {
    seq!['A', 's', 's', 'e', 't']
}

pub open spec fn stock_col_group() -> Seq<char> {
    seq!['G', 'r', 'o', 'u', 'p']
}

pub open spec fn stock_col_tags() -> Seq<char> {
    seq!['T', 'a', 'g', 's']
}

pub open spec fn stock_col_riskyness() -> Seq<char> {
    seq!['R', 'i', 's', 'k', 'y', 'n', 'e', 's', 's']
}

pub open spec fn stock_col_ticker() -> Seq<char> {
    seq!['T', 'i', 'c', 'k', 'e', 'r']
}

pub open spec fn stock_col_traded() -> Seq<char> {
    seq!['T', 'r', 'a', 'd', 'e', 'd', 'C', 'u', 'r', 'r', 'e', 'n', 'c', 'y']
}

pub open spec fn stock_col_underlying() -> Seq<char> {
    seq!['C', 'u', 'r', 'r', 'e', 'n', 'c', 'y', 'U', 'n', 'd', 'e', 'r', 'l', 'y', 'i', 'n', 'g']
}

/// Where the columns of the stock table stand.
pub struct StockCols {
    pub name: usize,
    pub asset: usize,
    pub group: usize,
    pub tags: usize,
    pub riskyness: usize,
    pub ticker: Option<usize>,
    pub traded: usize,
    pub underlying: usize,
}

/// The columns of the stock table in a header; `None` where a required one
/// is missing.
pub open spec fn stock_cols(h: Seq<Seq<char>>) -> Option<StockCols> {
    if col_index(h, stock_col_name()) is Some && col_index(h, stock_col_asset()) is Some && col_index(h, stock_col_group()) is Some && col_index(h, stock_col_tags()) is Some && col_index(h, stock_col_riskyness()) is Some && col_index(h, stock_col_traded()) is Some && col_index(h, stock_col_underlying()) is Some {
        Some(StockCols {
            name: col_index(h, stock_col_name())->Some_0,
            asset: col_index(h, stock_col_asset())->Some_0,
            group: col_index(h, stock_col_group())->Some_0,
            tags: col_index(h, stock_col_tags())->Some_0,
            riskyness: col_index(h, stock_col_riskyness())->Some_0,
            ticker: col_index(h, stock_col_ticker()),
            traded: col_index(h, stock_col_traded())->Some_0,
            underlying: col_index(h, stock_col_underlying())->Some_0,
        })
    } else {
        None
    }
}

fn stock_columns(header: &Vec<String>) -> (r: Option<StockCols>)
    ensures
        r == stock_cols(strs_view(header@)),
{
    proof {
        reveal_strlit("Name");
        assert("Name"@ =~= stock_col_name());
        reveal_strlit("Asset");
        assert("Asset"@ =~= stock_col_asset());
        reveal_strlit("Group");
        assert("Group"@ =~= stock_col_group());
        reveal_strlit("Tags");
        assert("Tags"@ =~= stock_col_tags());
        reveal_strlit("Riskyness");
        assert("Riskyness"@ =~= stock_col_riskyness());
        reveal_strlit("Ticker");
        assert("Ticker"@ =~= stock_col_ticker());
        reveal_strlit("TradedCurrency");
        assert("TradedCurrency"@ =~= stock_col_traded());
        reveal_strlit("CurrencyUnderlying");
        assert("CurrencyUnderlying"@ =~= stock_col_underlying());
    }
    let name = match find_col(header, "Name") {
        Some(k) => k,
        None => return None,
    };
    let asset = match find_col(header, "Asset") {
        Some(k) => k,
        None => return None,
    };
    let group = match find_col(header, "Group") {
        Some(k) => k,
        None => return None,
    };
    let tags = match find_col(header, "Tags") {
        Some(k) => k,
        None => return None,
    };
    let riskyness = match find_col(header, "Riskyness") {
        Some(k) => k,
        None => return None,
    };
    let ticker = find_col(header, "Ticker");
    let traded = match find_col(header, "TradedCurrency") {
        Some(k) => k,
        None => return None,
    };
    let underlying = match find_col(header, "CurrencyUnderlying") {
        Some(k) => k,
        None => return None,
    };
    Some(StockCols { name, asset, group, tags, riskyness, ticker, traded, underlying })
}

pub open spec fn trade_col_account() -> Seq<char> {
    seq!['A', 'c', 'c', 'o', 'u', 'n', 't']
}

pub open spec fn trade_col_date() -> Seq<char> {
    seq!['D', 'a', 't', 'e']
}

pub open spec fn trade_col_kind() -> Seq<char> {
    seq!['T', 'y', 'p', 'e']
}

pub open spec fn trade_col_stock() -> Seq<char> {
    seq!['S', 't', 'o', 'c', 'k']
}

pub open spec fn trade_col_units() -> Seq<char> {
    seq!['U', 'n', 'i', 't', 's']
}

pub open spec fn trade_col_price() -> Seq<char> {
    seq!['P', 'r', 'i', 'c', 'e']
}

pub open spec fn trade_col_fees() -> Seq<char> {
    seq!['F', 'e', 'e', 's']
}

pub open spec fn trade_col_split() -> Seq<char> {
    seq!['S', 'p', 'l', 'i', 't']
}

pub open spec fn trade_col_currency() -> Seq<char> {
    seq!['C', 'u', 'r', 'r', 'e', 'n', 'c', 'y']
}

/// Where the columns of the trade table stand.
pub struct TradeCols {
    pub account: usize,
    pub date: usize,
    pub kind: usize,
    pub stock: usize,
    pub units: usize,
    pub price: Option<usize>,
    pub fees: Option<usize>,
    pub split: usize,
    pub currency: usize,
}

/// The columns of the trade table in a header; `None` where a required one
/// is missing.
pub open spec fn trade_cols(h: Seq<Seq<char>>) -> Option<TradeCols> {
    if col_index(h, trade_col_account()) is Some && col_index(h, trade_col_date()) is Some && col_index(h, trade_col_kind()) is Some && col_index(h, trade_col_stock()) is Some && col_index(h, trade_col_units()) is Some && col_index(h, trade_col_split()) is Some && col_index(h, trade_col_currency()) is Some {
        Some(TradeCols {
            account: col_index(h, trade_col_account())->Some_0,
            date: col_index(h, trade_col_date())->Some_0,
            kind: col_index(h, trade_col_kind())->Some_0,
            stock: col_index(h, trade_col_stock())->Some_0,
            units: col_index(h, trade_col_units())->Some_0,
            price: col_index(h, trade_col_price()),
            fees: col_index(h, trade_col_fees()),
            split: col_index(h, trade_col_split())->Some_0,
            currency: col_index(h, trade_col_currency())->Some_0,
        })
    } else {
        None
    }
}

fn trade_columns(header: &Vec<String>) -> (r: Option<TradeCols>)
    ensures
        r == trade_cols(strs_view(header@)),
{
    proof {
        reveal_strlit("Account");
        assert("Account"@ =~= trade_col_account());
        reveal_strlit("Date");
        assert("Date"@ =~= trade_col_date());
        reveal_strlit("Type");
        assert("Type"@ =~= trade_col_kind());
        reveal_strlit("Stock");
        assert("Stock"@ =~= trade_col_stock());
        reveal_strlit("Units");
        assert("Units"@ =~= trade_col_units());
        reveal_strlit("Price");
        assert("Price"@ =~= trade_col_price());
        reveal_strlit("Fees");
        assert("Fees"@ =~= trade_col_fees());
        reveal_strlit("Split");
        assert("Split"@ =~= trade_col_split());
        reveal_strlit("Currency");
        assert("Currency"@ =~= trade_col_currency());
    }
    let account = match find_col(header, "Account") {
        Some(k) => k,
        None => return None,
    };
    let date = match find_col(header, "Date") {
        Some(k) => k,
        None => return None,
    };
    let kind = match find_col(header, "Type") {
        Some(k) => k,
        None => return None,
    };
    let stock = match find_col(header, "Stock") {
        Some(k) => k,
        None => return None,
    };
    let units = match find_col(header, "Units") {
        Some(k) => k,
        None => return None,
    };
    let price = find_col(header, "Price");
    let fees = find_col(header, "Fees");
    let split = match find_col(header, "Split") {
        Some(k) => k,
        None => return None,
    };
    let currency = match find_col(header, "Currency") {
        Some(k) => k,
        None => return None,
    };
    Some(TradeCols { account, date, kind, stock, units, price, fees, split, currency })
}

pub open spec fn price_col_ticker() -> Seq<char> {
    seq!['t', 'i', 'c', 'k', 'e', 'r']
}

pub open spec fn price_col_price() -> Seq<char> {
    seq!['p', 'r', 'i', 'c', 'e']
}

pub open spec fn price_col_date() -> Seq<char> {
    seq!['d', 'a', 't', 'e']
}

/// Where the columns of the price table stand.
pub struct PriceCols {
    pub ticker: usize,
    pub price: usize,
    pub date: usize,
}

/// The columns of the price table in a header; `None` where a required one
/// is missing.
pub open spec fn price_cols(h: Seq<Seq<char>>) -> Option<PriceCols> {
    if col_index(h, price_col_ticker()) is Some && col_index(h, price_col_price()) is Some && col_index(h, price_col_date()) is Some {
        Some(PriceCols {
            ticker: col_index(h, price_col_ticker())->Some_0,
            price: col_index(h, price_col_price())->Some_0,
            date: col_index(h, price_col_date())->Some_0,
        })
    } else {
        None
    }
}

fn price_columns(header: &Vec<String>) -> (r: Option<PriceCols>)
    ensures
        r == price_cols(strs_view(header@)),
{
    proof {
        reveal_strlit("ticker");
        assert("ticker"@ =~= price_col_ticker());
        reveal_strlit("price");
        assert("price"@ =~= price_col_price());
        reveal_strlit("date");
        assert("date"@ =~= price_col_date());
    }
    let ticker = match find_col(header, "ticker") {
        Some(k) => k,
        None => return None,
    };
    let price = match find_col(header, "price") {
        Some(k) => k,
        None => return None,
    };
    let date = match find_col(header, "date") {
        Some(k) => k,
        None => return None,
    };
    Some(PriceCols { ticker, price, date })
}

/// A registry row holds every required field.
pub open spec fn stock_row_ok(row: Seq<Seq<char>>, c: StockCols) -> bool {
    &&& c.name < row.len()
    &&& c.asset < row.len()
    &&& c.group < row.len()
    &&& c.tags < row.len()
    &&& c.riskyness < row.len()
    &&& c.traded < row.len()
    &&& c.underlying < row.len()
}

/// `s` is the instrument a registry row describes.
pub open spec fn stock_from_row(s: Stocks, row: Seq<Seq<char>>, c: StockCols) -> bool {
    &&& s.name@ == row[c.name as int]
    &&& s.asset@ == row[c.asset as int]
    &&& s.group@ == row[c.group as int]
    &&& s.tags@ == row[c.tags as int]
    &&& s.riskyness@ == row[c.riskyness as int]
    &&& opt_view(s.ticker) == opt_field(row, c.ticker)
    &&& s.tradedcurrency@ == row[c.traded as int]
    &&& s.currencyunderlying@ == row[c.underlying as int]
}

/// A ledger row holds every required field, each readable as its type:
/// a `YYYY/MM/DD` date, a known kind, numbers.
pub open spec fn trade_row_ok(row: Seq<Seq<char>>, c: TradeCols) -> bool {
    &&& c.account < row.len()
    &&& c.date < row.len()
    &&& parsed_day(row[c.date as int], ledger_format()) is Some
    &&& c.kind < row.len()
    &&& TradeType::spec_parse(row[c.kind as int]) is Some
    &&& c.stock < row.len()
    &&& num_ok(row, c.units)
    &&& opt_num_ok(row, c.price)
    &&& opt_num_ok(row, c.fees)
    &&& num_ok(row, c.split)
    &&& num_ok(row, c.currency)
}

/// `t` is the trade a ledger row describes; its date is midnight UTC.
pub open spec fn trade_from_row(t: Trade, row: Seq<Seq<char>>, c: TradeCols) -> bool {
    &&& t.account@ == row[c.account as int]
    &&& t.date == day_start(parsed_day(row[c.date as int], ledger_format())->Some_0)
    &&& t.kind == TradeType::spec_parse(row[c.kind as int])->Some_0
    &&& t.stock@ == row[c.stock as int]
    &&& t.units == num(row, c.units)
    &&& t.price == opt_num(row, c.price)
    &&& t.fees == opt_num(row, c.fees)
    &&& t.split == num(row, c.split)
    &&& t.currency == num(row, c.currency)
}

/// A snapshot row holds a symbol, a price and a `DD/MM/YYYY` date.
pub open spec fn price_row_ok(row: Seq<Seq<char>>, c: PriceCols) -> bool {
    &&& c.ticker < row.len()
    &&& num_ok(row, c.price)
    &&& c.date < row.len()
    &&& parsed_day(row[c.date as int], snapshot_format()) is Some
}

/// `p` is the quote a snapshot row describes; its date is midnight UTC.
pub open spec fn price_from_row(p: PriceLine, row: Seq<Seq<char>>, c: PriceCols) -> bool {
    &&& p.ticker@ == row[c.ticker as int]
    &&& p.price == num(row, c.price)
    &&& p.date == day_start(parsed_day(row[c.date as int], snapshot_format())->Some_0)
}

fn decode_stock(row: &Vec<String>, c: &StockCols) -> (r: Option<Stocks>)
    ensures
        match r {
            Some(s) => stock_row_ok(strs_view(row@), *c) && stock_from_row(s, strs_view(row@), *c),
            None => !stock_row_ok(strs_view(row@), *c),
        },
{
    let n = row.len();
    if c.name >= n || c.asset >= n || c.group >= n || c.tags >= n || c.riskyness >= n || c.traded
        >= n || c.underlying >= n {
        return None;
    }
    Some(
        Stocks {
            name: row[c.name].clone(),
            asset: row[c.asset].clone(),
            group: row[c.group].clone(),
            tags: row[c.tags].clone(),
            riskyness: row[c.riskyness].clone(),
            ticker: opt_text(row, c.ticker),
            tradedcurrency: row[c.traded].clone(),
            currencyunderlying: row[c.underlying].clone(),
        },
    )
}

fn decode_trade(row: &Vec<String>, c: &TradeCols) -> (r: Option<Trade>)
    ensures
        match r {
            Some(t) => trade_row_ok(strs_view(row@), *c) && trade_from_row(t, strs_view(row@), *c),
            None => !trade_row_ok(strs_view(row@), *c),
        },
{
    proof {
        reveal_strlit("%Y/%m/%d");
        assert("%Y/%m/%d"@ =~= ledger_format());
    }
    let n = row.len();
    if c.account >= n || c.date >= n || c.kind >= n || c.stock >= n {
        return None;
    }
    let day = match parse_day(row[c.date].as_str(), "%Y/%m/%d") {
        Some(d) => d,
        None => return None,
    };
    let kind = match TradeType::parse(row[c.kind].as_str()) {
        Some(k) => k,
        None => return None,
    };
    let units = match number(row, c.units) {
        Some(v) => v,
        None => return None,
    };
    let price = match opt_number(row, c.price) {
        Some(v) => v,
        None => return None,
    };
    let fees = match opt_number(row, c.fees) {
        Some(v) => v,
        None => return None,
    };
    let split = match number(row, c.split) {
        Some(v) => v,
        None => return None,
    };
    let currency = match number(row, c.currency) {
        Some(v) => v,
        None => return None,
    };
    Some(
        Trade {
            account: row[c.account].clone(),
            date: day_start_secs(day),
            kind,
            stock: row[c.stock].clone(),
            units,
            price,
            fees,
            split,
            currency,
        },
    )
}

fn decode_price(row: &Vec<String>, c: &PriceCols) -> (r: Option<PriceLine>)
    ensures
        match r {
            Some(p) => price_row_ok(strs_view(row@), *c) && price_from_row(p, strs_view(row@), *c),
            None => !price_row_ok(strs_view(row@), *c),
        },
{
    proof {
        reveal_strlit("%d/%m/%Y");
        assert("%d/%m/%Y"@ =~= snapshot_format());
    }
    let n = row.len();
    if c.ticker >= n || c.date >= n {
        return None;
    }
    let price = match number(row, c.price) {
        Some(v) => v,
        None => return None,
    };
    let day = match parse_day(row[c.date].as_str(), "%d/%m/%Y") {
        Some(d) => d,
        None => return None,
    };
    Some(PriceLine { ticker: row[c.ticker].clone(), price, date: day_start_secs(day) })
}

/// `j` is the last row before row `i` that names its instrument.
pub open spec fn last_named(rows: Seq<Seq<Seq<char>>>, c: StockCols, j: int, i: int) -> bool {
    forall|k: int| j < k < i ==> (#[trigger] rows[k])[c.name as int] != rows[j][c.name as int]
}

/// `s` is the instrument described by the last row before row `i` that names it.
pub open spec fn from_last_row(rows: Seq<Seq<Seq<char>>>, c: StockCols, s: Stocks, i: int) -> bool {
    exists|j: int| 1 <= j < i && last_named(rows, c, j, i) && #[trigger] stock_from_row(s, rows[j], c)
}

/// Some instrument of `v` has the name `name`.
pub open spec fn name_listed(v: Seq<Stocks>, name: Seq<char>) -> bool {
    exists|g: int| 0 <= g < v.len() && (#[trigger] v[g]).name@ == name
}

/// `v` holds the registry rows before row `i` by name: one instrument per
/// name, each as the last row naming it describes it.
pub open spec fn registry_upto(rows: Seq<Seq<Seq<char>>>, c: StockCols, v: Seq<Stocks>, i: int) -> bool {
    &&& stock_names_unique(v)
    &&& forall|g: int| 0 <= g < v.len() ==> #[trigger] from_last_row(rows, c, v[g], i)
    &&& forall|j: int| 1 <= j < i ==> #[trigger] name_listed(v, rows[j][c.name as int])
}

/// `v` is what the registry text holds: one instrument per name among the
/// rows after the header, as the last row of that name describes it (a
/// later row of a name replaces an earlier one). A text with no row after
/// its header holds none.
pub open spec fn stocks_loaded(text: Seq<char>, v: Seq<Stocks>) -> bool {
    match tsv_records(text) {
        None => false,
        Some(rows) => if rows.len() <= 1 {
            v.len() == 0
        } else {
            match stock_cols(rows[0]) {
                None => false,
                Some(c) => {
                    &&& forall|j: int| 1 <= j < rows.len() ==> #[trigger] stock_row_ok(rows[j], c)
                    &&& registry_upto(rows, c, v, rows.len() as int)
                }
            }
        },
    }
}

/// `f` is the error the registry text gives: csv fails on it; or it has rows
/// and its header lacks a required column; or `k` is the first row that
/// cannot be read.
pub open spec fn stocks_failed(text: Seq<char>, f: Fault) -> bool {
    match tsv_records(text) {
        None => f == Fault::NotTabular(Table::Stocks),
        Some(rows) => rows.len() > 1 && match stock_cols(rows[0]) {
            None => f == Fault::MissingColumn(Table::Stocks),
            Some(c) => match f {
                Fault::BadRow(tb, k) => tb == Table::Stocks && k + 1 < rows.len() && !stock_row_ok(
                    rows[k + 1 as int],
                    c,
                ) && forall|j: int| 1 <= j <= k as int ==> #[trigger] stock_row_ok(rows[j], c),
                _ => false,
            },
        },
    }
}

proof fn lemma_registry_replace(
    rows: Seq<Seq<Seq<char>>>,
    c: StockCols,
    v: Seq<Stocks>,
    i: int,
    g0: int,
    x: Stocks,
)
    requires
        registry_upto(rows, c, v, i),
        1 <= i < rows.len(),
        stock_from_row(x, rows[i], c),
        0 <= g0 < v.len(),
        v[g0].name@ == rows[i][c.name as int],
    ensures
        registry_upto(rows, c, v.update(g0, x), i + 1),
{
    let v2 = v.update(g0, x);
    assert forall|a: int, b: int|
        0 <= a < v2.len() && 0 <= b < v2.len() && a != b implies (#[trigger] v2[a]).name@
            != (#[trigger] v2[b]).name@ by {
        assert(v2[a].name@ == v[a].name@);
        assert(v2[b].name@ == v[b].name@);
    }
    assert forall|g: int| 0 <= g < v2.len() implies #[trigger] from_last_row(rows, c, v2[g], i + 1) by {
        if g == g0 {
            assert(last_named(rows, c, i, i + 1));
            assert(stock_from_row(v2[g], rows[i], c));
        } else {
            assert(from_last_row(rows, c, v[g], i));
            let j = choose|j: int| 1 <= j < i && last_named(rows, c, j, i) && #[trigger] stock_from_row(v[g], rows[j], c);
            assert(v[g].name@ != v[g0].name@);
            assert(last_named(rows, c, j, i + 1));
            assert(stock_from_row(v2[g], rows[j], c));
        }
    }
    assert forall|j: int| 1 <= j < i + 1 implies #[trigger] name_listed(v2, rows[j][c.name as int]) by {
        if j == i {
            assert(v2[g0].name@ == rows[j][c.name as int]);
        } else {
            assert(name_listed(v, rows[j][c.name as int]));
            let g = choose|g: int| 0 <= g < v.len() && (#[trigger] v[g]).name@ == rows[j][c.name as int];
            assert(v2[g].name@ == v[g].name@);
        }
    }
}

proof fn lemma_registry_add(rows: Seq<Seq<Seq<char>>>, c: StockCols, v: Seq<Stocks>, i: int, x: Stocks)
    requires
        registry_upto(rows, c, v, i),
        1 <= i < rows.len(),
        stock_from_row(x, rows[i], c),
        forall|g: int| 0 <= g < v.len() ==> (#[trigger] v[g]).name@ != rows[i][c.name as int],
    ensures
        registry_upto(rows, c, v.push(x), i + 1),
{
    let v2 = v.push(x);
    assert forall|a: int, b: int|
        0 <= a < v2.len() && 0 <= b < v2.len() && a != b implies (#[trigger] v2[a]).name@
            != (#[trigger] v2[b]).name@ by {
        if a < v.len() {
            assert(v2[a] == v[a]);
        }
        if b < v.len() {
            assert(v2[b] == v[b]);
        }
    }
    assert forall|g: int| 0 <= g < v2.len() implies #[trigger] from_last_row(rows, c, v2[g], i + 1) by {
        if g == v.len() {
            assert(last_named(rows, c, i, i + 1));
            assert(stock_from_row(v2[g], rows[i], c));
        } else {
            assert(v2[g] == v[g]);
            assert(from_last_row(rows, c, v[g], i));
            let j = choose|j: int| 1 <= j < i && last_named(rows, c, j, i) && #[trigger] stock_from_row(v[g], rows[j], c);
            assert(last_named(rows, c, j, i + 1));
        }
    }
    assert forall|j: int| 1 <= j < i + 1 implies #[trigger] name_listed(v2, rows[j][c.name as int]) by {
        if j == i {
            assert(v2[v.len() as int] == x);
        } else {
            assert(name_listed(v, rows[j][c.name as int]));
            let g = choose|g: int| 0 <= g < v.len() && (#[trigger] v[g]).name@ == rows[j][c.name as int];
            assert(v2[g] == v[g]);
        }
    }
}

/// Place of the instrument named `name`, if any.
fn find_stock(v: &Vec<Stocks>, name: &String) -> (r: Option<usize>)
    ensures
        match r {
            Some(g) => g < v@.len() && v@[g as int].name@ == name@,
            None => forall|g: int| 0 <= g < v@.len() ==> (#[trigger] v@[g]).name@ != name@,
        },
{
    let mut g: usize = 0;
    while g < v.len()
        invariant
            g <= v@.len(),
            forall|h: int| 0 <= h < g ==> (#[trigger] v@[h]).name@ != name@,
        decreases v@.len() - g,
    {
        if v[g].name == *name {
            return Some(g);
        }
        g = g + 1;
    }
    None
}

/// Reads the registry table; a later row of a name replaces an earlier one.
pub fn load_stocks(text: &str) -> (r: Result<Vec<Stocks>, StoreError>)
    ensures
        match r {
            Ok(v) => stocks_loaded(text@, v@),
            Err(e) => stocks_failed(text@, e@),
        },
{
    let rows = match read_tsv(text) {
        Ok(rows) => rows,
        Err(_) => return Err(StoreError::NotTabular { table: Table::Stocks }),
    };
    if rows.len() <= 1 {
        return Ok(Vec::new());
    }
    let ghost rv = tsv_records(text@)->Some_0;
    proof {
        assert forall|j: int| 0 <= j < rows@.len() implies #[trigger] rv[j] == strs_view(rows@[j]@) by {
            assert(rv == crate::tsv::rows_view(rows@));
        }
    }
    let c = match stock_columns(&rows[0]) {
        Some(c) => c,
        None => return Err(StoreError::MissingColumn { table: Table::Stocks }),
    };
    let mut out: Vec<Stocks> = Vec::new();
    let mut i: usize = 1;
    while i < rows.len()
        invariant
            1 <= i <= rows@.len(),
            tsv_records(text@) == Some(rv),
            rv.len() == rows@.len(),
            rows@.len() > 1,
            Some(c) == stock_cols(rv[0]),
            forall|j: int| 0 <= j < rows@.len() ==> #[trigger] rv[j] == strs_view(rows@[j]@),
            forall|j: int| 1 <= j < i ==> #[trigger] stock_row_ok(rv[j], c),
            registry_upto(rv, c, out@, i as int),
        decreases rows@.len() - i,
    {
        assert(rv[i as int] == strs_view(rows@[i as int]@));
        let x = match decode_stock(&rows[i], &c) {
            Some(x) => x,
            None => return Err(StoreError::BadRow { table: Table::Stocks, row: i - 1 }),
        };
        let ghost before = out@;
        match find_stock(&out, &x.name) {
            Some(g) => {
                out.remove(g);
                out.insert(g, x);
                proof {
                    assert(out@ =~= before.update(g as int, x));
                    lemma_registry_replace(rv, c, before, i as int, g as int, x);
                }
            },
            None => {
                out.push(x);
                proof {
                    lemma_registry_add(rv, c, before, i as int, x);
                }
            },
        }
        i = i + 1;
    }
    Ok(out)
}

/// `v` is what the ledger text holds: one trade per row after the header,
/// in order. A text with no row after its header holds none.
pub open spec fn trades_loaded(text: Seq<char>, v: Seq<Trade>) -> bool {
    match tsv_records(text) {
        None => false,
        Some(rows) => if rows.len() <= 1 {
            v.len() == 0
        } else {
            match trade_cols(rows[0]) {
                None => false,
                Some(c) => {
                    &&& v.len() == rows.len() - 1
                    &&& forall|k: int|
                        0 <= k < v.len() ==> trade_row_ok(rows[k + 1], c) && trade_from_row(
                            #[trigger] v[k],
                            rows[k + 1],
                            c,
                        )
                    
                }
            }
        },
    }
}

/// `f` is the error the ledger text gives: csv fails on it; or it has rows
/// and its header lacks a required column; or `k` is the first row that
/// cannot be read.
pub open spec fn trades_failed(text: Seq<char>, f: Fault) -> bool {
    match tsv_records(text) {
        None => f == Fault::NotTabular(Table::Trades),
        Some(rows) => rows.len() > 1 && match trade_cols(rows[0]) {
            None => f == Fault::MissingColumn(Table::Trades),
            Some(c) => match f {
                Fault::BadRow(tb, k) => tb == Table::Trades && k + 1 < rows.len() && !trade_row_ok(
                    rows[k + 1 as int],
                    c,
                ) && forall|j: int| 1 <= j <= k as int ==> #[trigger] trade_row_ok(rows[j], c),
                
                _ => false,
            },
        },
    }
}

/// Reads the ledger table.
pub fn load_trades(text: &str) -> (r: Result<Vec<Trade>, StoreError>)
    ensures
        match r {
            Ok(v) => trades_loaded(text@, v@),
            Err(e) => trades_failed(text@, e@),
        },
{
    let rows = match read_tsv(text) {
        Ok(rows) => rows,
        Err(_) => return Err(StoreError::NotTabular { table: Table::Trades }),
    };
    if rows.len() <= 1 {
        return Ok(Vec::new());
    }
    let ghost rv = tsv_records(text@)->Some_0;
    proof {
        assert forall|j: int| 0 <= j < rows@.len() implies #[trigger] rv[j] == strs_view(rows@[j]@) by {
            assert(rv == crate::tsv::rows_view(rows@));
        }
    }
    let c = match trade_columns(&rows[0]) {
        Some(c) => c,
        None => return Err(StoreError::MissingColumn { table: Table::Trades }),
    };
    let mut out: Vec<Trade> = Vec::new();
    let mut i: usize = 1;
    while i < rows.len()
        invariant
            1 <= i <= rows@.len(),
            tsv_records(text@) == Some(rv),
            rv.len() == rows@.len(),
            rows@.len() > 1,
            Some(c) == trade_cols(rv[0]),
            forall|j: int| 0 <= j < rows@.len() ==> #[trigger] rv[j] == strs_view(rows@[j]@),
            out@.len() == i - 1,
            forall|k: int| 0 <= k < out@.len() ==> #[trigger] trade_row_ok(rv[k + 1], c),
            forall|k: int| 0 <= k < out@.len() ==> trade_from_row(#[trigger] out@[k], rv[k + 1], c),
        decreases rows@.len() - i,
    {
        assert(rv[i as int] == strs_view(rows@[i as int]@));
        match decode_trade(&rows[i], &c) {
            Some(x) => out.push(x),
            None => {
                proof {
                    assert forall|j: int| 1 <= j <= i - 1 implies #[trigger] trade_row_ok(rv[j], c) by {
                        assert(trade_from_row(out@[j - 1], rv[(j - 1) + 1], c));
                    assert(trade_row_ok(rv[(j - 1) + 1], c));
                    }
                }
                return Err(StoreError::BadRow { table: Table::Trades, row: i - 1 });
            },
        }
        i = i + 1;
    }
    Ok(out)
}

/// `v` is what the price snapshot text holds: one quote per row after the header,
/// in order. A text with no row after its header holds none.
pub open spec fn prices_loaded(text: Seq<char>, v: Seq<PriceLine>) -> bool {
    match tsv_records(text) {
        None => false,
        Some(rows) => if rows.len() <= 1 {
            v.len() == 0
        } else {
            match price_cols(rows[0]) {
                None => false,
                Some(c) => {
                    &&& v.len() == rows.len() - 1
                    &&& forall|k: int|
                        0 <= k < v.len() ==> price_row_ok(rows[k + 1], c) && price_from_row(
                            #[trigger] v[k],
                            rows[k + 1],
                            c,
                        )
                    
                }
            }
        },
    }
}

/// `f` is the error the price snapshot text gives: csv fails on it; or it has rows
/// and its header lacks a required column; or `k` is the first row that
/// cannot be read.
pub open spec fn prices_failed(text: Seq<char>, f: Fault) -> bool {
    match tsv_records(text) {
        None => f == Fault::NotTabular(Table::Prices),
        Some(rows) => rows.len() > 1 && match price_cols(rows[0]) {
            None => f == Fault::MissingColumn(Table::Prices),
            Some(c) => match f {
                Fault::BadRow(tb, k) => tb == Table::Prices && k + 1 < rows.len() && !price_row_ok(
                    rows[k + 1 as int],
                    c,
                ) && forall|j: int| 1 <= j <= k as int ==> #[trigger] price_row_ok(rows[j], c),
                
                _ => false,
            },
        },
    }
}

/// Reads the price snapshot table.
pub fn load_prices(text: &str) -> (r: Result<Vec<PriceLine>, StoreError>)
    ensures
        match r {
            Ok(v) => prices_loaded(text@, v@),
            Err(e) => prices_failed(text@, e@),
        },
{
    let rows = match read_tsv(text) {
        Ok(rows) => rows,
        Err(_) => return Err(StoreError::NotTabular { table: Table::Prices }),
    };
    if rows.len() <= 1 {
        return Ok(Vec::new());
    }
    let ghost rv = tsv_records(text@)->Some_0;
    proof {
        assert forall|j: int| 0 <= j < rows@.len() implies #[trigger] rv[j] == strs_view(rows@[j]@) by {
            assert(rv == crate::tsv::rows_view(rows@));
        }
    }
    let c = match price_columns(&rows[0]) {
        Some(c) => c,
        None => return Err(StoreError::MissingColumn { table: Table::Prices }),
    };
    let mut out: Vec<PriceLine> = Vec::new();
    let mut i: usize = 1;
    while i < rows.len()
        invariant
            1 <= i <= rows@.len(),
            tsv_records(text@) == Some(rv),
            rv.len() == rows@.len(),
            rows@.len() > 1,
            Some(c) == price_cols(rv[0]),
            forall|j: int| 0 <= j < rows@.len() ==> #[trigger] rv[j] == strs_view(rows@[j]@),
            out@.len() == i - 1,
            forall|k: int| 0 <= k < out@.len() ==> #[trigger] price_row_ok(rv[k + 1], c),
            forall|k: int| 0 <= k < out@.len() ==> price_from_row(#[trigger] out@[k], rv[k + 1], c),
        decreases rows@.len() - i,
    {
        assert(rv[i as int] == strs_view(rows@[i as int]@));
        match decode_price(&rows[i], &c) {
            Some(x) => out.push(x),
            None => {
                proof {
                    assert forall|j: int| 1 <= j <= i - 1 implies #[trigger] price_row_ok(rv[j], c) by {
                        assert(price_from_row(out@[j - 1], rv[(j - 1) + 1], c));
                    assert(price_row_ok(rv[(j - 1) + 1], c));
                    }
                }
                return Err(StoreError::BadRow { table: Table::Prices, row: i - 1 });
            },
        }
        i = i + 1;
    }
    Ok(out)
}

} // verus!
