use vstd::prelude::*;

use crate::dates::{day_of, day_of_secs, day_text, day_writable, format_day, snapshot_format};
use crate::decimal::{fixed_text, render_fixed};
use crate::fixed::SCALE;
use crate::model::{Fault, PriceLine, Stocks, StoreError};
use crate::text::push_char;
use crate::tsv::strs_view;

verus! {

/// What fetching one symbol gave: its last close (date in seconds since
/// the Unix epoch, fixed-point price), or nothing where the retrieval
/// failed or returned no data.
pub struct Fetched {
    pub ticker: String,
    pub quote: Option<(i64, i128)>,
}

/// The base currency's own quote symbol, always priced at one.
pub open spec fn base_ticker() -> Seq<char> {
    seq!['U', 'S', 'D', 'U', 'S', 'D', '=', 'X']
}

/// The currency pairs refreshed besides the instruments' symbols.
pub open spec fn currency_pairs() -> Seq<Seq<char>> {
    seq![
        seq!['E', 'U', 'R', 'U', 'S', 'D', '=', 'X'],
        seq!['G', 'B', 'P', 'U', 'S', 'D', '=', 'X'],
        seq!['C', 'A', 'D', 'U', 'S', 'D', '=', 'X'],
        seq!['S', 'G', 'D', 'U', 'S', 'D', '=', 'X'],
    ]
}

/// The symbols of the instruments that have one, in registry order.
pub open spec fn stock_tickers(stocks: Seq<Stocks>) -> Seq<Seq<char>>
    decreases stocks.len(),
{
    if stocks.len() == 0 {
        Seq::empty()
    } else {
        let sub = stock_tickers(stocks.drop_last());
        match stocks.last().ticker {
            Some(t) => sub.push(t@),
            None => sub,
        }
    }
}

/// Every symbol a refresh retrieves.
pub open spec fn fetch_list(stocks: Seq<Stocks>) -> Seq<Seq<char>> {
    stock_tickers(stocks) + currency_pairs()
}

/// The rows (symbol, price, date) the successful retrievals give, in order.
pub open spec fn quote_rows(results: Seq<Fetched>) -> Seq<(Seq<char>, i128, i64)>
    decreases results.len(),
{
    if results.len() == 0 {
        Seq::empty()
    } else {
        let sub = quote_rows(results.drop_last());
        match results.last().quote {
            Some((d, p)) => sub.push((results.last().ticker@, p, d)),
            None => sub,
        }
    }
}

/// The rows (symbol, price, date) of a snapshot.
pub open spec fn price_rows(lines: Seq<PriceLine>) -> Seq<(Seq<char>, i128, i64)> {
    Seq::new(lines.len(), |i: int| (lines[i].ticker@, lines[i].price, lines[i].date))
}

/// The symbols to retrieve on a refresh: each instrument's symbol, then
/// the currency pairs.
pub fn tickers_to_fetch(stocks: &Vec<Stocks>) -> (r: Vec<String>)
    ensures
        strs_view(r@) == fetch_list(stocks@),
{
    let mut r: Vec<String> = Vec::new();
    let mut i: usize = 0;
    proof {
        assert(stocks@.take(0) =~= Seq::<Stocks>::empty());
        assert(strs_view(r@) =~= stock_tickers(stocks@.take(0)));
    }
    while i < stocks.len()
        invariant
            i <= stocks@.len(),
            strs_view(r@) == stock_tickers(stocks@.take(i as int)),
        decreases stocks@.len() - i,
    {
        proof {
            assert(stocks@.take(i + 1).drop_last() =~= stocks@.take(i as int));
        }
        match &stocks[i].ticker {
            Some(t) => {
                r.push(t.clone());
                assert(strs_view(r@) =~= stock_tickers(stocks@.take(i + 1)));
            },
            None => {
                assert(strs_view(r@) =~= stock_tickers(stocks@.take(i + 1)));
            },
        }
        i = i + 1;
    }
    proof {
        assert(stocks@.take(i as int) =~= stocks@);
        reveal_strlit("EURUSD=X");
        reveal_strlit("GBPUSD=X");
        reveal_strlit("CADUSD=X");
        reveal_strlit("SGDUSD=X");
        assert("EURUSD=X"@ =~= currency_pairs()[0]);
        assert("GBPUSD=X"@ =~= currency_pairs()[1]);
        assert("CADUSD=X"@ =~= currency_pairs()[2]);
        assert("SGDUSD=X"@ =~= currency_pairs()[3]);
    }
    let ghost before = strs_view(r@);
    r.push(String::from_str("EURUSD=X"));
    r.push(String::from_str("GBPUSD=X"));
    r.push(String::from_str("CADUSD=X"));
    r.push(String::from_str("SGDUSD=X"));
    assert(strs_view(r@) =~= before + currency_pairs());
    r
}

/// The snapshot a refresh writes: the base currency's identity quote at
/// `now`, then one quote per successful retrieval, in order; failed
/// retrievals leave nothing.
pub fn snapshot_lines(results: &Vec<Fetched>, now: i64) -> (r: Vec<PriceLine>)
    ensures
        price_rows(r@) == seq![(base_ticker(), SCALE, now)] + quote_rows(results@),
{
    proof {
        reveal_strlit("USDUSD=X");
        assert("USDUSD=X"@ =~= base_ticker());
    }
    let mut r: Vec<PriceLine> = Vec::new();
    r.push(PriceLine { ticker: String::from_str("USDUSD=X"), price: SCALE, date: now });
    let mut i: usize = 0;
    proof {
        assert(results@.take(0) =~= Seq::<Fetched>::empty());
        assert(price_rows(r@) =~= seq![(base_ticker(), SCALE, now)] + quote_rows(results@.take(0)));
    }
    while i < results.len()
        invariant
            i <= results@.len(),
            price_rows(r@) == seq![(base_ticker(), SCALE, now)] + quote_rows(results@.take(i as int)),
        decreases results@.len() - i,
    {
        proof {
            assert(results@.take(i + 1).drop_last() =~= results@.take(i as int));
        }
        match results[i].quote {
            Some((d, p)) => {
                let ghost before = r@;
                r.push(PriceLine { ticker: results[i].ticker.clone(), price: p, date: d });
                assert(price_rows(r@) =~= price_rows(before).push((results@[i as int].ticker@, p, d)));
                assert(price_rows(r@) =~= seq![(base_ticker(), SCALE, now)] + quote_rows(results@.take(i + 1)));
            },
            None => {
                assert(price_rows(r@) =~= seq![(base_ticker(), SCALE, now)] + quote_rows(results@.take(i + 1)));
            },
        }
        i = i + 1;
    }
    proof {
        assert(results@.take(i as int) =~= results@);
    }
    r
}

/// One snapshot row as written: symbol, price and `DD/MM/YYYY` date,
/// tab-separated.
pub open spec fn price_row_text(p: PriceLine) -> Seq<char> {
    p.ticker@ + seq!['\t'] + fixed_text(p.price as int) + seq!['\t'] + day_text(
        day_of(p.date as int),
        snapshot_format(),
    ) + seq!['\n']
}

/// The header of the snapshot file.
pub open spec fn price_header() -> Seq<char> {
    seq!['t', 'i', 'c', 'k', 'e', 'r', '\t', 'p', 'r', 'i', 'c', 'e', '\t', 'd', 'a', 't', 'e', '\n']
}

/// The snapshot file: its header, then one row per quote.
pub open spec fn price_file(lines: Seq<PriceLine>) -> Seq<char>
    decreases lines.len(),
{
    if lines.len() == 0 {
        price_header()
    } else {
        price_file(lines.drop_last()) + price_row_text(lines.last())
    }
}

/// A character the snapshot file carries inside a field as it is.
pub open spec fn ticker_char_ok(ch: char) -> bool {
    ch != '\t' && ch != '\n' && ch != '\r' && ch != ' ' && ch != '\x0B' && ch != '\x0C' && ch
        != '"'
}

/// A symbol that reads back from the snapshot file as written: no
/// whitespace, no quote, and no leading `#` (a comment line).
pub open spec fn writable_ticker(t: Seq<char>) -> bool {
    &&& forall|i: int| 0 <= i < t.len() ==> ticker_char_ok(#[trigger] t[i])
    &&& t.len() > 0 ==> t[0] != '#'
}

/// `f` is the error writing quote `p` gives.
pub open spec fn quote_unwritable(p: PriceLine, f: Fault) -> bool {
    ||| f == Fault::UnwritableTicker(p.ticker@) && !writable_ticker(p.ticker@)
    ||| f == Fault::Overflow && !day_writable(p.date as int)
}

/// Every quote can be written.
pub open spec fn all_writable(lines: Seq<PriceLine>) -> bool {
    forall|k: int|
        0 <= k < lines.len() ==> writable_ticker((#[trigger] lines[k]).ticker@) && day_writable(
            lines[k].date as int,
        )
}

/// Whether a symbol can be written to the snapshot file.
pub fn is_writable_ticker(t: &str) -> (r: bool)
    ensures
        r == writable_ticker(t@),
{
    let n = t.unicode_len();
    let mut i: usize = 0;
    while i < n
        invariant
            n == t@.len(),
            i <= n,
            forall|k: int| 0 <= k < i ==> ticker_char_ok(#[trigger] t@[k]),
        decreases n - i,
    {
        let ch = t.get_char(i);
        if ch == '\t' || ch == '\n' || ch == '\r' || ch == ' ' || ch == '\x0B' || ch == '\x0C' || ch
            == '"' {
            return false;
        }
        i = i + 1;
    }
    !(n > 0 && t.get_char(0) == '#')
}

/// The text of the snapshot file. It fails, naming the first quote that
/// cannot be written, on a symbol that would not read back as written or
/// on a date outside 0001-01-01 to 9999-12-31.
pub fn write_prices(lines: &Vec<PriceLine>) -> (r: Result<String, StoreError>)
    ensures
        match r {
            Ok(s) => s@ == price_file(lines@),
            Err(e) => exists|k: int| 0 <= k < lines@.len() && #[trigger] quote_unwritable(lines@[k], e@),
        },
        all_writable(lines@) ==> r is Ok,
{
    proof {
        reveal_strlit("ticker\tprice\tdate\n");
        reveal_strlit("%d/%m/%Y");
        assert("ticker\tprice\tdate\n"@ =~= price_header());
        assert("%d/%m/%Y"@ =~= snapshot_format());
    }
    let mut s = String::from_str("ticker\tprice\tdate\n");
    let mut i: usize = 0;
    proof {
        assert(lines@.take(0) =~= Seq::<PriceLine>::empty());
    }
    while i < lines.len()
        invariant
            i <= lines@.len(),
            s@ == price_file(lines@.take(i as int)),
        decreases lines@.len() - i,
    {
        proof {
            assert(lines@.take(i + 1).drop_last() =~= lines@.take(i as int));
        }
        proof {
            reveal_strlit("%d/%m/%Y");
            assert("%d/%m/%Y"@ =~= snapshot_format());
        }
        let p = &lines[i];
        if !is_writable_ticker(p.ticker.as_str()) {
            let e = StoreError::UnwritableTicker { ticker: p.ticker.clone() };
            assert(quote_unwritable(lines@[i as int], e@));
            return Err(e);
        }
        let day = match day_of_secs(p.date) {
            Some(d) => d,
            None => {
                let e = StoreError::Overflow;
                assert(quote_unwritable(lines@[i as int], e@));
                return Err(e);
            },
        };
        let date = match format_day(day, "%d/%m/%Y") {
            Some(t) => t,
            None => {
                let e = StoreError::Overflow;
                assert(quote_unwritable(lines@[i as int], e@));
                return Err(e);
            },
        };
        let ghost before = s@;
        s.append(p.ticker.as_str());
        push_char(&mut s, '\t');
        let price = render_fixed(p.price);
        s.append(price.as_str());
        push_char(&mut s, '\t');
        s.append(date.as_str());
        push_char(&mut s, '\n');
        assert(s@ =~= before + price_row_text(lines@[i as int]));
        i = i + 1;
    }
    proof {
        assert(lines@.take(i as int) =~= lines@);
    }
    Ok(s)
}

} // verus!
