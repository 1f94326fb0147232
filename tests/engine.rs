use lupo::args::ReportType;
use lupo::decimal::{parse_fixed, render_fixed};
use lupo::fixed::SCALE;
use lupo::model::{PortLine, PriceLine, Stocks, StoreError, Trade, TradeType};
use lupo::position::{apply_trade, fold_trades, fresh_lines};
use lupo::prices::{snapshot_lines, tickers_to_fetch, write_prices, Fetched};
use lupo::store::{Store, STOCKS_HEADER, TRADES_HEADER};
use lupo::text::contains;
use lupo::valuation::{filter_lines, set_weights, total_amount, value_line};

const DAY: i64 = 86_400;
// 2015/04/27 at midnight UTC
const APRIL_27: i64 = 1_430_092_800;

fn store(stocks: &[&str], trades: &[&str], prices: &[&str]) -> Store {
    let mut s = format!("{}\n", STOCKS_HEADER);
    for l in stocks {
        s.push_str(l);
        s.push('\n');
    }
    let mut t = format!("{}\n", TRADES_HEADER);
    for l in trades {
        t.push_str(l);
        t.push('\n');
    }
    let mut p = String::from("ticker\tprice\tdate\n");
    for l in prices {
        p.push_str(l);
        p.push('\n');
    }
    Store { stocks_text: s, trades_text: t, prices_text: p }
}

fn line<'a>(v: &'a [PortLine], name: &str) -> &'a PortLine {
    v.iter().find(|l| l.name == name).unwrap()
}

fn stock(name: &str, asset: &str, ticker: Option<&str>, currency: &str) -> Stocks {
    Stocks {
        name: name.to_string(),
        asset: asset.to_string(),
        group: "G".to_string(),
        tags: "T".to_string(),
        riskyness: "1".to_string(),
        ticker: ticker.map(|t| t.to_string()),
        tradedcurrency: currency.to_string(),
        currencyunderlying: currency.to_string(),
    }
}

fn trade(kind: TradeType, stock: &str, units: i128, price: i128, fees: i128, split: i128) -> Trade {
    Trade {
        account: "IB".to_string(),
        date: APRIL_27,
        kind,
        stock: stock.to_string(),
        units,
        price: Some(price),
        fees: Some(fees),
        split,
        currency: SCALE,
    }
}

const CASH_IB: &str = "CashIB\tCash\tCash\tcash\t0\t\tUSD\tUSD";
const AAA: &str = "AAA\tEquity\tStocks\tus\t3\tAAA\tUSD\tUSD";

#[test]
fn transfer_in_check_and_position() {
    let trade = "IB\t2015/04/27\tTrIn\tCashIB\t1000\t1\t0\t1\t1";
    let bare = store(&[], &[trade], &[]);
    let (ct, cs) = bare.check().ok().unwrap();
    assert_eq!((ct, cs), (1, 0));

    let s = store(&[CASH_IB], &[trade], &["USDUSD=X\t1\t27/04/2015"]);
    let port = s.port_at(true, APRIL_27).ok().unwrap();
    let cash = line(&port, "CashIB");
    assert_eq!(cash.units, 1000 * SCALE);
    assert_eq!(cash.revenue_usd, 1000 * SCALE);
}

#[test]
fn buy_values_position_and_moves_cash() {
    let s = store(
        &[AAA, CASH_IB],
        &["IB\t2015/04/27\tBuy\tAAA\t10\t5\t1\t1\t1"],
        &["AAA\t50\t27/04/2015", "USDUSD=X\t1\t27/04/2015"],
    );
    let port = s.port_at(false, APRIL_27).ok().unwrap();
    let a = line(&port, "AAA");
    assert_eq!(a.units, 10 * SCALE);
    assert_eq!(a.cost_usd, 50 * SCALE);
    assert_eq!(a.fees_usd, SCALE);
    assert_eq!(a.amount_usd, 500 * SCALE);
    assert_eq!(a.error, "");
    let c = line(&port, "CashIB");
    assert_eq!(c.units, -50 * SCALE);
    assert_eq!(c.cost_usd, 50 * SCALE);
    assert_eq!(c.fees_usd, SCALE);
}

#[test]
fn missing_rate_is_flagged_and_unconverted() {
    let s = store(
        &["ZZZ\tEquity\tStocks\tx\t2\t\tXYZ\tXYZ", CASH_IB],
        &["IB\t2015/04/27\tTrIn\tZZZ\t4\t2\t0\t1\t1"],
        &["USDUSD=X\t1\t27/04/2015"],
    );
    let port = s.port_at(false, APRIL_27).ok().unwrap();
    let z = line(&port, "ZZZ");
    assert!(z.error.contains("CN"));
    assert_eq!(z.price, 0);
    assert_eq!(z.amount_usd, 0);
}

#[test]
fn stale_quotes_are_flagged() {
    let s = store(
        &[AAA, CASH_IB],
        &["IB\t2015/04/27\tTrIn\tAAA\t2\t1\t0\t1\t1"],
        &["AAA\t3\t27/04/2015", "USDUSD=X\t1\t27/04/2015"],
    );
    let port = s.port_at(false, APRIL_27 + 6 * DAY).ok().unwrap();
    assert_eq!(line(&port, "AAA").error, "POCO");
    let port = s.port_at(false, APRIL_27 + 5 * DAY).ok().unwrap();
    assert_eq!(line(&port, "AAA").error, "");
}

#[test]
fn foreign_currency_is_converted() {
    let s = store(
        &["EEE\tEquity\tStocks\teu\t3\tEEE\tEUR\tEUR", CASH_IB],
        &["IB\t2015/04/27\tTrIn\tEEE\t3\t10\t0\t1\t1"],
        &["EEE\t20\t27/04/2015", "EURUSD=X\t1.5\t27/04/2015"],
    );
    let port = s.port_at(false, APRIL_27).ok().unwrap();
    assert_eq!(line(&port, "EEE").amount_usd, 90 * SCALE);
}

#[test]
fn closed_positions_only_in_full_view() {
    let s = store(
        &[AAA, CASH_IB],
        &[
            "IB\t2015/04/27\tBuy\tAAA\t10\t5\t0\t1\t1",
            "IB\t2015/04/28\tSell\tAAA\t10\t5\t0\t1\t1",
        ],
        &["AAA\t50\t27/04/2015", "USDUSD=X\t1\t27/04/2015"],
    );
    let all = s.port_at(true, APRIL_27).ok().unwrap();
    let open = s.port_at(false, APRIL_27).ok().unwrap();
    assert_eq!(all.len(), 2);
    assert_eq!(open.len(), 0);
    assert_eq!(line(&all, "AAA").units, 0);
    assert_eq!(line(&all, "CashIB").units, 0);
}

#[test]
fn shares_add_up_to_one() {
    let s = store(
        &[AAA, CASH_IB, "BBB\tBond\tBonds\tus\t1\tBBB\tUSD\tUSD"],
        &[
            "IB\t2015/04/27\tTrIn\tCashIB\t1000\t1\t0\t1\t1",
            "IB\t2015/04/27\tBuy\tAAA\t3\t7\t0\t1\t1",
            "IB\t2015/04/27\tBuy\tBBB\t7\t11\t0\t1\t1",
        ],
        &["AAA\t7\t27/04/2015", "BBB\t13\t27/04/2015", "USDUSD=X\t1\t27/04/2015"],
    );
    let port = s.port_at(false, APRIL_27).ok().unwrap();
    let sum: i128 = port.iter().map(|l| l.amount_perc).sum();
    let n = port.len() as i128;
    assert!(sum > SCALE - n && sum < SCALE + n);
    assert_eq!(s.total().ok().unwrap(), 1000 * SCALE + 3 * 7 * SCALE + 7 * 13 * SCALE - 21 * SCALE - 77 * SCALE);
}

#[test]
fn empty_portfolio_has_zero_shares() {
    let lines = fresh_lines(&vec![stock("AAA", "Equity", None, "USD")]);
    let out = set_weights(lines, 0).ok().unwrap();
    assert_eq!(out[0].amount_perc, 0);
}

#[test]
fn report_groups_by_asset() {
    let s = store(
        &[AAA, CASH_IB, "BBB\tEquity\tStocks\tus\t1\tBBB\tUSD\tUSD"],
        &[
            "IB\t2015/04/27\tTrIn\tCashIB\t100\t1\t0\t1\t1",
            "IB\t2015/04/27\tTrIn\tAAA\t2\t1\t0\t1\t1",
            "IB\t2015/04/27\tTrIn\tBBB\t3\t1\t0\t1\t1",
        ],
        &["AAA\t10\t27/04/2015", "BBB\t10\t27/04/2015", "USDUSD=X\t1\t27/04/2015"],
    );
    let groups = s.report(ReportType::Asset).ok().unwrap();
    assert_eq!(groups.len(), 2);
    let eq = groups.iter().find(|g| g.group == "Equity").unwrap();
    assert_eq!(eq.amount_usd, 50 * SCALE);
    assert_eq!(eq.amount_perc, SCALE / 3);
    let cash = groups.iter().find(|g| g.group == "Cash").unwrap();
    assert_eq!(cash.amount_usd, 100 * SCALE);
}

#[test]
fn buy_then_sell_restores_units() {
    let stocks = vec![stock("AAA", "Equity", None, "USD"), stock("CashIB", "Cash", None, "USD")];
    let mut lines = fresh_lines(&stocks);
    apply_trade(&mut lines, &trade(TradeType::Buy, "AAA", 7 * SCALE, 3 * SCALE, SCALE, 0)).ok().unwrap();
    assert_eq!(lines[0].units, 7 * SCALE);
    assert_eq!(lines[1].units, -21 * SCALE);
    apply_trade(&mut lines, &trade(TradeType::Sell, "AAA", 7 * SCALE, 3 * SCALE, SCALE, 0)).ok().unwrap();
    assert_eq!(lines[0].units, 0);
    assert_eq!(lines[1].units, 0);
    assert_eq!(lines[1].fees_usd, 2 * SCALE);
}

#[test]
fn splits_compose() {
    let stocks = vec![stock("AAA", "Equity", None, "USD"), stock("CashIB", "Cash", None, "USD")];
    let mut a = fresh_lines(&stocks);
    apply_trade(&mut a, &trade(TradeType::TrIn, "AAA", 5 * SCALE, 0, 0, 0)).ok().unwrap();
    let mut b = fresh_lines(&stocks);
    apply_trade(&mut b, &trade(TradeType::TrIn, "AAA", 5 * SCALE, 0, 0, 0)).ok().unwrap();
    apply_trade(&mut a, &trade(TradeType::Split, "AAA", 0, 0, 0, 2 * SCALE)).ok().unwrap();
    apply_trade(&mut a, &trade(TradeType::Split, "AAA", 0, 0, 0, 3 * SCALE)).ok().unwrap();
    apply_trade(&mut b, &trade(TradeType::Split, "AAA", 0, 0, 0, 6 * SCALE)).ok().unwrap();
    assert_eq!(a[0].units, 30 * SCALE);
    assert_eq!(a[0].units, b[0].units);
}

#[test]
fn dividend_goes_to_cash() {
    let stocks = vec![stock("AAA", "Equity", None, "USD"), stock("CashIB", "Cash", None, "USD")];
    let lines = fresh_lines(&stocks);
    let t = trade(TradeType::Div, "AAA", 4 * SCALE, 2 * SCALE, 0, 0);
    let out = fold_trades(lines, &vec![t]).ok().unwrap();
    assert_eq!(out[0].divs_usd, 8 * SCALE);
    assert_eq!(out[0].units, 0);
    assert_eq!(out[1].units, 8 * SCALE);
    assert_eq!(out[1].divs_usd, 8 * SCALE);
}

#[test]
fn unknown_instrument_fails() {
    let s = store(&[CASH_IB], &["IB\t2015/04/27\tBuy\tNOPE\t1\t1\t0\t1\t1"], &[]);
    match s.port_at(false, APRIL_27) {
        Err(StoreError::UnknownInstrument { name }) => assert_eq!(name, "NOPE"),
        _ => panic!("expected an unknown instrument"),
    }
}

#[test]
fn unknown_cash_account_fails() {
    let s = store(&[AAA], &["XX\t2015/04/27\tBuy\tAAA\t1\t1\t0\t1\t1"], &[]);
    match s.port_at(false, APRIL_27) {
        Err(StoreError::UnknownCashAccount { name }) => assert_eq!(name, "CashXX"),
        _ => panic!("expected an unknown cash account"),
    }
}

#[test]
fn split_needs_no_cash_account() {
    let s = store(
        &[AAA],
        &["XX\t2015/04/27\tSplit\tAAA\t0\t\t\t2\t1"],
        &["USDUSD=X\t1\t27/04/2015"],
    );
    assert!(s.port_at(true, APRIL_27).is_ok());
}

#[test]
fn missing_column_fails() {
    let s = Store {
        stocks_text: "Name\tAsset\nAAA\tEquity\n".to_string(),
        trades_text: String::new(),
        prices_text: String::new(),
    };
    assert!(matches!(s.check(), Err(StoreError::MissingColumn { .. })));
}

#[test]
fn bad_row_is_named() {
    let s = store(
        &[],
        &["IB\t2015/04/27\tTrIn\tCashIB\t1\t1\t0\t1\t1", "IB\t2015/13/27\tTrIn\tCashIB\t1\t1\t0\t1\t1"],
        &[],
    );
    assert!(matches!(s.check(), Err(StoreError::BadRow { row: 1, .. })));
}

#[test]
fn repeated_name_keeps_last_row() {
    let s = store(&[AAA, CASH_IB, "AAA\tBond\tBonds\tus\t1\tAAA\tUSD\tUSD"], &[], &[]);
    assert_eq!(s.check().ok().unwrap(), (0, 2));
    let v = s.stocks(Some("aaa".to_string())).ok().unwrap();
    assert_eq!(v.len(), 1);
    assert_eq!(v[0].asset, "Bond");
    assert_eq!(v[0].group, "Bonds");
}

#[test]
fn name_containing_cash_is_not_a_cash_bucket() {
    let s = store(
        &["MyCashFund\tFund\tFunds\tx\t1\t\tUSD\tUSD", CASH_IB],
        &["IB\t2015/04/27\tBuy\tMyCashFund\t2\t3\t0\t1\t1"],
        &["USDUSD=X\t1\t27/04/2015"],
    );
    let port = s.port_at(true, APRIL_27).ok().unwrap();
    assert_eq!(line(&port, "MyCashFund").units, 2 * SCALE);
    assert_eq!(line(&port, "CashIB").units, -6 * SCALE);
}

#[test]
fn unwritable_ticker_is_refused() {
    let mut s = store(&[], &[], &[]);
    let before = s.prices_text.clone();
    let lines = vec![PriceLine { ticker: "A B".to_string(), price: SCALE, date: APRIL_27 }];
    match s.write_prices(lines) {
        Err(StoreError::UnwritableTicker { ticker }) => assert_eq!(ticker, "A B"),
        _ => panic!("expected an unwritable ticker"),
    }
    assert_eq!(s.prices_text, before);
    let lines = vec![PriceLine { ticker: "#X".to_string(), price: SCALE, date: APRIL_27 }];
    assert!(matches!(write_prices(&lines), Err(StoreError::UnwritableTicker { .. })));
}

#[test]
fn labels_are_padded() {
    assert_eq!(TradeType::Buy.label(), "Buy  ");
    assert_eq!(TradeType::Div.label(), "Div  ");
    assert_eq!(TradeType::TrOut.label(), "TrOut");
}

#[test]
fn overflow_is_reported() {
    let stocks = vec![stock("CashIB", "Cash", None, "USD")];
    let mut lines = fresh_lines(&stocks);
    let big = 1_000_000_000_000_000_000_000_000i128 * SCALE;
    let t = trade(TradeType::TrIn, "CashIB", big, big, 0, 0);
    assert!(matches!(apply_trade(&mut lines, &t), Err(StoreError::Overflow)));
    assert_eq!(lines[0].units, 0);
}

#[test]
fn header_is_case_insensitive_and_comments_skipped() {
    let s = Store {
        stocks_text: "# registry\nNAME\tasset\tGROUP\ttags\tRISKYNESS\tticker\ttradedcurrency\tCURRENCYUNDERLYING\n  AAA  \tEquity\tG\tT\t1\t\tUSD\tUSD\n".to_string(),
        trades_text: String::new(),
        prices_text: String::new(),
    };
    let v = s.stocks(None).ok().unwrap();
    assert_eq!(v.len(), 1);
    assert_eq!(v[0].name, "AAA");
    assert_eq!(v[0].ticker, None);
}

#[test]
fn listings_filter_by_name_ignoring_case() {
    let s = store(
        &[AAA, CASH_IB],
        &["IB\t2015/04/27\tTrIn\tCashIB\t1\t1\t0\t1\t1", "IB\t2015/04/27\tTrIn\tAAA\t1\t1\t0\t1\t1"],
        &[],
    );
    let t = s.trades(Some("aa".to_string())).ok().unwrap();
    assert_eq!(t.len(), 1);
    assert_eq!(t[0].stock, "AAA");
    assert_eq!(t[0].date, APRIL_27);
    assert_eq!(s.trades(None).ok().unwrap().len(), 2);
    let st = s.stocks(Some("CASH".to_string())).ok().unwrap();
    assert_eq!(st.len(), 1);
    assert_eq!(st[0].name, "CashIB");
}

#[test]
fn failed_fetch_is_left_out_of_snapshot() {
    let results = vec![
        Fetched { ticker: "AAA".to_string(), quote: Some((APRIL_27, 50 * SCALE)) },
        Fetched { ticker: "BBB".to_string(), quote: None },
        Fetched { ticker: "CCC".to_string(), quote: Some((APRIL_27 + DAY, 7 * SCALE / 2)) },
    ];
    let lines = snapshot_lines(&results, APRIL_27 + 2 * DAY);
    let rows: Vec<(String, i128, i64)> = lines.iter().map(|p| (p.ticker.clone(), p.price, p.date)).collect();
    assert_eq!(
        rows,
        vec![
            ("USDUSD=X".to_string(), SCALE, APRIL_27 + 2 * DAY),
            ("AAA".to_string(), 50 * SCALE, APRIL_27),
            ("CCC".to_string(), 3_500_000, APRIL_27 + DAY),
        ]
    );
}

#[test]
fn fetch_list_has_symbols_then_pairs() {
    let stocks = vec![stock("AAA", "Equity", Some("AAA.L"), "GBP"), stock("CashIB", "Cash", None, "USD")];
    let t = tickers_to_fetch(&stocks);
    assert_eq!(t, vec!["AAA.L", "EURUSD=X", "GBPUSD=X", "CADUSD=X", "SGDUSD=X"]);
}

#[test]
fn snapshot_text_round_trips() {
    let lines = vec![
        PriceLine { ticker: "AAA".to_string(), price: 1_234_500, date: APRIL_27 + 3600 },
        PriceLine { ticker: "BBB".to_string(), price: -7, date: APRIL_27 },
    ];
    let text = write_prices(&lines).ok().unwrap();
    assert_eq!(text, "ticker\tprice\tdate\nAAA\t1.234500\t27/04/2015\nBBB\t-0.000007\t27/04/2015\n");
    let mut back = store(&[AAA], &[], &[]);
    back.write_prices(lines).ok().unwrap();
    assert_eq!(back.prices_text, text);
    let quotes = back.load_prices().ok().unwrap();
    assert_eq!(quotes.len(), 2);
    assert_eq!(quotes[1].price, -7);
    let port = back.port_at(true, APRIL_27).ok().unwrap();
    assert_eq!(line(&port, "AAA").price, 1_234_500);
    assert_eq!(back.load_stocks().ok().unwrap().len(), 1);
}

#[test]
fn decimals_read_and_write() {
    assert_eq!(parse_fixed("12.5"), Some(12_500_000));
    assert_eq!(parse_fixed("-0.25"), Some(-250_000));
    assert_eq!(parse_fixed("+3"), Some(3 * SCALE));
    assert_eq!(parse_fixed(".5"), Some(500_000));
    assert_eq!(parse_fixed("1.23456789"), Some(1_234_567));
    assert_eq!(parse_fixed("1e5"), None);
    assert_eq!(parse_fixed(""), None);
    assert_eq!(parse_fixed("."), None);
    assert_eq!(render_fixed(12_500_000), "12.500000");
    assert_eq!(render_fixed(-250_000), "-0.250000");
}

#[test]
fn value_line_prices_cash_at_one() {
    let l = fresh_lines(&vec![stock("CashIB", "Cash", Some("CASH"), "USD")]).remove(0);
    let mut l = l;
    l.units = 10 * SCALE;
    let prices = vec![PriceLine { ticker: "USDUSD=X".to_string(), price: SCALE, date: APRIL_27 }];
    let v = value_line(l, &prices, APRIL_27).ok().unwrap();
    assert_eq!(v.price, SCALE);
    assert_eq!(v.amount_usd, 10 * SCALE);
}

#[test]
fn filter_and_total() {
    let stocks = vec![stock("AAA", "Equity", None, "USD"), stock("BBB", "Equity", None, "USD")];
    let mut lines = fresh_lines(&stocks);
    lines[0].units = 5_000;
    lines[1].units = 20_000;
    lines[1].amount_usd = 3;
    let kept = filter_lines(lines, false);
    assert_eq!(kept.len(), 1);
    assert_eq!(kept[0].name, "BBB");
    assert_eq!(total_amount(&kept), Some(3));
}

#[test]
fn substring_search() {
    assert!(contains("CashIB", "Cash"));
    assert!(!contains("Cas", "Cash"));
    assert!(contains("x", ""));
}
