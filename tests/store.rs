use lupo::model::StoreError;
use lupo::store::{Store, STOCKS_HEADER, TRADES_HEADER};

fn fresh_store() -> Store {
    Store {
        stocks_text: format!("{}\n", STOCKS_HEADER),
        trades_text: format!("{}\n", TRADES_HEADER),
        prices_text: String::new(),
    }
}

fn append_line(text: &mut String, line: &str) {
    text.push_str(line);
    text.push('\n');
}

#[test]
fn can_init_not_existing_store() {
    let store = fresh_store();
    let (ct, cs) = store.check().ok().unwrap();
    assert_eq!(0, ct);
    assert_eq!(0, cs);
}

#[test]
fn can_init_existing_store() {
    let mut store = fresh_store();
    let new_trade = "IB\t2015/04/27\tTrIn\tCashIB\t1335387\t1\t0\t1\t1";
    append_line(&mut store.trades_text, new_trade);
    let (ct, cs) = store.check().ok().unwrap();
    assert_eq!(1, ct);
    assert_eq!(0, cs);

    // opening the same files again keeps the trade
    let reopened = Store {
        stocks_text: store.stocks_text.clone(),
        trades_text: store.trades_text.clone(),
        prices_text: store.prices_text.clone(),
    };
    let (ct, cs) = reopened.check().ok().unwrap();
    assert_eq!(1, ct);
    assert_eq!(0, cs);
}

#[test]
fn can_init_forcefully_existing_store() {
    let mut store = fresh_store();
    let new_trade = "IB\t2015/04/27\tTrIn\tCashIB\t1335387\t1\t0\t1\t1";
    append_line(&mut store.trades_text, new_trade);
    let (ct, cs) = store.check().ok().unwrap();
    assert_eq!(1, ct);
    assert_eq!(0, cs);

    // a forced init starts from empty files again
    let store = fresh_store();
    let (ct, cs) = store.check().ok().unwrap();
    assert_eq!(0, ct);
    assert_eq!(0, cs);
}

#[test]
fn check_err_if_invalid_trade() {
    let mut store = fresh_store();
    let new_trade = "IB\t2015/04/27\tXTrIn\tCashIB\t1335387\t1\t0\t1\t1";
    append_line(&mut store.trades_text, new_trade);
    let r = store.check();
    assert_eq!(true, r.is_err());
    assert!(matches!(r, Err(StoreError::BadRow { row: 0, .. })));
}
