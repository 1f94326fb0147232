use vstd::prelude::*;

verus! {

/// Kind of a ledger event.
#[derive(Clone, Copy, Debug, PartialEq, Eq, Structural)]
pub enum TradeType {
    Buy,
    Sell,
    TrIn,
    Div,
    TrOut,
    Split,
}

/// One row of the trade ledger. Quantities are fixed-point (six decimals);
/// `date` is seconds since the Unix epoch, at midnight UTC.
pub struct Trade {
    pub account: String,
    pub date: i64,
    pub kind: TradeType,
    pub stock: String,
    pub units: i128,
    pub price: Option<i128>,
    pub fees: Option<i128>,
    pub split: i128,
    pub currency: i128,
}

/// One instrument of the registry.
pub struct Stocks {
    pub name: String,
    pub asset: String,
    pub group: String,
    pub tags: String,
    pub riskyness: String,
    pub ticker: Option<String>,
    pub tradedcurrency: String,
    pub currencyunderlying: String,
}

/// One quote of the price snapshot: fixed-point price, date in seconds
/// since the Unix epoch.
pub struct PriceLine {
    pub ticker: String,
    pub price: i128,
    pub date: i64,
}

/// A position: what is held of one instrument and what it cost, brought,
/// paid out and is worth. Money is fixed-point in the base currency;
/// `amount_perc` is the share of the portfolio, fixed-point too (one whole
/// unit is everything).
pub struct PortLine {
    pub ticker: Option<String>,
    pub name: String,
    pub currency: String,
    pub asset: String,
    pub group: String,
    pub tags: String,
    pub riskyness: String,
    pub units: i128,
    pub price: i128,
    pub error: String,
    pub amount_usd: i128,
    pub amount_perc: i128,
    pub cost_usd: i128,
    pub revenue_usd: i128,
    pub divs_usd: i128,
    pub fees_usd: i128,
}

/// Which of the store's tables a parse error comes from.
#[derive(Clone, Copy, Debug, PartialEq, Eq, Structural)]
pub enum Table {
    Stocks,
    Trades,
    Prices,
}

/// What went wrong, as a value a contract can speak of.
pub enum Fault {
    NotTabular(Table),
    MissingColumn(Table),
    BadRow(Table, nat),
    UnknownInstrument(Seq<char>),
    UnknownCashAccount(Seq<char>),
    UnwritableTicker(Seq<char>),
    Overflow,
}

/// Errors of the ledger engine.
pub enum StoreError {
    /// The table text could not be split into records.
    NotTabular { table: Table },
    /// The header row lacks a column the table requires.
    MissingColumn { table: Table },
    /// A field of the record at `row` (0 is the first record after the
    /// header) cannot be read as its type.
    BadRow { table: Table, row: usize },
    /// A trade names an instrument the registry does not hold.
    UnknownInstrument { name: String },
    /// A trade needs the cash instrument `name`, which the registry does not hold.
    UnknownCashAccount { name: String },
    /// A quote's symbol holds a character that the snapshot file cannot
    /// carry (whitespace or `"`), or starts with `#`.
    UnwritableTicker { ticker: String },
    /// A value left the range of the fixed-point representation.
    Overflow,
}

impl View for StoreError {
    type V = Fault;

    open spec fn view(&self) -> Fault {
        match self {
            StoreError::NotTabular { table } => Fault::NotTabular(*table),
            StoreError::MissingColumn { table } => Fault::MissingColumn(*table),
            StoreError::BadRow { table, row } => Fault::BadRow(*table, *row as nat),
            StoreError::UnknownInstrument { name } => Fault::UnknownInstrument(name@),
            StoreError::UnknownCashAccount { name } => Fault::UnknownCashAccount(name@),
            StoreError::UnwritableTicker { ticker } => Fault::UnwritableTicker(ticker@),
            StoreError::Overflow => Fault::Overflow,
        }
    }
}

impl TradeType {
    /// The kind that a ledger's `Type` column names, if any.
    pub open spec fn spec_parse(s: Seq<char>) -> Option<TradeType> {
        if s == seq!['B', 'u', 'y'] {
            Some(TradeType::Buy)
        } else if s == seq!['S', 'e', 'l', 'l'] {
            Some(TradeType::Sell)
        } else if s == seq!['T', 'r', 'I', 'n'] {
            Some(TradeType::TrIn)
        } else if s == seq!['D', 'i', 'v'] {
            Some(TradeType::Div)
        } else if s == seq!['T', 'r', 'O', 'u', 't'] {
            Some(TradeType::TrOut)
        } else if s == seq!['S', 'p', 'l', 'i', 't'] {
            Some(TradeType::Split)
        } else {
            None
        }
    }

    /// Reads a kind from its name in the ledger.
    pub fn parse(s: &str) -> (r: Option<TradeType>)
        ensures
            r == TradeType::spec_parse(s@),
    {
        proof {
            reveal_strlit("Buy");
            assert("Buy"@ =~= seq!['B', 'u', 'y']);
            reveal_strlit("Sell");
            assert("Sell"@ =~= seq!['S', 'e', 'l', 'l']);
            reveal_strlit("TrIn");
            assert("TrIn"@ =~= seq!['T', 'r', 'I', 'n']);
            reveal_strlit("Div");
            assert("Div"@ =~= seq!['D', 'i', 'v']);
            reveal_strlit("TrOut");
            assert("TrOut"@ =~= seq!['T', 'r', 'O', 'u', 't']);
            reveal_strlit("Split");
            assert("Split"@ =~= seq!['S', 'p', 'l', 'i', 't']);
        }
        if crate::text::str_eq(s, "Buy") {
            Some(TradeType::Buy)
        } else if crate::text::str_eq(s, "Sell") {
            Some(TradeType::Sell)
        } else if crate::text::str_eq(s, "TrIn") {
            Some(TradeType::TrIn)
        } else if crate::text::str_eq(s, "Div") {
            Some(TradeType::Div)
        } else if crate::text::str_eq(s, "TrOut") {
            Some(TradeType::TrOut)
        } else if crate::text::str_eq(s, "Split") {
            Some(TradeType::Split)
        } else {
            None
        }
    }

    /// The name of the kind, padded to five characters for tables.
    pub fn label(&self) -> (r: &'static str)
        ensures
            r@.len() == 5,
            match *self {
            TradeType::Buy => r@ == seq!['B', 'u', 'y', ' ', ' '],
            TradeType::Sell => r@ == seq!['S', 'e', 'l', 'l', ' '],
            TradeType::TrIn => r@ == seq!['T', 'r', 'I', 'n', ' '],
            TradeType::TrOut => r@ == seq!['T', 'r', 'O', 'u', 't'],
            TradeType::Split => r@ == seq!['S', 'p', 'l', 'i', 't'],
            TradeType::Div => r@ == seq!['D', 'i', 'v', ' ', ' '],
            },
    {
        proof {
            reveal_strlit("Buy  ");
            assert("Buy  "@ =~= seq!['B', 'u', 'y', ' ', ' ']);
            reveal_strlit("Sell ");
            assert("Sell "@ =~= seq!['S', 'e', 'l', 'l', ' ']);
            reveal_strlit("TrIn ");
            assert("TrIn "@ =~= seq!['T', 'r', 'I', 'n', ' ']);
            reveal_strlit("TrOut");
            assert("TrOut"@ =~= seq!['T', 'r', 'O', 'u', 't']);
            reveal_strlit("Split");
            assert("Split"@ =~= seq!['S', 'p', 'l', 'i', 't']);
            reveal_strlit("Div  ");
            assert("Div  "@ =~= seq!['D', 'i', 'v', ' ', ' ']);
        }
        match self {
            TradeType::Buy => "Buy  ",
            TradeType::Sell => "Sell ",
            TradeType::TrIn => "TrIn ",
            TradeType::TrOut => "TrOut",
            TradeType::Split => "Split",
            TradeType::Div => "Div  ",
        }
    }
}

} // verus!
