use vstd::prelude::*;

verus! {

/// The operations the program offers; reading them from the command line
/// is left to the binary.
pub enum SubCommand {
    /// Initialize the portfolio directory (`force` wipes an existing one).
    Init { force: bool },
    /// Check that all portfolio files are well formed.
    Check {},
    /// List the trades whose instrument name contains the substring.
    Trades { edit: bool, name_substring: Option<String> },
    /// List the instruments whose name contains the substring.
    Stocks { edit: bool, name_substring: Option<String> },
    /// List the positions, closed ones too with `all`.
    Port { all: bool, separate_cash: bool, sort_by: Option<SortField> },
    /// Report the exposure grouped along one dimension.
    Report { report_type: ReportType },
    /// Refresh the price snapshot.
    UpdatePrices {},
    /// Total value of the portfolio.
    Total {},
}

/// Field to sort positions on.
#[derive(Clone, Copy, Debug, PartialEq, Eq, Structural)]
pub enum SortField {
    Ticker,
    Name,
    Amount,
    Currency,
    Asset,
    Group,
    Tags,
    Riskyness,
    Gain,
    Tax,
}

/// Dimension along which a report groups positions.
#[derive(Clone, Copy, Debug, PartialEq, Eq, Structural)]
pub enum ReportType {
    /// By currency
    Currency,
    /// By asset type
    Asset,
    /// By group
    Group,
    /// By level of risk
    Riskyness,
    /// By tags (user defined)
    Tags,
}

} // verus!
