use vstd::prelude::*;

verus! {

/// Every way in which configuration, a row, or a rate lookup can fail.
#[derive(Debug, Clone, Copy, PartialEq, Eq, Structural)]
pub enum PipelineError {
    /// A column name that the header row does not hold.
    UnknownColumn,
    /// A column reference that is not a non-negative integer (no header row).
    InvalidColumnIndex,
    /// A filter expression without `=`.
    MalformedFilter,
    /// A filter pattern that is not a valid regular expression.
    InvalidPattern,
    /// The row has no field at the date column.
    MissingDateField,
    /// The date field does not parse under the input format.
    DateParseError,
    /// The output date format could not render the date.
    DateFormatError,
    /// No rate is known for the row's date (its fetch failed).
    RateUnavailable,
    /// The row is too short for the rate to go after the insert-after column.
    InsertPositionOutOfRange,
    /// The request for a rate did not complete.
    NetworkError,
    /// The remote source answered with a non-success status.
    UnexpectedStatus(u16),
    /// The response holds no line for the currency.
    CurrencyNotFound,
    /// The currency's rate is not a decimal number.
    MalformedResponse,
}

} // verus!
