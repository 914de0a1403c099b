use vstd::prelude::*;
use vstd::string::StringExecFns;

verus! {

/// Every failure that the library reports.
#[derive(Debug, Clone, PartialEq, Eq)]
pub enum AppError {
    MissingFileArgument,
    InvalidFileFormat,
    TooManyArguments,
    WrongArgument(String),
    InvalidTransactionFundAmount,
    NotEnoughFunds,
    AccountLocked,
    DuplicateRecord,
    DisputeAlreadyExists,
    /// A credit would carry a balance past the largest representable amount.
    BalanceOverflow,
    /// An input row whose fields do not describe a record.
    MalformedRecord,
}

impl AppError {
    /// The sentence that describes this error to a user.
    pub open spec fn message_text(&self) -> Seq<char> {
        match self {
            AppError::MissingFileArgument => "File argument is missing"@,
            AppError::InvalidFileFormat => "Invalid file format"@,
            AppError::TooManyArguments => "Too many arguments provided"@,
            AppError::WrongArgument(arg) => "Wrong argument provided: "@ + arg@,
            AppError::InvalidTransactionFundAmount => "Invalid amount for transaction"@,
            AppError::NotEnoughFunds => "Not enough funds for transaction"@,
            AppError::AccountLocked => "Account is locked"@,
            AppError::DuplicateRecord => "Duplicate transaction record"@,
            AppError::DisputeAlreadyExists => "Dispute already exists for this transaction"@,
            AppError::BalanceOverflow => "Balance would exceed the largest amount"@,
            AppError::MalformedRecord => "Malformed transaction record"@,
        }
    }

    /// The sentence that describes this error to a user.
    pub fn message(&self) -> (r: String)
        ensures
            r@ == self.message_text(),
    {
        match self {
            AppError::MissingFileArgument => String::from_str("File argument is missing"),
            AppError::InvalidFileFormat => String::from_str("Invalid file format"),
            AppError::TooManyArguments => String::from_str("Too many arguments provided"),
            AppError::WrongArgument(arg) => String::from_str("Wrong argument provided: ").concat(arg.as_str()),
            AppError::InvalidTransactionFundAmount => String::from_str("Invalid amount for transaction"),
            AppError::NotEnoughFunds => String::from_str("Not enough funds for transaction"),
            AppError::AccountLocked => String::from_str("Account is locked"),
            AppError::DuplicateRecord => String::from_str("Duplicate transaction record"),
            AppError::DisputeAlreadyExists => String::from_str("Dispute already exists for this transaction"),
            AppError::BalanceOverflow => String::from_str("Balance would exceed the largest amount"),
            AppError::MalformedRecord => String::from_str("Malformed transaction record"),
        }
    }
}

} // verus!
