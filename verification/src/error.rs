//! The error taxonomy: everything that can go wrong while turning a line of
//! text into an expression tree.  Errors are terminal for the current
//! expression only and never corrupt the variable environment.

use vstd::prelude::*;
use vstd::string::StringExecFns;
use crate::parser::Operator;

verus! {

/// A parse error.  Each variant records what the caller needs for a
/// diagnostic: the offending text, or the operator whose reduction failed.
#[derive(Debug)]
pub enum Error {
    /// A malformed numeric literal; carries the full original token text.
    NumParseError(String),
    /// An unrecognised symbol run; carries the run.
    OperatorParseError(String),
    /// An operator could not find two operands to reduce.
    ExprParseError(Operator),
    /// The final stack did not collapse to exactly one operand.
    ExprTermsError,
    /// A closing parenthesis with no matching open one.
    UnmatchedParenthError,
}

/// The mathematical shadow of [`Error`]: the same tags over character
/// sequences.
pub enum ErrorModel {
    NumParseError(Seq<char>),
    OperatorParseError(Seq<char>),
    ExprParseError(Operator),
    ExprTermsError,
    UnmatchedParenthError,
}

impl View for Error {
    type V = ErrorModel;

    open spec fn view(&self) -> ErrorModel {
        match self {
            Error::NumParseError(s) => ErrorModel::NumParseError(s@),
            Error::OperatorParseError(s) => ErrorModel::OperatorParseError(s@),
            Error::ExprParseError(op) => ErrorModel::ExprParseError(*op),
            Error::ExprTermsError => ErrorModel::ExprTermsError,
            Error::UnmatchedParenthError => ErrorModel::UnmatchedParenthError,
        }
    }
}

/// The diagnostic line of each error.
pub open spec fn error_text(e: ErrorModel) -> Seq<char> {
    match e {
        ErrorModel::NumParseError(s) => "Could not parse number "@ + s,
        ErrorModel::OperatorParseError(s) => "Unknown operator "@ + s,
        ErrorModel::ExprParseError(op) => "Could not parse "@ + crate::parser::op_symbol(op)
            + " expression"@,
        ErrorModel::ExprTermsError => "Incorrect terms found in expression"@,
        ErrorModel::UnmatchedParenthError => "Unmatched parenthesis in expression"@,
    }
}

impl Error {
    /// The diagnostic line of this error, per [`error_text`].
    pub fn describe(&self) -> (s: String)
        ensures
            s@ == error_text(self@),
    {
        match self {
            Error::NumParseError(t) => {
                let mut s = String::from_str("Could not parse number ");
                s.append(t.as_str());
                s
            },
            Error::OperatorParseError(t) => {
                let mut s = String::from_str("Unknown operator ");
                s.append(t.as_str());
                s
            },
            Error::ExprParseError(op) => {
                let mut s = String::from_str("Could not parse ");
                crate::parser::push_op_symbol(&mut s, *op);
                s.append(" expression");
                s
            },
            Error::ExprTermsError => String::from_str("Incorrect terms found in expression"),
            Error::UnmatchedParenthError => String::from_str(
                "Unmatched parenthesis in expression",
            ),
        }
    }
}

} // verus!
