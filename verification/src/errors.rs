//! The error taxonomy of the consensus and ledger operations.

use crate::text::{dec_rep, u64_to_string};
use vstd::prelude::*;
use vstd::string::StringExecFns;

verus! {

/// Failures surfaced by the consensus strategies and block application.
#[derive(Debug, PartialEq)]
pub enum AppError {
    /// A vote or selection referenced an unknown delegate id.
    DelegateNotFound(u64),
    /// A generic wrapped failure surfaced from block application.
    TransactionError(String),
    /// A selection was attempted against an empty delegate registry.
    NoDelegates,
}

/// The human-readable description of an error.
pub open spec fn spec_message(e: AppError) -> Seq<char> {
    match e {
        AppError::DelegateNotFound(id) => "Делегат с id "@ + dec_rep(id as nat)
            + " не найден"@,
        AppError::TransactionError(m) => "Ошибка транзакции: "@ + m@,
        AppError::NoDelegates => "Нет делегатов"@,
    }
}

impl AppError {
    /// Renders the error as text.
    pub fn message(&self) -> (r: String)
        ensures
            r@ == spec_message(*self),
    {
        match self {
            AppError::DelegateNotFound(id) => {
                let mut s = String::from_str("Делегат с id ");
                let n = u64_to_string(*id);
                s.append(n.as_str());
                s.append(" не найден");
                s
            },
            AppError::TransactionError(m) => {
                let mut s = String::from_str("Ошибка транзакции: ");
                s.append(m.as_str());
                s
            },
            AppError::NoDelegates => String::from_str("Нет делегатов"),
        }
    }
}

} // verus!
