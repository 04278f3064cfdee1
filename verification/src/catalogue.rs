//! The catalogue service's domain: registered users with a preferred
//! currency, the parsing of a currency name, and the status code each
//! error answers with.

use vstd::prelude::*;

use crate::utils::str_eq;

verus! {

#[derive(Debug, Clone, Copy, PartialEq, Eq, Structural)]
pub enum Currency {
    Eur,
    Usd,
    Rub,
}

/// A registered user and the currency their prices are shown in.
#[derive(Debug, Clone, PartialEq, Eq)]
pub struct User {
    pub username: String,
    pub preferred_currency: Currency,
}

/// The catalogue service's errors.
#[derive(Debug, PartialEq, Eq)]
pub enum MyError {
    UserCreationError,
    ItemInsertError,
    UnsupportedCurrency,
    ServerError(String),
    UserNotFound,
}

impl MyError {
    /// The HTTP status code each error answers with: unprocessable entity
    /// for refused input, unauthorized for a missing user, internal error
    /// for the rest.
    pub fn status_code(&self) -> (r: u16)
        ensures
            r == self.spec_status_code(),
    {
        match self {
            MyError::UserCreationError => 422,
            MyError::UnsupportedCurrency => 422,
            MyError::ItemInsertError => 422,
            MyError::ServerError(_) => 500,
            MyError::UserNotFound => 401,
        }
    }

    pub open spec fn spec_status_code(&self) -> u16 {
        match self {
            MyError::UserCreationError => 422,
            MyError::UnsupportedCurrency => 422,
            MyError::ItemInsertError => 422,
            MyError::ServerError(_) => 500,
            MyError::UserNotFound => 401,
        }
    }
}

/// Which currency a request names.
pub open spec fn spec_parse_currency(s: Seq<char>) -> Option<Currency> {
    if s == "eur"@ {
        Some(Currency::Eur)
    } else if s == "usd"@ {
        Some(Currency::Usd)
    } else if s == "rub"@ {
        Some(Currency::Rub)
    } else {
        None
    }
}

/// Reads a currency name from a request path; anything but the three known
/// names is refused as `UnsupportedCurrency`.
pub fn parse_currency(s: &str) -> (r: Result<Currency, MyError>)
    ensures
        match spec_parse_currency(s@) {
            Some(c) => r matches Ok(v) && v == c,
            None => r is Err && (r matches Err(e) ==> e is UnsupportedCurrency),
        },
{
    if str_eq(s, "eur") {
        Ok(Currency::Eur)
    } else if str_eq(s, "usd") {
        Ok(Currency::Usd)
    } else if str_eq(s, "rub") {
        Ok(Currency::Rub)
    } else {
        Err(MyError::UnsupportedCurrency)
    }
}

} // verus!
