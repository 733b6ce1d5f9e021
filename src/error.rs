//! The errors of reading an amount, and their messages.
use vstd::prelude::*;
use vstd::string::StringExecFns;

verus! {

/// Why a decimal literal could not be read as a whole number of atomic units.
#[derive(Debug, Clone, PartialEq, Eq)]
pub enum DecimalNumberParsingError {
    /// The literal is not digits with at most one `.`, and at least one digit.
    InvalidNumber(String),
    /// The whole part, once scaled, does not fit in 128 bits.
    LongWhole(String),
    /// The fractional part has more digits than the unit can represent.
    LongFractional(String),
}

/// Why a text could not be read as an amount of NEAR.
#[derive(Debug, Clone, PartialEq, Eq)]
pub enum NearTokenError {
    /// The number in front of the unit was rejected.
    InvalidTokensAmount(DecimalNumberParsingError),
    /// The unit is missing or not one that is known.
    InvalidTokenUnit(String),
}

impl DecimalNumberParsingError {
    /// The message that describes the error to a person.
    pub open spec fn message(&self) -> Seq<char> {
        match self {
            DecimalNumberParsingError::InvalidNumber(t) => "invalid number: "@ + t@,
            DecimalNumberParsingError::LongWhole(t) => "too long whole part: "@ + t@,
            DecimalNumberParsingError::LongFractional(t) => "too long fractional part: "@ + t@,
        }
    }

    /// Renders the error as its message.
    pub fn to_string(&self) -> (r: String)
        ensures
            r@ == self.message(),
    {
        let (mut r, t) = match self {
            DecimalNumberParsingError::InvalidNumber(t) => (String::from_str("invalid number: "), t),
            DecimalNumberParsingError::LongWhole(t) => (String::from_str("too long whole part: "), t),
            DecimalNumberParsingError::LongFractional(t) => (
                String::from_str("too long fractional part: "),
                t,
            ),
        };
        r.append(t.as_str());
        r
    }
}

impl NearTokenError {
    /// The message that describes the error to a person.
    pub open spec fn message(&self) -> Seq<char> {
        match self {
            NearTokenError::InvalidTokensAmount(e) => "invalid tokens amount: "@ + e.message(),
            NearTokenError::InvalidTokenUnit(u) => "invalid token unit: "@ + u@,
        }
    }

    /// Renders the error as its message.
    pub fn to_string(&self) -> (r: String)
        ensures
            r@ == self.message(),
    {
        match self {
            NearTokenError::InvalidTokensAmount(e) => {
                let mut r = String::from_str("invalid tokens amount: ");
                let m = e.to_string();
                r.append(m.as_str());
                r
            },
            NearTokenError::InvalidTokenUnit(u) => {
                let mut r = String::from_str("invalid token unit: ");
                r.append(u.as_str());
                r
            },
        }
    }
}

} // verus!
