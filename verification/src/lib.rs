//! Schema-driven command-line argument parsing.
//!
//! A [`style::Style`] describes one or more flag dialects (prefix, assigner,
//! delimiter, grammar attributes), a set of [`flag::Flag`] registrations maps
//! flag names to typed result slots, and a [`parser::Parser`] consumes a raw
//! token sequence, writing values into the registered slots and collecting
//! the leftover tokens as positionals.
//!
//! The items at the crate root serve a host embedding: a stable numeric
//! status for each parse outcome, and an owned string wrapper whose contents
//! cross the embedding boundary.

pub mod attribute;
pub mod flag;
pub mod parser;
pub mod results;
pub mod strutil;
pub mod style;

use vstd::prelude::*;

use crate::attribute::Attribute;
use crate::parser::Parsed;
use crate::results::Error;

verus! {

/// The outcome category of a parse, as a stable status for a host
/// embedding.
#[derive(Copy, Clone, PartialEq, Eq, Structural, Debug)]
pub enum ArgpxStatus {
    Okay,
    BadAttribute,
    NotAllowedSparseAssign,
    NotAllowedAssigner,
    InvalidParameters,
}

impl ArgpxStatus {
    /// The numeric code a host reads: success is zero, each failure
    /// category a small positive number.
    pub fn code(&self) -> (r: i32)
        ensures
            r == match *self {
                ArgpxStatus::Okay => 0int,
                ArgpxStatus::BadAttribute => 1int,
                ArgpxStatus::NotAllowedSparseAssign => 2int,
                ArgpxStatus::NotAllowedAssigner => 3int,
                ArgpxStatus::InvalidParameters => 4int,
            },
    {
        match *self {
            ArgpxStatus::Okay => 0,
            ArgpxStatus::BadAttribute => 1,
            ArgpxStatus::NotAllowedSparseAssign => 2,
            ArgpxStatus::NotAllowedAssigner => 3,
            ArgpxStatus::InvalidParameters => 4,
        }
    }

    /// The status of a parse outcome. The engine only ever raises
    /// `ArgpxNotAllowed` with `NoAssigner` or `NoSparseAssign`; any other
    /// attribute there is a caller error, left out by contract.
    pub fn of_result(r: &Result<Parsed, Error>) -> (s: ArgpxStatus)
        requires
            match *r {
                Result::Err(Error::ArgpxNotAllowed(a)) => a == Attribute::NoAssigner || a
                    == Attribute::NoSparseAssign,
                _ => true,
            },
        ensures
            s == match *r {
                Result::Ok(_) => ArgpxStatus::Okay,
                Result::Err(Error::BadAttribute(_)) => ArgpxStatus::BadAttribute,
                Result::Err(Error::ArgpxNotAllowed(a)) => if a == Attribute::NoAssigner {
                    ArgpxStatus::NotAllowedAssigner
                } else {
                    ArgpxStatus::NotAllowedSparseAssign
                },
            },
    {
        match r {
            Result::Ok(_) => ArgpxStatus::Okay,
            Result::Err(Error::BadAttribute(_)) => ArgpxStatus::BadAttribute,
            Result::Err(Error::ArgpxNotAllowed(a)) => match a {
                Attribute::NoAssigner => ArgpxStatus::NotAllowedAssigner,
                _ => ArgpxStatus::NotAllowedSparseAssign,
            },
        }
    }
}

/// An owned string whose contents cross the embedding boundary.
pub struct ArgpxString(pub String);

impl ArgpxString {
    /// The wrapped string, surrendered to the caller.
    pub fn into_string(self) -> (r: String)
        ensures
            r@ == self.0@,
    {
        self.0
    }

    /// The length of the wrapped string in characters.
    pub fn length(&self) -> (r: usize)
        ensures
            r == self.0@.len(),
    {
        self.0.as_str().unicode_len()
    }
}

impl From<String> for ArgpxString {
    fn from(value: String) -> (r: ArgpxString)
        ensures
            r.0@ == value@,
    {
        ArgpxString(value)
    }
}

impl vstd::std_specs::convert::FromSpecImpl<String> for ArgpxString {
    open spec fn obeys_from_spec() -> bool {
        true
    }

    open spec fn from_spec(v: String) -> Self {
        ArgpxString(v)
    }
}

} // verus!
