//! The two-tier error taxonomy: schema errors (`BadAttribute`) raised when a
//! registration violates the grammar rules, and input-grammar errors
//! (`ArgpxNotAllowed`) raised when the input text uses a syntactic form the
//! schema forbids.

use vstd::prelude::*;

use crate::attribute::Attribute;

verus! {

/// An error of the parsing engine.
#[derive(Copy, Clone, PartialEq, Eq, Debug)]
pub enum Error {
    /// A schema error: an invalid attribute combination or a schema/type
    /// mismatch, detected when a flag is registered or when a declared
    /// numeric value fails to parse.
    BadAttribute(&'static str),
    /// An input-grammar error: the input used a syntactic form the named
    /// attribute forbids.
    ArgpxNotAllowed(Attribute),
}

/// The mathematical shape of an [`Error`].
#[verifier::ext_equal]
pub ghost enum ErrorV {
    BadAttribute(Seq<char>),
    ArgpxNotAllowed(Attribute),
}

impl View for Error {
    type V = ErrorV;

    open spec fn view(&self) -> ErrorV {
        match *self {
            Error::BadAttribute(s) => ErrorV::BadAttribute(s@),
            Error::ArgpxNotAllowed(a) => ErrorV::ArgpxNotAllowed(a),
        }
    }
}

/// The name of an attribute, as text.
pub open spec fn spec_attribute_name(a: Attribute) -> Seq<char> {
    match a {
        Attribute::Composable => "Composable"@,
        Attribute::CompactValue => "CompactValue"@,
        Attribute::CompactArg => "CompactArg"@,
        Attribute::NoAssigner => "NoAssigner"@,
        Attribute::NoSparseAssign => "NoSparseAssign"@,
    }
}

/// The rendering of an error as text.
pub open spec fn spec_describe(e: ErrorV) -> Seq<char> {
    match e {
        ErrorV::BadAttribute(reason) => "bad attribute: "@ + reason,
        ErrorV::ArgpxNotAllowed(a) => "not allowed style, "@ + spec_attribute_name(a) + " is set"@,
    }
}

/// The name of an attribute.
pub fn attribute_name(a: Attribute) -> (r: &'static str)
    ensures
        r@ == spec_attribute_name(a),
{
    match a {
        Attribute::Composable => "Composable",
        Attribute::CompactValue => "CompactValue",
        Attribute::CompactArg => "CompactArg",
        Attribute::NoAssigner => "NoAssigner",
        Attribute::NoSparseAssign => "NoSparseAssign",
    }
}

impl Error {
    /// A human-readable rendering of the error.
    pub fn describe(&self) -> (r: String)
        ensures
            r@ == spec_describe(self@),
    {
        match *self {
            Error::BadAttribute(reason) => {
                let mut out = String::new();
                out.append("bad attribute: ");
                out.append(reason);
                proof {
                    assert(out@ =~= "bad attribute: "@ + reason@);
                }
                out
            },
            Error::ArgpxNotAllowed(a) => {
                let mut out = String::new();
                out.append("not allowed style, ");
                out.append(attribute_name(a));
                out.append(" is set");
                proof {
                    assert(out@ =~= "not allowed style, "@ + spec_attribute_name(a)
                        + " is set"@);
                }
                out
            },
        }
    }
}

} // verus!
