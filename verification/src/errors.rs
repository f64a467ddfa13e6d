use vstd::prelude::*;

verus! {

/// The error taxonomy of the document tree.
///
/// `OutOfRange` reports access through an unknown node id; `UrlParse`
/// reports a malformed base or resource URL; `StylesheetParse` reports a
/// stylesheet rule that had to be dropped; `Structure` reports a tree that
/// lacks the root element an operation needs.
#[derive(Clone, Copy, Debug, PartialEq, Eq, Structural)]
pub enum DocError {
    OutOfRange,
    UrlParse,
    StylesheetParse,
    Structure,
}

impl DocError {
    /// A short human-readable description of the error.
    pub fn describe(&self) -> (r: &'static str)
        ensures
            r@ == self.spec_describe(),
    {
        match self {
            DocError::OutOfRange => "unknown node id",
            DocError::UrlParse => "malformed URL",
            DocError::StylesheetParse => "malformed stylesheet rule",
            DocError::Structure => "document has no root element",
        }
    }

    pub open spec fn spec_describe(self) -> Seq<char> {
        match self {
            DocError::OutOfRange => "unknown node id"@,
            DocError::UrlParse => "malformed URL"@,
            DocError::StylesheetParse => "malformed stylesheet rule"@,
            DocError::Structure => "document has no root element"@,
        }
    }
}

} // verus!
