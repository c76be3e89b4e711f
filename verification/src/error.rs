//! The faults that the analysis reports.

use crate::text::{decimal, push_decimal, push_str, string_of};
use vstd::prelude::*;

verus! {

/// A fault in the data that the analysis was given.
#[derive(Debug, Clone, Copy, PartialEq, Eq)]
pub enum Error {
    /// The identifier of the event at `position` does not follow the grammar
    /// that its kind of event calls for.
    MalformedIdentifier { position: usize },
}

/// The text that describes a malformed identifier at `position`.
pub open spec fn malformed_identifier_text(position: nat) -> Seq<char> {
    "malformed identifier in the event at position "@ + decimal(position)
}

impl Error {
    /// The text that describes the fault.
    pub open spec fn text(self) -> Seq<char> {
        match self {
            Error::MalformedIdentifier { position } => malformed_identifier_text(position as nat),
        }
    }

    /// A description of the fault for a reader.
    pub fn describe(&self) -> (s: String)
        ensures
            s@ == self.text(),
    {
        match self {
            Error::MalformedIdentifier { position } => {
                let mut out: Vec<char> = Vec::new();
                push_str(&mut out, "malformed identifier in the event at position ");
                push_decimal(&mut out, *position as u128);
                string_of(&out)
            },
        }
    }
}

} // verus!
