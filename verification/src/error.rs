//! What can go wrong in the library: a malformed entry, or no address on the
//! local network.

use vstd::prelude::*;
use vstd::string::*;

verus! {

/// A failure that ends the command that met it.
#[derive(Debug, Clone, PartialEq, Eq)]
pub enum DotLocalError {
    /// The entry holds no `:`, so it names no port.
    MissingPort { entry: String },
    /// What follows the first `:` of the entry is no 32-bit integer.
    InvalidPort { entry: String },
    /// The address of this host on the local network could not be found.
    NoLanAddress,
}

/// An error as a mathematical value.
pub enum ErrorView {
    MissingPort { entry: Seq<char> },
    InvalidPort { entry: Seq<char> },
    NoLanAddress,
}

impl View for DotLocalError {
    type V = ErrorView;

    open spec fn view(&self) -> ErrorView {
        match self {
            DotLocalError::MissingPort { entry } => ErrorView::MissingPort { entry: entry@ },
            DotLocalError::InvalidPort { entry } => ErrorView::InvalidPort { entry: entry@ },
            DotLocalError::NoLanAddress => ErrorView::NoLanAddress,
        }
    }
}

/// The message that describes `error` to the user; an input error ends with
/// the offending entry.
pub open spec fn message(error: ErrorView) -> Seq<char> {
    match error {
        ErrorView::MissingPort { entry } => "entry should be <domain>[/<path>]:<port>: "@ + entry,
        ErrorView::InvalidPort { entry } => "port part should be a number: "@ + entry,
        ErrorView::NoLanAddress => "no address of this host on the local network was found"@,
    }
}

impl DotLocalError {
    /// The message that describes this error to the user.
    pub fn message(&self) -> (text: String)
        ensures
            text@ == message(self@),
    {
        match self {
            DotLocalError::MissingPort { entry } => {
                let mut text = String::from_str("entry should be <domain>[/<path>]:<port>: ");
                text.append(entry.as_str());
                text
            },
            DotLocalError::InvalidPort { entry } => {
                let mut text = String::from_str("port part should be a number: ");
                text.append(entry.as_str());
                text
            },
            DotLocalError::NoLanAddress => String::from_str(
                "no address of this host on the local network was found",
            ),
        }
    }
}

} // verus!
