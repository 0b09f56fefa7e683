//! The errors that the wire conversion reports to Codex.

use vstd::prelude::*;

verus! {

/// An error handed back to the turn loop.
#[derive(Debug)]
pub enum WireError {
    /// The request could not be made: bad configuration or input (`CodexErr::InvalidRequest`).
    InvalidRequest(String),
    /// The response stream failed (`CodexErr::Stream`, without a retry delay).
    Stream(String),
}

/// A `WireError` by its message text.
pub enum SpecWireError {
    InvalidRequest(Seq<char>),
    Stream(Seq<char>),
}

impl View for WireError {
    type V = SpecWireError;

    open spec fn view(&self) -> SpecWireError {
        match self {
            WireError::InvalidRequest(m) => SpecWireError::InvalidRequest(m@),
            WireError::Stream(m) => SpecWireError::Stream(m@),
        }
    }
}

impl WireError {
    /// The message text of the error.
    pub fn message(&self) -> (s: String)
        ensures
            s@ == match self@ {
                SpecWireError::InvalidRequest(m) => m,
                SpecWireError::Stream(m) => m,
            },
    {
        match self {
            WireError::InvalidRequest(m) => m.clone(),
            WireError::Stream(m) => m.clone(),
        }
    }
}

} // verus!
