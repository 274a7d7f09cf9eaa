//! Faults and their texts.

use crate::text::cat2;
use vstd::prelude::*;

verus! {

/// What can go wrong in a backend, with the text that describes it.
#[derive(Debug)]
pub enum TinyAgentError {
    Backend(String),
    Configuration(String),
    Unsupported(String),
}

/// The mathematical value of a `TinyAgentError`.
pub enum Fault {
    Backend(Seq<char>),
    Configuration(Seq<char>),
    Unsupported(Seq<char>),
}

impl View for TinyAgentError {
    type V = Fault;

    open spec fn view(&self) -> Fault {
        match self {
            TinyAgentError::Backend(text) => Fault::Backend(text@),
            TinyAgentError::Configuration(text) => Fault::Configuration(text@),
            TinyAgentError::Unsupported(text) => Fault::Unsupported(text@),
        }
    }
}

/// The text shown to a user for a fault.
pub open spec fn fault_message(fault: Fault) -> Seq<char> {
    match fault {
        Fault::Backend(text) => "backend error: "@ + text,
        Fault::Configuration(text) => "configuration error: "@ + text,
        Fault::Unsupported(text) => "unsupported feature: "@ + text,
    }
}

impl TinyAgentError {
    /// The text shown to a user.
    pub fn message(&self) -> (text: String)
        ensures
            text@ == fault_message(self@),
    {
        match self {
            TinyAgentError::Backend(text) => cat2("backend error: ", text.as_str()),
            TinyAgentError::Configuration(text) => cat2("configuration error: ", text.as_str()),
            TinyAgentError::Unsupported(text) => cat2("unsupported feature: ", text.as_str()),
        }
    }
}

/// `result` is what `expected` says, value for value and fault for fault.
pub open spec fn outcome<T: View>(
    result: Result<T, TinyAgentError>,
    expected: Result<T::V, Fault>,
) -> bool {
    match result {
        Ok(value) => expected == Ok::<T::V, Fault>(value@),
        Err(error) => expected == Err::<T::V, Fault>(error@),
    }
}

/// `result` is what `expected` says, where every fault is a configuration
/// fault with the given text.
pub open spec fn config_outcome<T: View>(
    result: Result<T, TinyAgentError>,
    expected: Result<T::V, Seq<char>>,
) -> bool {
    match result {
        Ok(value) => expected == Ok::<T::V, Seq<char>>(value@),
        Err(error) => error@ is Configuration && expected == Err::<T::V, Seq<char>>(
            error@->Configuration_0,
        ),
    }
}

/// A configuration error with the given text.
pub fn config_error(message: &str) -> (error: TinyAgentError)
    ensures
        error@ == Fault::Configuration(message@),
{
    TinyAgentError::Configuration(message.to_owned())
}

} // verus!
