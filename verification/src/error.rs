//! The error that every fallible operation of the crate reports.

use vstd::prelude::*;

verus! {

/// What went wrong.
#[derive(Debug, PartialEq, Eq)]
pub enum XCapError {
    /// A failure that is told by its message alone.
    Error(String),
    /// A region that does not lie within the monitor it was asked of.
    InvalidCaptureRegion(String),
    /// Text handed out by the system that is not UTF-16.
    Utf16Error,
}

/// The outcome of a fallible operation.
pub type XCapResult<T> = Result<T, XCapError>;

/// The mathematical content of an [`XCapError`].
pub enum Failure {
    Error(Seq<char>),
    InvalidCaptureRegion(Seq<char>),
    Utf16Error,
}

impl View for XCapError {
    type V = Failure;

    open spec fn view(&self) -> Failure {
        match *self {
            XCapError::Error(message) => Failure::Error(message@),
            XCapError::InvalidCaptureRegion(message) => Failure::InvalidCaptureRegion(message@),
            XCapError::Utf16Error => Failure::Utf16Error,
        }
    }
}

impl XCapError {
    /// A failure with the given message.
    pub fn new(message: &str) -> (error: XCapError)
        ensures
            error@ == Failure::Error(message@),
    {
        XCapError::Error(message.to_owned())
    }
}

impl Clone for XCapError {
    fn clone(&self) -> (copy: Self)
        ensures
            copy@ == self@,
    {
        match self {
            XCapError::Error(message) => XCapError::Error(message.clone()),
            XCapError::InvalidCaptureRegion(message) => XCapError::InvalidCaptureRegion(
                message.clone(),
            ),
            XCapError::Utf16Error => XCapError::Utf16Error,
        }
    }
}

/// An outcome with the error taken by its content.
pub open spec fn outcome<T>(result: XCapResult<T>) -> Result<T, Failure> {
    match result {
        Ok(value) => Ok(value),
        Err(error) => Err(error@),
    }
}

/// A text or an error, taken by its content.
pub open spec fn text_outcome(result: XCapResult<String>) -> Result<Seq<char>, Failure> {
    match result {
        Ok(text) => Ok(text@),
        Err(error) => Err(error@),
    }
}

/// A copy of a text or an error.
pub fn copy_text(result: &XCapResult<String>) -> (copy: XCapResult<String>)
    ensures
        text_outcome(copy) == text_outcome(*result),
{
    match result {
        Ok(text) => Ok(text.clone()),
        Err(error) => Err(error.clone()),
    }
}

/// A copy of a value or an error.
pub fn copy_outcome<T: Copy>(result: &XCapResult<T>) -> (copy: XCapResult<T>)
    ensures
        outcome(copy) == outcome(*result),
{
    match result {
        Ok(value) => Ok(*value),
        Err(error) => Err(error.clone()),
    }
}

/// An error is known by its kind and its message, and an outcome by its value or by its error.
pub proof fn law_errors_are_known_by_their_messages<T>(
    message: String,
    error: XCapError,
    value: T,
    text: String,
)
    ensures
        XCapError::Error(message)@ == Failure::Error(message@),
        XCapError::InvalidCaptureRegion(message)@ == Failure::InvalidCaptureRegion(message@),
        XCapError::Utf16Error@ == Failure::Utf16Error,
        outcome(Ok::<T, XCapError>(value)) == Ok::<T, Failure>(value),
        outcome(Err::<T, XCapError>(error)) == Err::<T, Failure>(error@),
        text_outcome(Ok(text)) == Ok::<Seq<char>, Failure>(text@),
        text_outcome(Err(error)) == Err::<Seq<char>, Failure>(error@),
{
}

} // verus!
