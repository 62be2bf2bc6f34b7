//! Error values shared by the whole pipeline.

use vstd::prelude::*;

verus! {

/// A plain failure carrying a human-readable message.
pub struct Failed {
    pub details: String,
}

impl Failed {
    pub fn new(msg: &str) -> (r: Self)
        ensures
            r.details@ == msg@,
    {
        Self { details: msg.to_owned() }
    }

    pub fn from(msg: String) -> (r: Self)
        ensures
            r.details@ == msg@,
    {
        Self { details: msg }
    }

    /// The message, for display by the caller.
    pub fn say(&self) -> (r: String)
        ensures
            r@ == self.details@,
    {
        self.details.clone()
    }
}

/// Wraps a message into an `Err`.
pub fn throw<T>(message: String) -> (r: Result<T, Failed>)
    ensures
        r is Err,
        r->Err_0.details@ == message@,
{
    Err(Failed::from(message))
}

/// Builds the failure value without wrapping it.
pub fn failed(message: String) -> (r: Failed)
    ensures
        r.details@ == message@,
{
    Failed::from(message)
}

/// Passes an existing failure on as an `Err`.
pub fn rethrow<T>(failure: Failed) -> (r: Result<T, Failed>)
    ensures
        r is Err,
        r->Err_0 == failure,
{
    Err(failure)
}

/// Wraps a message literal into an `Err`.
pub fn raise<T>(message: &str) -> (r: Result<T, Failed>)
    ensures
        r is Err,
        r->Err_0.details@ == message@,
{
    Err(Failed::new(message))
}

} // verus!
