use vstd::prelude::*;

verus! {

/// Errors that reach the caller.
#[derive(Debug)]
pub enum Error {
    /// A network failure or a malformed HTTP response, with a diagnostic.
    Network(String),
}

} // verus!
