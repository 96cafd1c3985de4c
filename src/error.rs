use vstd::prelude::*;

verus! {

/// Errors of the library.
#[derive(Debug)]
pub enum AppError {
    Database(String),
    Blockchain(String),
    AIService(String),
    InvalidInput(String),
    NotFound(String),
    DataUnavailable(String),
    UpstreamFailure(String),
}

} // verus!
