use vstd::prelude::*;

verus! {

/// The failures that the pipeline reports to its caller.
#[derive(Debug, Clone, Copy, PartialEq, Eq, Structural)]
pub enum PipelineError {
    /// A network round trip failed; the caller may retry.
    NetworkUnavailable,
    /// The stored bytes do not form a key pair.
    KeyMaterialInvalid,
    /// A key could not sign the transaction.
    SigningFailed,
    /// Text or account data did not decode.
    DecodeError,
    /// The ledger refused the transaction before inclusion.
    SubmissionRejected,
    /// The transaction may have been included but was not confirmed.
    ConfirmationTimeout,
    /// The transaction could not be encoded.
    SerializationError,
}

} // verus!
