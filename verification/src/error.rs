//! The failure taxonomy of the validation core.
//!
//! Every guard and protocol step reports a specific failure kind; the
//! validation engine never reclassifies a failure, it only orders their
//! evaluation.

use vstd::prelude::*;

verus! {

/// A validation, decoding or update failure.
///
/// Decoding failures (`Decode`, `DeprecatedTxVersion`, `UnsupportedTx`)
/// and policy failures (`WrongSourceAccount`, `UnsupportedSignerKey`,
/// `NonStandardFee`, `SequenceNumber`, `TooLittleTimeBound`,
/// `InvalidSignature`, `SignaturesExcess`) are fatal for the submitted
/// envelope. Update failures (`UpdateContentChanged`,
/// `UpdateSignatureRemoved`) are fatal for one amendment attempt.
/// `Fetch` marks a transient failure of an external ledger query and may
/// be retried by the caller.
#[derive(Clone, Copy, Debug, PartialEq, Eq, Structural)]
pub enum MtlError {
    /// The envelope bytes are not a well-formed encoding.
    Decode,
    /// The envelope uses the legacy (version 0) envelope format.
    DeprecatedTxVersion,
    /// The envelope is not a plain signed-transaction envelope.
    UnsupportedTx,
    /// A signer key of the account could not be read as a plain public key.
    UnsupportedSignerKey,
    /// The source account is not a treasury account nor one of its signers.
    WrongSourceAccount,
    /// The declared fee lies outside the configured bounds.
    NonStandardFee,
    /// The ledger has moved past the embedded sequence number.
    SequenceNumber,
    /// The remaining signing window is shorter than the configured minimum.
    TooLittleTimeBound,
    /// An attached signature does not verify against any signer key.
    InvalidSignature,
    /// The envelope carries a signature beyond the required threshold.
    SignaturesExcess,
    /// An amendment changed the transaction content.
    UpdateContentChanged,
    /// An amendment dropped a previously attached signature.
    UpdateSignatureRemoved,
    /// An external ledger query failed or timed out; the caller may retry.
    Fetch,
}

impl MtlError {
    /// A short human-readable description of the failure, suitable for
    /// surfacing verbatim to the submitting signer.
    pub fn message(&self) -> (r: &'static str)
        ensures
            r@ == self.spec_message(),
    {
        match self {
            MtlError::Decode => "Failed to decode transaction",
            MtlError::DeprecatedTxVersion => "Used version 0 transaction",
            MtlError::UnsupportedTx => "Unsupported transaction type",
            MtlError::UnsupportedSignerKey => "Unsupported signer key in foundation",
            MtlError::WrongSourceAccount => "Source account is not MTL related",
            MtlError::NonStandardFee => "Transaction has non standard fee",
            MtlError::SequenceNumber => "Transaction has overdue sequence number",
            MtlError::TooLittleTimeBound => "Transaction has too little time window for signing",
            MtlError::InvalidSignature => "Transaction carries an invalid signature",
            MtlError::SignaturesExcess => "Transaction has excess signatures",
            MtlError::UpdateContentChanged => "Update changed content of transaction",
            MtlError::UpdateSignatureRemoved => "Update removed signature from transaction",
            MtlError::Fetch => "Failed to request from Horizon server",
        }
    }

    /// The text that `message` returns for each failure kind.
    pub open spec fn spec_message(&self) -> Seq<char> {
        match self {
            MtlError::Decode => "Failed to decode transaction"@,
            MtlError::DeprecatedTxVersion => "Used version 0 transaction"@,
            MtlError::UnsupportedTx => "Unsupported transaction type"@,
            MtlError::UnsupportedSignerKey => "Unsupported signer key in foundation"@,
            MtlError::WrongSourceAccount => "Source account is not MTL related"@,
            MtlError::NonStandardFee => "Transaction has non standard fee"@,
            MtlError::SequenceNumber => "Transaction has overdue sequence number"@,
            MtlError::TooLittleTimeBound => "Transaction has too little time window for signing"@,
            MtlError::InvalidSignature => "Transaction carries an invalid signature"@,
            MtlError::SignaturesExcess => "Transaction has excess signatures"@,
            MtlError::UpdateContentChanged => "Update changed content of transaction"@,
            MtlError::UpdateSignatureRemoved => "Update removed signature from transaction"@,
            MtlError::Fetch => "Failed to request from Horizon server"@,
        }
    }
}

} // verus!
