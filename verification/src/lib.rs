//! Validation and signature-accounting core for multi-signature treasury
//! transactions on the Stellar network.
//!
//! The library decodes transaction envelopes, enforces the treasury's
//! policy guards (authorized source account, fee bounds, signing time
//! window, sequence freshness), accounts collected signature weight
//! against the live signer set of the source account, and governs how an
//! accepted transaction may be amended with further signatures.

pub mod account;
pub mod adapters;
pub mod base64;
pub mod bigend;
pub mod constants;
pub mod error;
pub mod history;
pub mod transaction;
pub mod view;
