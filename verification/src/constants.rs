//! Configuration surface of the validation core: the allow-listed
//! treasury accounts, the fee bounds, the minimum signing window, the
//! external-call timeout and the target network's passphrase.

use vstd::prelude::*;

verus! {

/// Account identifier of the MTL foundation.
pub const MTL_FOUNDATION: &'static str = "GDX23CPGMQ4LN55VGEDVFZPAJMAUEHSHAMJ2GMCU2ZSHN5QF4TMZYPIS";

/// Account identifier of the MTL issuer.
pub const MTL_ISSUERER: &'static str = "GACKTN5DAZGWXRWB2WLM6OPBDHAMT6SJNGLJZPQMEZBUR4JUGBX2UK7V";

/// Account identifier of the MTLCITY issuer.
pub const MTLCITY_ISSUERER: &'static str = "GDUI7JVKWZV4KJVY4EJYBXMGXC2J3ZC67Z6O5QFP4ZMVQM2U5JXK2OK3";

/// Additional treasury-controlled account.
pub const MTL_ADDITIONAL_ACCOUNT: &'static str = "GB7NLVMVC6NWTIFK7ULLEQDF5CBCI2TDCO3OZWWSFXQCT7OPU3P4EOSR";

/// Account identifier of the BTC treasury.
pub const BTC_TREASURY: &'static str = "GATUN5FV3QF35ZMU3C63UZ63GOFRYUHXV2SHKNTKPBZGYF2DU3B7IW6Z";

/// Account identifier of the BTC foundation.
pub const BTC_FOUNDATION: &'static str = "GAUBJ4CTRF42Z7OM7QXTAQZG6BEMNR3JZY57Z4LB3PXSDJXE5A5GIGJB";

/// Account identifier of the RECT foundation.
pub const MTL_RECT_ACCOUNT: &'static str = "GDASYWP6F44TVNJKZKQ2UEVZOKTENCJFTWVMP6UC7JBZGY4ZNB6YAVD4";

/// Lowest declared fee that the fee guard accepts (inclusive).
pub const MIN_FEE: u32 = 100;

/// Highest declared fee that the fee guard accepts (inclusive).
pub const MAX_FEE: u32 = 20000;

/// Timeout in milliseconds for external ledger queries.
pub const FETCH_TIMEOUT: u64 = 4000;

/// Minimum signing window in seconds that the time-window guard demands:
/// one day.
pub const SIGNING_TIME_WINDOW: u64 = 86400;

/// Passphrase of the public Stellar network; its digest scopes every
/// transaction identifier to that network.
pub const NETWORK_PASSPHRASE: &'static str = "Public Global Stellar Network ; September 2015";

} // verus!
