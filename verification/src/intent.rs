//! Canonical fixed-width intent and authorized-effect types.
use vstd::prelude::*;

verus! {

/// The only supported intent schema version.
pub const INTENT_VERSION_V1: u16 = 1;

/// Maximum Cardano address length in bytes.
pub const CARDANO_ADDRESS_MAX_LEN: u8 = 57;

/// Oracle fields that may affect authorization.
#[derive(Debug, Clone, Copy, PartialEq, Eq, Hash)]
pub struct OracleFactEvalV1 {
    /// Canonical asset-pair label, NUL padded (e.g. `ADA/USD`).
    pub asset_pair: [u8; 16],
    /// Oracle price in micro-USD.
    pub price_microusd: u64,
    /// Canonical oracle-source label, NUL padded (e.g. `charli3`).
    pub source: [u8; 16],
}

/// Oracle provenance: carried for audit, never an evaluator input.
#[derive(Debug, Clone, Copy, PartialEq, Eq, Hash)]
pub struct OracleFactProvenanceV1 {
    /// Datum timestamp, posix milliseconds.
    pub timestamp_unix: u64,
    /// Datum expiry, posix milliseconds.
    pub expiry_unix: u64,
    /// Reference of the aggregator UTxO the datum was read from.
    pub aggregator_utxo_ref: [u8; 32],
}

/// A Cardano address: `length` meaningful bytes of `bytes`.
#[derive(Debug, Clone, Copy, PartialEq, Eq, Hash)]
pub struct CardanoAddressV1 {
    /// Raw address bytes, zero padded.
    pub bytes: [u8; 57],
    /// Number of meaningful bytes.
    pub length: u8,
}

/// A Cardano asset: policy id plus asset name. ADA is all zeros.
#[derive(Debug, Clone, Copy, PartialEq, Eq, Hash)]
pub struct AssetIdV1 {
    /// Minting policy id.
    pub policy_id: [u8; 28],
    /// Asset name, zero padded.
    pub asset_name: [u8; 32],
    /// Number of meaningful asset-name bytes.
    pub asset_name_len: u8,
}

impl AssetIdV1 {
    /// The native asset, ADA.
    pub fn ada() -> (a: AssetIdV1)
        ensures
            a == spec_ada(),
    {
        AssetIdV1 { policy_id: [0u8; 28], asset_name: [0u8; 32], asset_name_len: 0 }
    }
}

/// ADA: zero policy id, empty asset name.
pub open spec fn spec_ada() -> AssetIdV1 {
    AssetIdV1 {
        policy_id: vstd::array::spec_array_fill_for_copy_type::<u8, 28>(0u8),
        asset_name: vstd::array::spec_array_fill_for_copy_type::<u8, 32>(0u8),
        asset_name_len: 0,
    }
}

/// A canonical v1 disbursement intent.
#[derive(Debug, Clone, Copy, PartialEq, Eq, Hash)]
pub struct DisbursementIntentV1 {
    /// Schema version; `INTENT_VERSION_V1` for this surface.
    pub intent_version: u16,
    /// Governing policy identity.
    pub policy_ref: [u8; 32],
    /// Allocation the request draws from.
    pub allocation_id: [u8; 32],
    /// Requesting subject.
    pub requester_id: [u8; 32],
    /// Oracle fields that may affect authorization.
    pub oracle_fact: OracleFactEvalV1,
    /// Oracle provenance (audit only).
    pub oracle_provenance: OracleFactProvenanceV1,
    /// Requested amount, lovelace.
    pub requested_amount_lovelace: u64,
    /// Payment destination.
    pub destination: CardanoAddressV1,
    /// Requested asset.
    pub asset: AssetIdV1,
}

/// The effect a successful authorization emits.
#[derive(Debug, Clone, Copy, PartialEq, Eq, Hash)]
pub struct AuthorizedEffectV1 {
    /// Governing policy identity.
    pub policy_ref: [u8; 32],
    /// Allocation the effect draws from.
    pub allocation_id: [u8; 32],
    /// Requesting subject.
    pub requester_id: [u8; 32],
    /// Payment destination.
    pub destination: CardanoAddressV1,
    /// Asset to transfer.
    pub asset: AssetIdV1,
    /// Authorized amount, lovelace.
    pub authorized_amount_lovelace: u64,
    /// Release band that authorized the effect.
    pub release_cap_basis_points: u64,
}

/// Byte-wise equality of two fixed-width byte arrays.
pub fn bytes_eq<const N: usize>(a: &[u8; N], b: &[u8; N]) -> (r: bool)
    ensures
        r == (a@ == b@),
{
    let mut i: usize = 0;
    while i < N
        invariant
            i <= N,
            a@.len() == N,
            b@.len() == N,
            forall|j: int| 0 <= j < i ==> a@[j] == b@[j],
        decreases N - i,
    {
        if a[i] != b[i] {
            return false;
        }
        i = i + 1;
    }
    assert(a@ =~= b@);
    true
}

/// Byte-identical equality of two addresses, `length` included.
pub fn address_eq(a: &CardanoAddressV1, b: &CardanoAddressV1) -> (r: bool)
    ensures
        r == (a == b),
{
    let r = bytes_eq(&a.bytes, &b.bytes) && a.length == b.length;
    proof {
        if a.bytes@ == b.bytes@ {
            assert(a.bytes =~= b.bytes);
        }
    }
    r
}

/// Byte-identical equality of two assets.
pub fn asset_eq(a: &AssetIdV1, b: &AssetIdV1) -> (r: bool)
    ensures
        r == (a == b),
{
    let r = bytes_eq(&a.policy_id, &b.policy_id) && bytes_eq(&a.asset_name, &b.asset_name)
        && a.asset_name_len == b.asset_name_len;
    proof {
        if a.policy_id@ == b.policy_id@ {
            assert(a.policy_id =~= b.policy_id);
        }
        if a.asset_name@ == b.asset_name@ {
            assert(a.asset_name =~= b.asset_name);
        }
    }
    r
}

/// Equality of two fixed-width 32-byte identifiers.
pub fn id_eq(a: &[u8; 32], b: &[u8; 32]) -> (r: bool)
    ensures
        r == (*a == *b),
{
    let r = bytes_eq(a, b);
    proof {
        if a@ == b@ {
            assert(*a =~= *b);
        }
    }
    r
}

} // verus!
