//! Validator identities and ingress addresses.

use vstd::prelude::*;
use std::str::FromStr;

verus! {

/// A validator's 32-byte public identity, displayed in base58.
///
/// Two keys are equal exactly when their bytes are equal; contracts
/// speak of a key through its byte view.
#[derive(Clone, Copy, Debug)]
pub struct ValidatorKey {
    /// The raw identity bytes.
    pub bytes: [u8; 32],
}

impl View for ValidatorKey {
    type V = Seq<u8>;

    open spec fn view(&self) -> Seq<u8> {
        self.bytes@
    }
}

impl ValidatorKey {
    /// Build a key from its raw bytes.
    pub fn from_bytes(bytes: [u8; 32]) -> (r: Self)
        ensures
            r@ == bytes@,
    {
        ValidatorKey { bytes }
    }

    /// Byte-wise equality of two keys.
    pub fn same_as(&self, other: &ValidatorKey) -> (r: bool)
        ensures
            r <==> self@ == other@,
    {
        let mut i: usize = 0;
        while i < 32
            invariant
                i <= 32,
                forall|j: int| 0 <= j < i ==> self.bytes@[j] == other.bytes@[j],
            decreases 32 - i,
        {
            if self.bytes[i] != other.bytes[i] {
                assert(self@[i as int] != other@[i as int]);
                return false;
            }
            i = i + 1;
        }
        assert(self@ =~= other@);
        true
    }
}

/// The UDP socket a validator exposes for inbound transactions.
///
/// The address is held as plain integers so that equality in contracts
/// is byte-for-byte; a v4 address keeps its 32-bit value in `ip`.
#[derive(Clone, Copy, Debug, PartialEq, Eq, Structural)]
pub struct IngressAddress {
    /// The IP address as an integer (big-endian octet order).
    pub ip: u128,
    /// The UDP port.
    pub port: u16,
    /// Whether `ip` holds a full 128-bit v6 address.
    pub v6: bool,
}

impl IngressAddress {
    /// Build an address from its parts.
    pub fn new(ip: u128, port: u16, v6: bool) -> (r: Self)
        ensures
            r.ip == ip && r.port == port && r.v6 == v6,
    {
        IngressAddress { ip, port, v6 }
    }

    /// Shorthand for a v4 address given as its 32-bit value.
    pub fn v4(ip: u32, port: u16) -> (r: Self)
        ensures
            r.ip == ip && r.port == port && !r.v6,
    {
        IngressAddress { ip: ip as u128, port, v6: false }
    }
}

/// What `Pubkey::from_str` decodes from a line of bytes read as UTF-8:
/// the 32-byte key when the line is its base58 form, nothing otherwise.
pub uninterp spec fn parsed_key(line: Seq<u8>) -> Option<Seq<u8>>;

/// Relies on `solana_sdk::pubkey::Pubkey::from_str`, which decodes a
/// base58 string into exactly 32 bytes and fails on any other input;
/// the result is a function of the bytes alone.
#[verifier::external_body]
pub(crate) fn parse_base58_key(line: &[u8]) -> (r: Option<ValidatorKey>)
    ensures
        match r {
            Some(k) => parsed_key(line@) == Some(k@) && k@.len() == 32,
            None => parsed_key(line@) is None,
        },
{
    std::str::from_utf8(line)
        .ok()
        .and_then(|s| solana_sdk::pubkey::Pubkey::from_str(s).ok())
        .map(|pk| ValidatorKey { bytes: pk.to_bytes() })
}

} // verus!
