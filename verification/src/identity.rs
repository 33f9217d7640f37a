//! Encoding of the operator's identity key for certificate
//! generation.
//!
//! The client certificate is generated fresh each boot over the
//! Ed25519 identity key. The certificate generator expects the raw
//! 32-byte private scalar wrapped in a PKCS#8 v1 document; that
//! wrapping is plain byte work and is done here. The generator and
//! TLS plumbing themselves live outside the library.

use vstd::prelude::*;

verus! {

/// The fixed 16-byte PKCS#8 v1 prefix for an Ed25519 private key.
pub open spec fn pkcs8_ed25519_header() -> Seq<u8> {
    seq![48u8, 46u8, 2u8, 1u8, 0u8, 48u8, 5u8, 6u8, 3u8, 43u8, 101u8, 112u8, 4u8, 34u8, 4u8, 32u8]
}

/// Wrap the first 32 bytes of an identity secret in the PKCS#8 v1
/// Ed25519 form the certificate generator expects.
pub fn ed25519_pkcs8(secret: &[u8]) -> (r: Vec<u8>)
    requires
        secret@.len() >= 32,
    ensures
        r@ == pkcs8_ed25519_header() + secret@.subrange(0, 32),
        r@.len() == 48,
{
    let mut out: Vec<u8> = Vec::new();
    out.push(48);
    out.push(46);
    out.push(2);
    out.push(1);
    out.push(0);
    out.push(48);
    out.push(5);
    out.push(6);
    out.push(3);
    out.push(43);
    out.push(101);
    out.push(112);
    out.push(4);
    out.push(34);
    out.push(4);
    out.push(32);
    proof {
        assert(out@ =~= pkcs8_ed25519_header());
    }
    let ghost header = out@;
    let mut i: usize = 0;
    while i < 32
        invariant
            header == pkcs8_ed25519_header(),
            secret@.len() >= 32,
            i <= 32,
            out@ == header + secret@.subrange(0, i as int),
        decreases 32 - i,
    {
        out.push(secret[i]);
        proof {
            assert(out@ =~= header + secret@.subrange(0, i + 1));
        }
        i = i + 1;
    }
    proof {
        assert(out@ == pkcs8_ed25519_header() + secret@.subrange(0, 32));
    }
    out
}

} // verus!
