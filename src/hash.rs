//! The content hash: 64-bit FNV-1a over the UTF-8 bytes of the content.

use vstd::prelude::*;
use vstd::string::StringSliceAdditionalSpecFns;
use vstd::utf8::encode_utf8;

verus! {

/// FNV-1a offset basis.
pub const FNV_OFFSET: u64 = 0xcbf2_9ce4_8422_2325;

/// FNV-1a prime.
pub const FNV_PRIME: u64 = 0x0000_0100_0000_01b3;

/// FNV-1a of `bytes`.
pub open spec fn fnv1a(bytes: Seq<u8>) -> u64
    decreases bytes.len(),
{
    if bytes.len() == 0 {
        FNV_OFFSET
    } else {
        (((fnv1a(bytes.drop_last()) ^ (bytes.last() as u64)) as int * FNV_PRIME as int) % 0x1_0000_0000_0000_0000int) as u64
    }
}

/// The hash of text `t`: FNV-1a of its UTF-8 encoding, as a signed integer.
pub open spec fn hash_of_text(t: Seq<char>) -> i64 {
    fnv1a(encode_utf8(t)) as i64
}

/// The hash of `content`, the dedup key of a library.
pub fn content_hash(content: &str) -> (r: i64)
    ensures
        r == hash_of_text(content@),
{
    let bytes = content.as_bytes();
    let mut h: u64 = FNV_OFFSET;
    let mut i: usize = 0;
    while i < bytes.len()
        invariant
            i <= bytes@.len(),
            bytes@ == content.spec_bytes(),
            h == fnv1a(bytes@.subrange(0, i as int)),
        decreases bytes.len() - i,
    {
        let x: u64 = h ^ (bytes[i] as u64);
        let p: u128 = (x as u128) * (FNV_PRIME as u128);
        proof {
            let pre = bytes@.subrange(0, i + 1);
            assert(pre.drop_last() =~= bytes@.subrange(0, i as int));
            assert(pre.last() == bytes@[i as int]);
            assert((x as u128) * (FNV_PRIME as u128) <= 0xffff_ffff_ffff_ffffu128 * 0x0000_0100_0000_01b3u128) by (nonlinear_arith)
                requires x <= 0xffff_ffff_ffff_ffffu64;
        }
        h = (p % 0x1_0000_0000_0000_0000u128) as u64;
        i = i + 1;
    }
    proof {
        assert(bytes@.subrange(0, bytes@.len() as int) =~= bytes@);
    }
    #[verifier::truncate]
    (h as i64)
}

} // verus!
