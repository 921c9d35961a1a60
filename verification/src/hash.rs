//! Hashes of strings: FNV-1a, and the generated identifiers of blank nodes
//! and merged classes.

use vstd::prelude::*;
use vstd::string::*;
use vstd::utf8::encode_utf8;

use crate::number::{hex, hex_len, hex_of};

verus! {

pub const FNV_OFFSET: u64 = 0xcbf2_9ce4_8422_2325;

pub const FNV_PRIME: u64 = 0x0000_0100_0000_01b3;

pub const GENID_SALT: u64 = 0x9e37_79b9_7f4a_7c15;

pub const GENID_MIX: u64 = 0x428a_2f98_d728_ae22;

pub const GENID_PREFIX: &'static str = "https://tegmentum.ai/.well-known/genid/";

/// FNV-1a over 64 bits: each byte is mixed in with an exclusive or, then the
/// state is multiplied by the prime.
pub open spec fn fnv(bytes: Seq<u8>) -> u64
    decreases bytes.len(),
{
    if bytes.len() == 0 {
        FNV_OFFSET
    } else {
        (fnv(bytes.drop_last()) ^ (bytes.last() as u64)).wrapping_mul(FNV_PRIME)
    }
}

/// The FNV-1a hash of a string's bytes.
pub fn fnv1a64(s: &str) -> (r: u64)
    ensures
        r == fnv(encode_utf8(s@)),
{
    let bytes = s.as_bytes();
    let mut h: u64 = FNV_OFFSET;
    let n: usize = bytes.len();
    proof {
        assert(bytes@.take(0) =~= Seq::<u8>::empty());
    }
    for i in 0..n
        invariant
            n == bytes@.len(),
            h == fnv(bytes@.take(i as int)),
    {
        h = (h ^ (bytes[i] as u64)).wrapping_mul(FNV_PRIME);
        proof {
            assert(bytes@.take(i + 1).drop_last() =~= bytes@.take(i as int));
        }
    }
    proof {
        assert(bytes@.take(n as int) =~= bytes@);
    }
    h
}

/// The FNV-1a hash of a text as 16 hexadecimal digits.
pub open spec fn fnv_hex(s: Seq<char>) -> Seq<char> {
    hex_of(fnv(encode_utf8(s)) as nat, 16)
}

pub fn fnv1a64_hex(s: &str) -> (r: String)
    ensures
        r@ == fnv_hex(s@),
{
    hex(fnv1a64(s), 16)
}

/// A hash that starts at `start` and, per byte, multiplies by the prime and
/// adds the byte.
pub open spec fn mixed(start: u64, bytes: Seq<u8>) -> u64
    decreases bytes.len(),
{
    if bytes.len() == 0 {
        start
    } else {
        mixed(start, bytes.drop_last()).wrapping_mul(FNV_PRIME).wrapping_add(bytes.last() as u64)
    }
}

fn mix(start: u64, s: &str) -> (r: u64)
    ensures
        r == mixed(start, encode_utf8(s@)),
{
    let bytes = s.as_bytes();
    let mut h: u64 = start;
    let n: usize = bytes.len();
    proof {
        assert(bytes@.take(0) =~= Seq::<u8>::empty());
    }
    for i in 0..n
        invariant
            n == bytes@.len(),
            h == mixed(start, bytes@.take(i as int)),
    {
        h = h.wrapping_mul(FNV_PRIME).wrapping_add(bytes[i] as u64);
        proof {
            assert(bytes@.take(i + 1).drop_last() =~= bytes@.take(i as int));
        }
    }
    proof {
        assert(bytes@.take(n as int) =~= bytes@);
    }
    h
}

/// The start of the second half of a generated identifier: the first half
/// rotated left by 23 bits, with a constant mixed in.
pub open spec fn second_start(first: u64) -> u64 {
    ((first << 23u64) | (first >> 41u64)) ^ GENID_MIX
}

/// The identifier generated for a text: two chained hashes of its bytes, 16
/// hexadecimal digits each, after a fixed prefix.
pub open spec fn genid(s: Seq<char>) -> Seq<char> {
    let first = mixed(GENID_SALT, encode_utf8(s));
    let second = mixed(second_start(first), encode_utf8(s));
    GENID_PREFIX@ + hex_of(first as nat, 16) + hex_of(second as nat, 16)
}

pub fn mint_genid(input: &str) -> (r: String)
    ensures
        r@ == genid(input@),
{
    let first: u64 = mix(GENID_SALT, input);
    let start: u64 = ((first << 23u64) | (first >> 41u64)) ^ GENID_MIX;
    let second: u64 = mix(start, input);
    let a = hex(first, 16);
    let b = hex(second, 16);
    GENID_PREFIX.to_owned().concat(&a).concat(&b)
}

/// Every generated identifier is the prefix and 32 more characters.
pub proof fn genid_shape(s: Seq<char>)
    ensures
        genid(s).len() == GENID_PREFIX@.len() + 32,
        GENID_PREFIX@.is_prefix_of(genid(s)),
{
    let first = mixed(GENID_SALT, encode_utf8(s));
    hex_len(first as nat, 16);
    hex_len(mixed(second_start(first), encode_utf8(s)) as nat, 16);
    assert(GENID_PREFIX@ =~= genid(s).subrange(0, GENID_PREFIX@.len() as int));
}

} // verus!
