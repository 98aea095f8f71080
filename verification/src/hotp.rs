//! From a counter to a code: the counter is written as eight bytes, hashed
//! under the secret, and the tag is cut down to 31 bits.

use vstd::prelude::*;
use vstd::arithmetic::div_mod::{lemma_div_denominator, lemma_small_mod};
use crate::error::CryptoError;
use crate::mac::Encryption;

verus! {

/// The eight bytes of `counter`, most significant first. A negative counter
/// is written in two's complement.
pub open spec fn counter_bytes(counter: i64) -> Seq<u8> {
    let u: int = if counter >= 0 {
        counter as int
    } else {
        counter + 0x1_0000_0000_0000_0000
    };
    seq![
        (u / 0x100_0000_0000_0000 % 256) as u8,
        (u / 0x1_0000_0000_0000 % 256) as u8,
        (u / 0x100_0000_0000 % 256) as u8,
        (u / 0x1_0000_0000 % 256) as u8,
        (u / 0x100_0000 % 256) as u8,
        (u / 0x1_0000 % 256) as u8,
        (u / 0x100 % 256) as u8,
        (u % 256) as u8,
    ]
}

/// The number that `bytes` spell, most significant byte first.
pub open spec fn big_endian(bytes: Seq<u8>) -> nat
    decreases bytes.len(),
{
    if bytes.len() == 0 {
        0
    } else {
        256 * big_endian(bytes.drop_last()) + bytes.last() as nat
    }
}

/// Eight bytes spell what they give when each is taken in after the ones
/// before it, times 256.
proof fn lemma_big_endian_of_eight(b: Seq<u8>)
    requires
        b.len() == 8,
    ensures
        big_endian(b) == 256 * (256 * (256 * (256 * (256 * (256 * (256 * b[0] + b[1]) + b[2])
            + b[3]) + b[4]) + b[5]) + b[6]) + b[7],
{
    let b7 = b.drop_last();
    let b6 = b7.drop_last();
    let b5 = b6.drop_last();
    let b4 = b5.drop_last();
    let b3 = b4.drop_last();
    let b2 = b3.drop_last();
    let b1 = b2.drop_last();
    assert(big_endian(b1.drop_last()) == 0);
    assert(big_endian(b1) == b[0]);
    assert(big_endian(b2) == 256 * big_endian(b1) + b[1]);
    assert(big_endian(b3) == 256 * big_endian(b2) + b[2]);
    assert(big_endian(b4) == 256 * big_endian(b3) + b[3]);
    assert(big_endian(b5) == 256 * big_endian(b4) + b[4]);
    assert(big_endian(b6) == 256 * big_endian(b5) + b[5]);
    assert(big_endian(b7) == 256 * big_endian(b6) + b[6]);
    assert(big_endian(b) == 256 * big_endian(b7) + b[7]);
}

/// The bytes of a counter spell the counter, and those of a negative counter
/// spell it with two to the power of 64 added.
pub proof fn lemma_counter_bytes_value(counter: i64)
    ensures
        counter_bytes(counter).len() == 8,
        big_endian(counter_bytes(counter)) == if counter >= 0 {
            counter as int
        } else {
            counter + 0x1_0000_0000_0000_0000
        },
{
    let u: int = if counter >= 0 {
        counter as int
    } else {
        counter + 0x1_0000_0000_0000_0000
    };
    let q1 = u / 0x100;
    let q2 = u / 0x1_0000;
    let q3 = u / 0x100_0000;
    let q4 = u / 0x1_0000_0000;
    let q5 = u / 0x100_0000_0000;
    let q6 = u / 0x1_0000_0000_0000;
    let q7 = u / 0x100_0000_0000_0000;
    assert(q2 == q1 / 256) by {
        lemma_div_denominator(u, 0x100, 256);
    }
    assert(q3 == q2 / 256) by {
        lemma_div_denominator(u, 0x1_0000, 256);
    }
    assert(q4 == q3 / 256) by {
        lemma_div_denominator(u, 0x100_0000, 256);
    }
    assert(q5 == q4 / 256) by {
        lemma_div_denominator(u, 0x1_0000_0000, 256);
    }
    assert(q6 == q5 / 256) by {
        lemma_div_denominator(u, 0x100_0000_0000, 256);
    }
    assert(q7 == q6 / 256) by {
        lemma_div_denominator(u, 0x1_0000_0000_0000, 256);
    }
    let h1 = q7 % 256;
    let h2 = 256 * h1 + q6 % 256;
    let h3 = 256 * h2 + q5 % 256;
    let h4 = 256 * h3 + q4 % 256;
    let h5 = 256 * h4 + q3 % 256;
    let h6 = 256 * h5 + q2 % 256;
    let h7 = 256 * h6 + q1 % 256;
    let h8 = 256 * h7 + u % 256;
    assert(h1 == q7);
    assert(h2 == q6);
    assert(h3 == q5);
    assert(h4 == q4);
    assert(h5 == q3);
    assert(h6 == q2);
    assert(h7 == q1);
    assert(h8 == u);
    lemma_big_endian_of_eight(counter_bytes(counter));
}

/// Where the window of four bytes starts in `digest`: the low four bits of
/// its last byte.
pub open spec fn window_offset(digest: Seq<u8>) -> int {
    digest.last() as int % 16
}

/// The position in `digest` of byte `i` of the window. The window starts at
/// the offset and, where it reaches the end of the digest, goes on at its
/// start.
pub open spec fn window_index(digest: Seq<u8>, i: int) -> int {
    (window_offset(digest) + i) % (digest.len() as int)
}

/// Byte `i` of the window.
pub open spec fn window_byte(digest: Seq<u8>, i: int) -> u8 {
    digest[window_index(digest, i)]
}

/// The code that `digest` is cut down to: the four bytes of the window read
/// as one number, most significant byte first, without the top bit of the
/// first.
pub open spec fn truncated(digest: Seq<u8>) -> u32 {
    ((window_byte(digest, 0) as int % 128) * 0x100_0000 + window_byte(digest, 1) * 0x1_0000
        + window_byte(digest, 2) * 0x100 + window_byte(digest, 3)) as u32
}

/// The code for `counter` under `key`.
pub open spec fn hotp(algorithm: Encryption, key: Seq<u8>, counter: i64) -> u32 {
    truncated(algorithm.tag(key, counter_bytes(counter)))
}

/// No byte of the window lies outside the digest, however short the digest
/// and wherever the window starts.
pub proof fn lemma_window_in_bounds(digest: Seq<u8>, i: int)
    requires
        digest.len() > 0,
        0 <= i,
    ensures
        0 <= window_index(digest, i) < digest.len(),
{
}

/// In a digest of 19 bytes or more, such as the 20 of SHA-1, the window is
/// four bytes in a row from the offset on.
pub proof fn lemma_window_in_a_row(digest: Seq<u8>, i: int)
    requires
        digest.len() >= 19,
        0 <= i < 4,
    ensures
        window_index(digest, i) == window_offset(digest) + i,
{
    lemma_small_mod((window_offset(digest) + i) as nat, digest.len());
}

/// In a digest of 16 bytes, such as MD5's, the window goes on at the start
/// of the digest where it would pass its end: an offset of 15 gives the
/// bytes at 15, 0, 1 and 2.
pub proof fn lemma_window_wraps(digest: Seq<u8>, i: int)
    requires
        digest.len() == 16,
        0 <= i < 4,
    ensures
        window_index(digest, i) == if window_offset(digest) + i < 16 {
            window_offset(digest) + i
        } else {
            window_offset(digest) + i - 16
        },
{
}

/// A code has 31 bits.
pub proof fn lemma_truncated_bound(digest: Seq<u8>)
    ensures
        truncated(digest) < 0x8000_0000,
{
}

/// Writes `counter` as eight bytes, most significant first.
pub fn counter_to_bytes(counter: i64) -> (bytes: Vec<u8>)
    ensures
        bytes@ == counter_bytes(counter),
{
    let u: u64 = if counter >= 0 {
        counter as u64
    } else {
        (counter + i64::MAX + 1) as u64 + 0x8000_0000_0000_0000
    };
    let bytes = vec![
        (u / 0x100_0000_0000_0000 % 256) as u8,
        (u / 0x1_0000_0000_0000 % 256) as u8,
        (u / 0x100_0000_0000 % 256) as u8,
        (u / 0x1_0000_0000 % 256) as u8,
        (u / 0x100_0000 % 256) as u8,
        (u / 0x1_0000 % 256) as u8,
        (u / 0x100 % 256) as u8,
        (u % 256) as u8,
    ];
    assert(bytes@ =~= counter_bytes(counter));
    bytes
}

/// Cuts `digest` down to a code of 31 bits.
pub fn dynamic_truncate(digest: &[u8]) -> (code: u32)
    requires
        digest@.len() > 0,
    ensures
        code == truncated(digest@),
        code < 0x8000_0000,
{
    let len = digest.len();
    let last = digest[len - 1];
    let offset = (last & 0x0f) as usize;
    assert(last & 0x0f == last % 16) by (bit_vector);
    let b0 = digest[offset % len];
    let b1 = digest[(offset + 1) % len];
    let b2 = digest[(offset + 2) % len];
    let b3 = digest[(offset + 3) % len];
    assert(b0 & 0x7f == b0 % 128) by (bit_vector);
    (b0 & 0x7f) as u32 * 0x100_0000 + b1 as u32 * 0x1_0000 + b2 as u32 * 0x100 + b3 as u32
}

/// Computes the code for `counter` under `key`.
pub fn hotp_code(algorithm: Encryption, key: &[u8], counter: i64) -> (r: Result<u32, CryptoError>)
    ensures
        r == Ok::<u32, CryptoError>(hotp(algorithm, key@, counter)),
        r matches Ok(code) ==> code < 0x8000_0000,
{
    let message = counter_to_bytes(counter);
    match algorithm.authenticate(key, message.as_slice()) {
        Ok(tag) => Ok(dynamic_truncate(tag.as_slice())),
        Err(e) => Err(e),
    }
}

} // verus!
