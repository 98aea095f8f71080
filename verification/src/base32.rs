//! Decoding of base32 text (alphabet `A`-`Z` and `2`-`7`, letters in either
//! case, no padding) into bytes.
//!
//! The symbols of the text spell a stream of bits, five for each symbol. The
//! decoded bytes are the consecutive groups of eight bits of that stream;
//! bits at its end that do not fill a byte are left out.

use vstd::prelude::*;
use vstd::arithmetic::power2::{lemma2_to64, lemma_pow2_unfold, pow2};
use crate::error::ParseError;

verus! {

/// The five-bit value that the alphabet gives to `c`: `A` to `Z` stand for 0
/// to 25, in either case, and `2` to `7` for 26 to 31. Any other character
/// has none.
pub open spec fn symbol_value(c: char) -> Option<u8> {
    if 'A' <= c <= 'Z' {
        Some((c as int - 'A' as int) as u8)
    } else if 'a' <= c <= 'z' {
        Some((c as int - 'a' as int) as u8)
    } else if '2' <= c <= '7' {
        Some((c as int - '2' as int + 26) as u8)
    } else {
        None
    }
}

/// Whether `c` belongs to the alphabet.
pub open spec fn is_symbol(c: char) -> bool {
    symbol_value(c) is Some
}

/// Whether every character of `s` belongs to the alphabet.
pub open spec fn all_symbols(s: Seq<char>) -> bool {
    forall|i: int| 0 <= i < s.len() ==> is_symbol(#[trigger] s[i])
}

/// Whether position `i` of `s` holds its first character outside the
/// alphabet.
pub open spec fn first_invalid(s: Seq<char>, i: int) -> bool {
    &&& 0 <= i < s.len()
    &&& !is_symbol(s[i])
    &&& all_symbols(s.take(i))
}

/// The values of the symbols of `s`, in order.
pub open spec fn symbol_values(s: Seq<char>) -> Seq<u8> {
    Seq::new(s.len(), |i: int| symbol_value(s[i])->0)
}

/// Bit `k` of the five-bit value `v`, where bit 0 is the most significant
/// and bit 4 the least.
pub open spec fn symbol_bit(v: u8, k: int) -> bool {
    if k == 0 {
        v / 16 % 2 == 1
    } else if k == 1 {
        v / 8 % 2 == 1
    } else if k == 2 {
        v / 4 % 2 == 1
    } else if k == 3 {
        v / 2 % 2 == 1
    } else {
        v % 2 == 1
    }
}

/// The stream of bits that `values` spell: the five bits of each value, most
/// significant first, one value after the other.
pub open spec fn bit_stream(values: Seq<u8>) -> Seq<bool> {
    Seq::new(5 * values.len(), |p: int| symbol_bit(values[p / 5], p % 5))
}

/// The number that the `len` bits of `bits` from position `start` on spell,
/// most significant bit first.
pub open spec fn bits_value(bits: Seq<bool>, start: int, len: nat) -> nat
    decreases len,
{
    if len == 0 {
        0
    } else {
        2 * bits_value(bits, start, (len - 1) as nat) + if bits[start + len - 1] {
            1nat
        } else {
            0nat
        }
    }
}

/// Byte `j` of a bit stream: the number spelled by the eight bits from
/// position `8 * j` on.
pub open spec fn stream_byte(bits: Seq<bool>, j: int) -> u8 {
    bits_value(bits, 8 * j, 8) as u8
}

/// The bytes of a bit stream, in order. Bits at the end that do not fill a
/// byte are left out.
pub open spec fn pack_bytes(bits: Seq<bool>) -> Seq<u8> {
    Seq::new(bits.len() / 8, |j: int| stream_byte(bits, j))
}

/// The bytes that a text of symbols decodes to.
pub open spec fn decoded(s: Seq<char>) -> Seq<u8> {
    pack_bytes(bit_stream(symbol_values(s)))
}

/// The position of the first character of `s` outside the alphabet, where
/// `s` has one.
pub open spec fn first_invalid_index(s: Seq<char>) -> int {
    choose|i: int| first_invalid(s, i)
}

/// What decoding `s` gives: its bytes where all of it is symbols, and else
/// the first character that is none.
pub open spec fn decode(s: Seq<char>) -> Result<Seq<u8>, ParseError> {
    if all_symbols(s) {
        Ok(decoded(s))
    } else {
        Err(ParseError::InvalidBase32Char(s[first_invalid_index(s)]))
    }
}

/// `c`, or its capital where `c` is one of the small letters `a` to `z`.
pub open spec fn fold_case(c: char) -> char {
    if 'a' <= c <= 'z' {
        (c as int - 'a' as int + 'A' as int) as char
    } else {
        c
    }
}

/// Whether `a` and `b` are the same text but for the case of their letters.
pub open spec fn same_but_for_case(a: Seq<char>, b: Seq<char>) -> bool {
    &&& a.len() == b.len()
    &&& forall|i: int| 0 <= i < a.len() ==> fold_case(#[trigger] a[i]) == fold_case(b[i])
}

/// Only one position of a text holds its first character outside the
/// alphabet.
pub proof fn lemma_first_invalid_unique(s: Seq<char>, i: int, j: int)
    requires
        first_invalid(s, i),
        first_invalid(s, j),
    ensures
        i == j,
{
    if i < j {
        assert(s.take(j)[i] == s[i]);
    }
    if j < i {
        assert(s.take(i)[j] == s[j]);
    }
}

/// A text that is not all symbols has a first character outside the
/// alphabet.
pub proof fn lemma_first_invalid_exists(s: Seq<char>)
    requires
        !all_symbols(s),
    ensures
        first_invalid(s, first_invalid_index(s)),
    decreases s.len(),
{
    let front = s.drop_last();
    if all_symbols(front) {
        assert(s.take(s.len() - 1) =~= front);
        assert(!is_symbol(s[s.len() - 1])) by {
            if is_symbol(s[s.len() - 1]) {
                assert forall|i: int| 0 <= i < s.len() implies is_symbol(#[trigger] s[i]) by {
                    if i < s.len() - 1 {
                        assert(front[i] == s[i]);
                    }
                }
            }
        }
        assert(first_invalid(s, s.len() - 1));
    } else {
        lemma_first_invalid_exists(front);
        let i = first_invalid_index(front);
        assert(s.take(i) =~= front.take(i));
        assert(front[i] == s[i]);
        assert(first_invalid(s, i));
    }
}

/// A text of `n` symbols decodes to `5 * n / 8` bytes, rounded down.
pub proof fn lemma_decoded_len(s: Seq<char>)
    ensures
        decoded(s).len() == (5 * s.len()) / 8,
{
}

/// The case of letters makes no difference to what a text decodes to.
pub proof fn lemma_case_insensitive(a: Seq<char>, b: Seq<char>)
    requires
        same_but_for_case(a, b),
    ensures
        decode(a) == decode(b),
{
    assert forall|i: int| 0 <= i < a.len() implies symbol_value(#[trigger] a[i]) == symbol_value(
        b[i],
    ) by {
        assert(fold_case(a[i]) == fold_case(b[i]));
    }
    if all_symbols(a) {
        assert forall|i: int| 0 <= i < b.len() implies is_symbol(#[trigger] b[i]) by {
            assert(is_symbol(a[i]));
        }
        assert(symbol_values(a) =~= symbol_values(b));
    } else {
        if all_symbols(b) {
            assert forall|i: int| 0 <= i < a.len() implies is_symbol(#[trigger] a[i]) by {
                assert(is_symbol(b[i]));
            }
        }
        lemma_first_invalid_exists(a);
        lemma_first_invalid_exists(b);
        let i = first_invalid_index(a);
        assert(fold_case(a[i]) == fold_case(b[i]));
        assert forall|j: int| 0 <= j < i implies is_symbol(#[trigger] b.take(i)[j]) by {
            assert(is_symbol(a.take(i)[j]));
            assert(fold_case(a[j]) == fold_case(b[j]));
        }
        assert(first_invalid(b, i));
        lemma_first_invalid_unique(b, i, first_invalid_index(b));
    }
}

/// The bits of a stream in a range decide the number they spell.
proof fn lemma_bits_value_agrees(a: Seq<bool>, b: Seq<bool>, start: int, len: nat)
    requires
        forall|i: int| start <= i < start + len ==> a[i] == b[i],
    ensures
        bits_value(a, start, len) == bits_value(b, start, len),
    decreases len,
{
    if len > 0 {
        lemma_bits_value_agrees(a, b, start, (len - 1) as nat);
    }
}

/// `len` bits spell a number below two to the power of `len`.
proof fn lemma_bits_value_bound(bits: Seq<bool>, start: int, len: nat)
    ensures
        bits_value(bits, start, len) < pow2(len),
    decreases len,
{
    if len == 0 {
        lemma2_to64();
    } else {
        lemma_bits_value_bound(bits, start, (len - 1) as nat);
        lemma_pow2_unfold(len);
    }
}

/// Packs a stream of bits into bytes, one bit at a time.
struct BitPacker {
    /// The bytes that are complete.
    bytes: Vec<u8>,
    /// The bits after the last complete byte, as a number.
    pending: u8,
    /// How many bits `pending` holds.
    filled: u8,
}

impl BitPacker {
    /// Whether the packer has taken in exactly the stream `bits`.
    spec fn holds(&self, bits: Seq<bool>) -> bool {
        &&& self.filled < 8
        &&& bits.len() == 8 * self.bytes@.len() + self.filled
        &&& self.bytes@ == pack_bytes(bits)
        &&& self.pending == bits_value(bits, 8 * (self.bytes@.len() as int), self.filled as nat)
    }

    fn new() -> (p: Self)
        ensures
            p.holds(Seq::empty()),
    {
        let p = BitPacker { bytes: Vec::new(), pending: 0, filled: 0 };
        assert(p.bytes@ =~= pack_bytes(Seq::empty()));
        p
    }

    fn push_bit(&mut self, bit: bool, Ghost(bits): Ghost<Seq<bool>>)
        requires
            old(self).holds(bits),
        ensures
            final(self).holds(bits.push(bit)),
    {
        let ghost grown = bits.push(bit);
        let ghost done = self.bytes@.len() as int;
        proof {
            lemma_bits_value_bound(bits, 8 * done, self.filled as nat);
            lemma2_to64();
            lemma_bits_value_agrees(bits, grown, 8 * done, self.filled as nat);
            assert forall|j: int| 0 <= j < done implies #[trigger] stream_byte(grown, j)
                == stream_byte(bits, j) by {
                lemma_bits_value_agrees(bits, grown, 8 * j, 8);
            }
        }
        let next: u8 = self.pending * 2 + if bit {
            1
        } else {
            0
        };
        if self.filled == 7 {
            self.bytes.push(next);
            self.pending = 0;
            self.filled = 0;
        } else {
            self.pending = next;
            self.filled = self.filled + 1;
        }
        assert(self.bytes@ =~= pack_bytes(grown));
    }

    /// Takes in the five bits of a symbol's value.
    fn push_symbol(&mut self, v: u8, Ghost(values): Ghost<Seq<u8>>)
        requires
            old(self).holds(bit_stream(values)),
        ensures
            final(self).holds(bit_stream(values.push(v))),
    {
        let ghost b0 = bit_stream(values);
        let ghost b1 = b0.push(symbol_bit(v, 0));
        let ghost b2 = b1.push(symbol_bit(v, 1));
        let ghost b3 = b2.push(symbol_bit(v, 2));
        let ghost b4 = b3.push(symbol_bit(v, 3));
        let ghost b5 = b4.push(symbol_bit(v, 4));
        self.push_bit(v / 16 % 2 == 1, Ghost(b0));
        self.push_bit(v / 8 % 2 == 1, Ghost(b1));
        self.push_bit(v / 4 % 2 == 1, Ghost(b2));
        self.push_bit(v / 2 % 2 == 1, Ghost(b3));
        self.push_bit(v % 2 == 1, Ghost(b4));
        assert(b5 =~= bit_stream(values.push(v)));
    }
}

/// Looks `c` up in the alphabet.
pub fn symbol(c: char) -> (v: Option<u8>)
    ensures
        v == symbol_value(c),
{
    if c >= 'A' && c <= 'Z' {
        Some((c as u32 - 'A' as u32) as u8)
    } else if c >= 'a' && c <= 'z' {
        Some((c as u32 - 'a' as u32) as u8)
    } else if c >= '2' && c <= '7' {
        Some((c as u32 - '2' as u32 + 26) as u8)
    } else {
        None
    }
}

/// Decodes base32 text into the bytes it stands for.
///
/// Succeeds exactly when every character of `s` is a letter or one of the
/// digits `2` to `7`; the empty text gives no bytes. Otherwise the error
/// names the first character that is not.
pub fn base32_to_secret(s: &str) -> (r: Result<Vec<u8>, ParseError>)
    ensures
        match r {
            Ok(bytes) => decode(s@) == Ok::<Seq<u8>, ParseError>(bytes@),
            Err(e) => decode(s@) == Err::<Seq<u8>, ParseError>(e),
        },
{
    let mut packer = BitPacker::new();
    let ghost mut values: Seq<u8> = Seq::empty();
    proof {
        assert(bit_stream(values) =~= Seq::<bool>::empty());
    }
    for c in it: s.chars()
        invariant
            it.seq() == s@,
            values == symbol_values(s@.take(it.index())),
            all_symbols(s@.take(it.index())),
            packer.holds(bit_stream(values)),
    {
        let ghost i = it.index();
        match symbol(c) {
            Some(v) => {
                packer.push_symbol(v, Ghost(values));
                proof {
                    values = values.push(v);
                    assert(s@.take(i + 1) =~= s@.take(i).push(c));
                    assert(values =~= symbol_values(s@.take(i + 1)));
                }
            },
            None => {
                proof {
                    assert(first_invalid(s@, i));
                    assert(!all_symbols(s@));
                    lemma_first_invalid_exists(s@);
                    lemma_first_invalid_unique(s@, i, first_invalid_index(s@));
                }
                return Err(ParseError::InvalidBase32Char(c));
            },
        }
    }
    proof {
        assert(s@.take(s@.len() as int) =~= s@);
    }
    Ok(packer.bytes)
}

} // verus!
