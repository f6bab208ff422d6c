//! Byte-level helpers for network frames: big-endian fields, splicing
//! bytes into a buffer, and the Internet checksum (RFC 1071).
use vstd::prelude::*;

verus! {

/// The 16-bit big-endian number made of `hi` and `lo`.
pub open spec fn be16(hi: u8, lo: u8) -> nat {
    hi as nat * 256 + lo as nat
}

/// The two big-endian bytes of `v`.
pub open spec fn be_bytes(v: u16) -> Seq<u8> {
    seq![(v / 256) as u8, (v % 256) as u8]
}

/// `n` zero bytes.
pub open spec fn zeros(n: nat) -> Seq<u8> {
    Seq::new(n, |i: int| 0u8)
}

/// `s` with the bytes from `at` on replaced by `b`.
pub open spec fn splice(s: Seq<u8>, at: int, b: Seq<u8>) -> Seq<u8> {
    s.subrange(0, at) + b + s.subrange(at + b.len(), s.len() as int)
}

/// The sum of the 16-bit big-endian words of `b` from position `i` on; an
/// odd last byte counts as the high byte of a word.
pub open spec fn word_sum(b: Seq<u8>, i: int) -> nat
    decreases b.len() - i,
{
    if i < 0 || i >= b.len() {
        0
    } else if i + 1 == b.len() {
        b[i] as nat * 256
    } else {
        be16(b[i], b[i + 1]) + word_sum(b, i + 2)
    }
}

/// Folds the carries of a sum back into its low 16 bits until none is left.
pub open spec fn fold16(x: nat) -> nat
    decreases x,
{
    if x < 0x10000 {
        x
    } else {
        fold16(x % 0x10000 + x / 0x10000)
    }
}

/// The Internet checksum of `b`: the one's complement of the one's-complement
/// sum of its 16-bit words, the running sum being kept in 32 bits.
pub open spec fn spec_checksum(b: Seq<u8>) -> u16 {
    (0xffff - fold16(word_sum(b, 0) % 0x1_0000_0000)) as u16
}

pub proof fn lemma_fold16_bound(x: nat)
    ensures
        fold16(x) < 0x10000,
    decreases x,
{
    if x >= 0x10000 {
        lemma_fold16_bound(x % 0x10000 + x / 0x10000);
    }
}

/// Folding keeps a number's remainder modulo 0xffff, and keeps it nonzero.
proof fn lemma_fold16_mod(x: nat)
    ensures
        fold16(x) % 0xffff == x % 0xffff,
        x > 0 ==> fold16(x) > 0,
    decreases x,
{
    if x >= 0x10000 {
        let q = x / 0x10000;
        let r = x % 0x10000;
        vstd::arithmetic::div_mod::lemma_fundamental_div_mod(x as int, 0x10000);
        assert(x == 0xffff * q + (q + r)) by (nonlinear_arith)
            requires
                x == 0x10000 * q + r,
        ;
        vstd::arithmetic::div_mod::lemma_mod_multiples_vanish(q as int, (q + r) as int, 0xffff);
        assert(q > 0) by (nonlinear_arith)
            requires
                x >= 0x10000,
                q == x / 0x10000,
        ;
        lemma_fold16_mod((r + q) as nat);
    }
}

/// The word sum of a message whose bytes at `at` (word-aligned from `i`)
/// were zero grows by `v` when `v` is written there.
proof fn lemma_word_sum_splice(b: Seq<u8>, i: int, at: int, v: u16)
    requires
        0 <= i <= at,
        at + 2 <= b.len(),
        (at - i) % 2 == 0,
        b[at] == 0,
        b[at + 1] == 0,
    ensures
        word_sum(splice(b, at, be_bytes(v)), i) == word_sum(b, i) + v,
    decreases at - i,
{
    let c = splice(b, at, be_bytes(v));
    assert(c.len() == b.len());
    assert(v == (v / 256) * 256 + v % 256) by (nonlinear_arith);
    if i == at {
        assert(c[at] == (v / 256) as u8 && c[at + 1] == (v % 256) as u8);
        assert forall|j: int| at + 2 <= j < b.len() implies c[j] == b[j] by {}
        lemma_word_sum_same_from(b, c, at + 2);
    } else {
        assert(c[i] == b[i] && c[i + 1] == b[i + 1]);
        lemma_word_sum_splice(b, i + 2, at, v);
    }
}

/// Two messages equal from `i` on have the same word sum from `i`.
proof fn lemma_word_sum_same_from(b: Seq<u8>, c: Seq<u8>, i: int)
    requires
        0 <= i,
        b.len() == c.len(),
        forall|j: int| i <= j < b.len() ==> c[j] == b[j],
    ensures
        word_sum(c, i) == word_sum(b, i),
    decreases b.len() - i,
{
    if i + 1 < b.len() {
        lemma_word_sum_same_from(b, c, i + 2);
    }
}

/// Each word adds at most 0xffff, so the sum from `i` is at most 0xffff
/// for each byte left.
proof fn lemma_word_sum_bound(b: Seq<u8>, i: int)
    requires
        0 <= i,
    ensures
        word_sum(b, i) <= 0xffff * (if i < b.len() { b.len() - i } else { 0 }),
    decreases b.len() - i,
{
    if i + 1 < b.len() {
        lemma_word_sum_bound(b, i + 2);
    }
}

/// The Internet checksum verifies: when a message's checksum is written
/// into its zeroed, word-aligned checksum field, the checksum of the
/// result is zero. (Messages up to 64 KiB, where the 32-bit running sum
/// cannot wrap.)
pub proof fn lemma_checksum_verifies(b: Seq<u8>, at: int)
    requires
        b.len() <= 0x10000,
        0 <= at,
        at + 2 <= b.len(),
        at % 2 == 0,
        b[at] == 0,
        b[at + 1] == 0,
    ensures
        spec_checksum(splice(b, at, be_bytes(spec_checksum(b)))) == 0,
{
    let total = word_sum(b, 0);
    lemma_word_sum_bound(b, 0);
    assert(0xffff * b.len() <= 0xffff * 0x10000) by (nonlinear_arith)
        requires
            b.len() <= 0x10000,
    ;
    assert(total % 0x1_0000_0000 == total);
    let f = fold16(total);
    lemma_fold16_bound(total);
    lemma_fold16_mod(total);
    let c = spec_checksum(b);
    assert(c == 0xffff - f);
    let d = splice(b, at, be_bytes(c));
    lemma_word_sum_splice(b, 0, at, c);
    let sum = word_sum(d, 0);
    assert(sum == total + c);
    assert(sum < 0x1_0000_0000);
    assert(sum % 0x1_0000_0000 == sum);
    lemma_fold16_mod(sum);
    lemma_fold16_bound(sum);
    assert(sum > 0);
    assert(sum % 0xffff == 0) by {
        vstd::arithmetic::div_mod::lemma_fundamental_div_mod(total as int, 0xffff);
        let q = total / 0xffff;
        assert(sum == 0xffff * q + (total % 0xffff + 0xffff - f));
        vstd::arithmetic::div_mod::lemma_mod_multiples_vanish(q as int, (total % 0xffff + 0xffff - f) as int, 0xffff);
        if f == 0xffff {
            assert(total % 0xffff == 0);
        } else {
            assert(f % 0xffff == f);
        }
        assert((total % 0xffff + 0xffff - f) % 0xffff == 0);
    }
    assert(fold16(sum) == 0xffff);
}

proof fn lemma_wrapping_step(sum: u32, word: u32, rest: nat, total: nat)
    requires
        word <= 0xffff,
        (sum + word + rest) % 0x1_0000_0000 == total % 0x1_0000_0000,
    ensures
        (sum.wrapping_add(word) + rest) % 0x1_0000_0000 == total % 0x1_0000_0000,
{
    if sum + word > u32::MAX {
        assert(sum.wrapping_add(word) == sum + word - 0x1_0000_0000);
        vstd::arithmetic::div_mod::lemma_mod_sub_multiples_vanish(
            sum + word + rest,
            0x1_0000_0000,
        );
    }
}

/// Appends `bytes` to `buffer`.
pub fn push_all(buffer: &mut Vec<u8>, bytes: &[u8])
    ensures
        final(buffer)@ == old(buffer)@ + bytes@,
{
    let mut index: usize = 0;
    while index < bytes.len()
        invariant
            index <= bytes@.len(),
            buffer@ == old(buffer)@ + bytes@.subrange(0, index as int),
        decreases bytes@.len() - index,
    {
        buffer.push(bytes[index]);
        index = index + 1;
        assert(buffer@ =~= old(buffer)@ + bytes@.subrange(0, index as int));
    }
    assert(bytes@.subrange(0, bytes@.len() as int) =~= bytes@);
}

/// Appends `count` zero bytes to `buffer`.
pub fn push_zeros(buffer: &mut Vec<u8>, count: usize)
    ensures
        final(buffer)@ == old(buffer)@ + zeros(count as nat),
{
    let mut index: usize = 0;
    while index < count
        invariant
            index <= count,
            buffer@ == old(buffer)@ + zeros(index as nat),
        decreases count - index,
    {
        buffer.push(0);
        index = index + 1;
        assert(buffer@ =~= old(buffer)@ + zeros(index as nat));
    }
}

/// Overwrites `buffer[at..at + bytes.len()]` with `bytes`.
pub fn write_at(buffer: &mut Vec<u8>, at: usize, bytes: &[u8])
    requires
        at + bytes@.len() <= old(buffer)@.len(),
    ensures
        final(buffer)@ == splice(old(buffer)@, at as int, bytes@),
        final(buffer)@.len() == old(buffer)@.len(),
{
    let mut index: usize = 0;
    while index < bytes.len()
        invariant
            at + bytes@.len() <= buffer.len(),
            buffer@.len() == old(buffer)@.len(),
            index <= bytes@.len(),
            buffer@ == splice(old(buffer)@, at as int, bytes@.subrange(0, index as int)),
        decreases bytes@.len() - index,
    {
        buffer.set(at + index, bytes[index]);
        index = index + 1;
        assert(buffer@ =~= splice(old(buffer)@, at as int, bytes@.subrange(0, index as int)));
    }
    assert(bytes@.subrange(0, bytes@.len() as int) =~= bytes@);
}

/// The big-endian bytes of `v`.
pub fn to_be_bytes(v: u16) -> (bytes: [u8; 2])
    ensures
        bytes@ == be_bytes(v),
{
    let bytes = [(v / 256) as u8, (v % 256) as u8];
    assert(bytes@ =~= be_bytes(v));
    bytes
}

/// Reads the big-endian 16-bit number at `at`.
pub fn read_be16(bytes: &[u8], at: usize) -> (v: u16)
    requires
        at + 1 < bytes@.len(),
    ensures
        v == be16(bytes@[at as int], bytes@[at + 1]),
{
    (bytes[at] as u16) * 256 + (bytes[at + 1] as u16)
}

/// The length in bytes of an IPv4 header whose first byte is `first`.
pub fn ipv4_header_length(first: u8) -> (length: usize)
    ensures
        length == (first % 16) * 4,
{
    ((first % 16) as usize) * 4
}

/// Whether `bytes[at..at + expected.len()]` equals `expected`.
pub fn bytes_equal(bytes: &[u8], at: usize, expected: &[u8]) -> (same: bool)
    requires
        at + expected@.len() <= bytes@.len(),
    ensures
        same == (bytes@.subrange(at as int, at + expected@.len()) == expected@),
{
    let ghost part = bytes@.subrange(at as int, at + expected@.len());
    let mut index: usize = 0;
    while index < expected.len()
        invariant
            at + expected@.len() <= bytes.len(),
            part == bytes@.subrange(at as int, at + expected@.len()),
            index <= expected@.len(),
            forall|j: int| 0 <= j < index ==> #[trigger] part[j] == expected@[j],
        decreases expected@.len() - index,
    {
        assert(part[index as int] == bytes@[at + index]);
        if bytes[at + index] != expected[index] {
            return false;
        }
        index = index + 1;
    }
    assert(part =~= expected@);
    true
}

/// The Internet checksum of `bytes`.
pub fn checksum(bytes: &[u8]) -> (sum: u16)
    ensures
        sum == spec_checksum(bytes@),
{
    let ghost b = bytes@;
    let mut sum: u32 = 0;
    let mut index: usize = 0;
    while index + 1 < bytes.len()
        invariant
            b == bytes@,
            index <= b.len(),
            index % 2 == 0,
            (sum + word_sum(b, index as int)) % 0x1_0000_0000 == word_sum(b, 0) % 0x1_0000_0000,
        decreases b.len() - index,
    {
        let word = read_be16(bytes, index) as u32;
        assert(word_sum(b, index as int) == word + word_sum(b, index + 2));
        proof {
            lemma_wrapping_step(sum, word, word_sum(b, index + 2), word_sum(b, 0));
        }
        sum = sum.wrapping_add(word);
        index = index + 2;
    }
    if index < bytes.len() {
        let word = (bytes[index] as u32) * 256;
        assert(word_sum(b, index as int) == word);
        proof {
            lemma_wrapping_step(sum, word, 0, word_sum(b, 0));
        }
        sum = sum.wrapping_add(word);
    } else {
        assert(word_sum(b, index as int) == 0);
    }
    let ghost total = word_sum(b, 0) % 0x1_0000_0000;
    assert(sum == total) by {
        vstd::arithmetic::div_mod::lemma_small_mod(sum as nat, 0x1_0000_0000);
    }
    while sum >> 16 != 0
        invariant
            fold16(sum as nat) == fold16(total),
        decreases sum,
    {
        let low = sum & 0xffff;
        let high = sum >> 16;
        assert(low == sum % 0x10000 && high == sum / 0x10000) by (bit_vector)
            requires
                low == sum & 0xffff,
                high == sum >> 16,
        ;
        assert(sum >> 16 != 0 ==> sum >= 0x10000) by (bit_vector);
        sum = low + high;
    }
    assert(sum >> 16 == 0 ==> sum < 0x10000) by (bit_vector);
    proof {
        lemma_fold16_bound(total);
    }
    let folded = sum as u16;
    assert(!folded == 0xffff - folded) by (bit_vector);
    !folded
}

} // verus!
