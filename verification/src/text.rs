//! Byte-level helpers for text: UTF-8 boundaries around ASCII bytes, slicing
//! a string between ASCII delimiters, and viewing printable bytes as text.
use vstd::prelude::*;
use vstd::string::StringSliceAdditionalSpecFns;
use vstd::utf8::{
    encode_utf8_valid_utf8, is_char_boundary, is_char_boundary_iff_not_is_continuation_byte,
    is_char_boundary_start_end_of_seq, length_of_first_scalar, partial_valid_utf8,
    partial_valid_utf8_extend_ascii_block, pop_first_scalar, valid_utf8,
};

verus! {

/// In valid UTF-8, the byte after an ASCII byte that starts a character
/// starts a character too (or is the end).
pub proof fn lemma_boundary_after_ascii(b: Seq<u8>, i: int)
    requires
        valid_utf8(b),
        0 <= i < b.len(),
        is_char_boundary(b, i),
        b[i] <= 0x7f,
    ensures
        is_char_boundary(b, i + 1),
    decreases b.len(),
{
    let l = length_of_first_scalar(b);
    let rest = pop_first_scalar(b);
    assert(valid_utf8(rest));
    if i == 0 {
        assert(l == 1);
        assert(is_char_boundary(rest, 0));
    } else if i < l {
        assert(!is_char_boundary(rest, i - l));
    } else {
        assert(rest[i - l] == b[i]);
        assert(rest.len() < b.len());
        lemma_boundary_after_ascii(rest, i - l);
    }
}

/// A sequence of ASCII bytes is valid UTF-8.
pub proof fn lemma_ascii_valid_utf8(b: Seq<u8>)
    requires
        forall|i: int| 0 <= i < b.len() ==> #[trigger] b[i] <= 0x7f,
    ensures
        valid_utf8(b),
{
    assert(b.subrange(0, 0) =~= Seq::<u8>::empty());
    assert(partial_valid_utf8(b, 0));
    partial_valid_utf8_extend_ascii_block(b, 0, b.len() as int);
    assert(b.subrange(0, b.len() as int) =~= b);
}

/// The part of `text` strictly between two ASCII bytes at `start - 1` and
/// `start + length`.
pub fn between_ascii<'a>(text: &'a str, start: usize, length: usize) -> (part: &'a str)
    requires
        1 <= start,
        start + length < text.spec_bytes().len(),
        text.spec_bytes()[start - 1] <= 0x7f,
        text.spec_bytes()[start + length] <= 0x7f,
    ensures
        part.spec_bytes() == text.spec_bytes().subrange(start as int, start + length),
{
    let ghost b = text.spec_bytes();
    let _ = text.as_bytes().len();
    let end = start + length;
    proof {
        encode_utf8_valid_utf8(text@);
        is_char_boundary_iff_not_is_continuation_byte(b, start - 1);
        lemma_boundary_after_ascii(b, start - 1);
        is_char_boundary_iff_not_is_continuation_byte(b, end as int);
        if start < end {
            is_char_boundary_iff_not_is_continuation_byte(b, start as int);
        }
    }
    let (prefix, _) = text.split_at(end);
    proof {
        let p = prefix.spec_bytes();
        encode_utf8_valid_utf8(prefix@);
        if start < end {
            assert(p[start as int] == b[start as int]);
            is_char_boundary_iff_not_is_continuation_byte(p, start as int);
        } else {
            is_char_boundary_start_end_of_seq(p);
        }
    }
    let (_, part) = prefix.split_at(start);
    proof {
        assert(part.spec_bytes() =~= b.subrange(start as int, end as int));
    }
    part
}

/// Views valid UTF-8 bytes as text, through `core::str::from_utf8`, which
/// succeeds exactly on valid UTF-8 and then borrows the same bytes.
#[verifier::external_body]
fn utf8_text(bytes: &[u8]) -> (text: &str)
    requires
        valid_utf8(bytes@),
    ensures
        text.spec_bytes() == bytes@,
{
    match core::str::from_utf8(bytes) {
        Ok(text) => text,
        Err(_) => "",
    }
}

/// Views ASCII bytes as text.
pub fn ascii_text(bytes: &[u8]) -> (text: &str)
    requires
        forall|i: int| 0 <= i < bytes@.len() ==> #[trigger] bytes@[i] <= 0x7f,
    ensures
        text.spec_bytes() == bytes@,
{
    proof {
        lemma_ascii_valid_utf8(bytes@);
    }
    utf8_text(bytes)
}

} // verus!
