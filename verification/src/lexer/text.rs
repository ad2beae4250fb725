//! Cutting an ASCII lexeme out of a string slice.
//!
//! A `&str` is sliced at byte offsets, which must fall on character
//! boundaries. A run of ASCII bytes starts and ends on such boundaries, and
//! its characters are its bytes.

use crate::lexer::rules::as_chars;
use vstd::prelude::*;
use vstd::utf8::*;

verus! {

/// Every byte of `b` from `from` up to `to` is below 128.
pub open spec fn ascii_between(b: Seq<u8>, from: int, to: int) -> bool {
    forall|k: int| from <= k < to ==> #[trigger] b[k] < 0x80
}

/// In well-formed UTF-8 that starts with `k` ASCII bytes, a character starts
/// at index `k`, or the buffer ends there.
proof fn lemma_ascii_prefix_boundary(b: Seq<u8>, k: int)
    requires
        valid_utf8(b),
        0 <= k <= b.len(),
        ascii_between(b, 0, k),
    ensures
        is_char_boundary(b, k),
    decreases k,
{
    if k > 0 {
        assert(b[0] < 0x80);
        let rest = pop_first_scalar(b);
        assert(rest == b.subrange(1, b.len() as int));
        assert forall|j: int| 0 <= j < k - 1 implies #[trigger] rest[j] < 0x80 by {
            assert(rest[j] == b[j + 1]);
        }
        lemma_ascii_prefix_boundary(rest, k - 1);
    }
}

/// ASCII bytes decode to themselves.
proof fn lemma_decode_ascii(b: Seq<u8>)
    requires
        valid_utf8(b),
        ascii_between(b, 0, b.len() as int),
    ensures
        decode_utf8(b) == as_chars(b),
    decreases b.len(),
{
    if b.len() > 0 {
        let b0 = b[0];
        assert(b0 < 0x80);
        assert(b0 & 0x7f == b0) by (bit_vector)
            requires
                b0 < 0x80,
        ;
        let rest = pop_first_scalar(b);
        assert(rest == b.subrange(1, b.len() as int));
        assert forall|j: int| 0 <= j < rest.len() implies #[trigger] rest[j] < 0x80 by {
            assert(rest[j] == b[j + 1]);
        }
        lemma_decode_ascii(rest);
        assert(decode_utf8(b) =~= as_chars(b));
    } else {
        assert(decode_utf8(b) =~= as_chars(b));
    }
}

/// The ASCII bytes of `s` from `from` up to `to`, as a string of their own.
pub(crate) fn ascii_lexeme(s: &str, from: usize, to: usize) -> (r: String)
    requires
        from <= to <= encode_utf8(s@).len(),
        ascii_between(encode_utf8(s@), from as int, to as int),
    ensures
        r@ == as_chars(encode_utf8(s@).subrange(from as int, to as int)),
{
    let ghost bytes = encode_utf8(s@);
    if from == to {
        let r = String::new();
        assert(r@ =~= as_chars(bytes.subrange(from as int, to as int)));
        r
    } else {
        proof {
            encode_utf8_valid_utf8(s@);
            assert(bytes[from as int] < 0x80);
            is_char_boundary_iff_not_is_continuation_byte(bytes, from as int);
        }
        let (_, tail) = s.split_at(from);
        let ghost tail_bytes = encode_utf8(tail@);
        proof {
            encode_utf8_valid_utf8(tail@);
            assert(tail_bytes == bytes.subrange(from as int, bytes.len() as int));
            assert forall|k: int| 0 <= k < to - from implies #[trigger] tail_bytes[k] < 0x80 by {
                assert(tail_bytes[k] == bytes[from + k]);
            }
            lemma_ascii_prefix_boundary(tail_bytes, to - from);
        }
        let (head, _) = tail.split_at(to - from);
        let r = head.to_owned();
        proof {
            let head_bytes = encode_utf8(head@);
            encode_utf8_valid_utf8(head@);
            encode_utf8_decode_utf8(head@);
            assert(head_bytes =~= bytes.subrange(from as int, to as int));
            lemma_decode_ascii(head_bytes);
        }
        r
    }
}

} // verus!
