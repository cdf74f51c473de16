//! Cutting a string slice in two at a character position, in time linear in
//! the length of the first part.

use vstd::prelude::*;
use vstd::string::StringSliceAdditionalSpecFns;
use vstd::utf8::{
    decode_utf8, encode_scalar, encode_utf8, encode_utf8_decode_utf8, encode_utf8_first_scalar,
    encode_utf8_valid_utf8, is_char_boundary, length_of_first_scalar, pop_first_scalar,
};

verus! {

/// The encoding of two texts joined is the two encodings joined.
proof fn lemma_encoding_of_joined(a: Seq<char>, b: Seq<char>)
    ensures
        encode_utf8(a + b) == encode_utf8(a) + encode_utf8(b),
    decreases a.len(),
{
    if a.len() == 0 {
        assert(a + b =~= b);
        assert(encode_utf8(a) + encode_utf8(b) =~= encode_utf8(b));
    } else {
        lemma_encoding_of_joined(a.drop_first(), b);
        assert((a + b).drop_first() =~= a.drop_first() + b);
        assert(encode_utf8(a + b) =~= encode_utf8(a) + encode_utf8(b));
    }
}

/// In the encoding of two texts joined, the second begins at a character
/// boundary.
proof fn lemma_boundary_between_joined(a: Seq<char>, b: Seq<char>)
    ensures
        is_char_boundary(encode_utf8(a + b), encode_utf8(a).len() as int),
    decreases a.len(),
{
    let bytes = encode_utf8(a + b);
    encode_utf8_valid_utf8(a + b);
    if a.len() > 0 {
        let rest = a.drop_first();
        lemma_boundary_between_joined(rest, b);
        lemma_encoding_of_joined(a, b);
        encode_utf8_first_scalar(a + b);
        encode_utf8_first_scalar(a);
        assert((a + b).drop_first() =~= rest + b);
        assert(pop_first_scalar(bytes) =~= encode_utf8(rest + b));
        assert(length_of_first_scalar(bytes) == encode_scalar(a[0] as u32).len());
        assert(encode_utf8(a).len() == encode_scalar(a[0] as u32).len() + encode_utf8(rest).len());
    }
}

/// The first `k` characters of `s`, and the rest.
pub fn split_chars<'a>(s: &'a str, k: usize) -> (parts: (&'a str, &'a str))
    requires
        k <= s@.len(),
    ensures
        parts.0@ == s@.take(k as int),
        parts.1@ == s@.skip(k as int),
{
    let head = s.substring_char(0, k);
    let mid = head.as_bytes().len();
    let ghost a = s@.take(k as int);
    let ghost b = s@.skip(k as int);
    proof {
        assert(a + b =~= s@);
        assert(head@ =~= a);
        lemma_encoding_of_joined(a, b);
        lemma_boundary_between_joined(a, b);
        assert(encode_utf8(a).len() <= s.spec_bytes().len());
    }
    let parts = s.split_at(mid);
    proof {
        let bytes = s.spec_bytes();
        assert(bytes.subrange(0, mid as int) =~= encode_utf8(a));
        assert(bytes.subrange(mid as int, bytes.len() as int) =~= encode_utf8(b));
        encode_utf8_decode_utf8(a);
        encode_utf8_decode_utf8(b);
        encode_utf8_decode_utf8(parts.0@);
        encode_utf8_decode_utf8(parts.1@);
    }
    parts
}

} // verus!
