//! Facts about UTF-8 byte sequences and their character boundaries.
use vstd::prelude::*;
use vstd::utf8::*;

verus! {

broadcast use {
    encode_utf8_valid_utf8,
    encode_utf8_decode_utf8,
    is_char_boundary_start_end_of_seq,
    is_char_boundary_iff_not_is_continuation_byte,
};

/// A byte range of valid UTF-8 whose ends are character boundaries is valid UTF-8 itself, and
/// its boundaries are exactly the boundaries of the whole that fall inside it.
pub proof fn lemma_sub_boundary(bytes: Seq<u8>, a: int, b: int, i: int)
    requires
        valid_utf8(bytes),
        0 <= a <= b <= bytes.len(),
        is_char_boundary(bytes, a),
        is_char_boundary(bytes, b),
        0 <= i <= b - a,
    ensures
        valid_utf8(bytes.subrange(a, b)),
        is_char_boundary(bytes.subrange(a, b), i) <==> is_char_boundary(bytes, a + i),
{
    lemma_sub_valid(bytes, a, b);
    let sub = bytes.subrange(a, b);
    is_char_boundary_start_end_of_seq(sub);
    if 0 < i < b - a {
        assert(sub[i] == bytes[a + i]);
        is_char_boundary_iff_not_is_continuation_byte(sub, i);
        is_char_boundary_iff_not_is_continuation_byte(bytes, a + i);
    }
}

/// The bytes between two character boundaries of valid UTF-8 are valid UTF-8.
pub proof fn lemma_sub_valid(bytes: Seq<u8>, a: int, b: int)
    requires
        valid_utf8(bytes),
        0 <= a <= b <= bytes.len(),
        is_char_boundary(bytes, a),
        is_char_boundary(bytes, b),
    ensures
        valid_utf8(bytes.subrange(a, b)),
{
    valid_utf8_split(bytes, a);
    let suffix = bytes.subrange(a, bytes.len() as int);
    is_char_boundary_start_end_of_seq(suffix);
    if b < bytes.len() {
        assert(suffix[b - a] == bytes[b]);
        is_char_boundary_iff_not_is_continuation_byte(suffix, b - a);
        is_char_boundary_iff_not_is_continuation_byte(bytes, b);
    }
    assert(is_char_boundary(suffix, b - a));
    valid_utf8_split(suffix, b - a);
    assert(suffix.subrange(0, b - a) =~= bytes.subrange(a, b));
}

/// Encoding distributes over concatenation.
pub proof fn lemma_encode_concat(x: Seq<char>, y: Seq<char>)
    ensures
        encode_utf8(x + y) == encode_utf8(x) + encode_utf8(y),
    decreases x.len(),
{
    if x.len() == 0 {
        assert(x + y =~= y);
    } else {
        lemma_encode_concat(x.drop_first(), y);
        assert((x + y).drop_first() =~= x.drop_first() + y);
        assert((x + y)[0] == x[0]);
    }
}

/// Two character sequences with the same encoding are equal.
pub proof fn lemma_encode_injective(x: Seq<char>, y: Seq<char>)
    requires
        encode_utf8(x) == encode_utf8(y),
    ensures
        x == y,
{
    assert(decode_utf8(encode_utf8(x)) == x);
    assert(decode_utf8(encode_utf8(y)) == y);
}

/// When every byte after position `k` is a continuation byte and the byte at `k` is not, `k`
/// is where the last character of valid UTF-8 starts: the text splits there into everything
/// before it and that one character.
pub proof fn lemma_last_char(bytes: Seq<u8>, k: int)
    requires
        valid_utf8(bytes),
        0 <= k < bytes.len(),
        !is_continuation_byte(bytes[k]),
        forall|j: int| k < j < bytes.len() ==> is_continuation_byte(#[trigger] bytes[j]),
    ensures
        is_char_boundary(bytes, k),
        decode_utf8(bytes.subrange(k, bytes.len() as int)).len() == 1,
        decode_utf8(bytes) == decode_utf8(bytes.subrange(0, k)) + decode_utf8(
            bytes.subrange(k, bytes.len() as int),
        ),
{
    is_char_boundary_iff_not_is_continuation_byte(bytes, k);
    valid_utf8_split(bytes, k);
    decode_utf8_split(bytes, k);
    let sub = bytes.subrange(k, bytes.len() as int);
    let n = length_of_first_scalar(sub);
    reveal_with_fuel(is_char_boundary, 2);
    assert(is_char_boundary(sub, n));
    if n < sub.len() {
        is_char_boundary_iff_not_is_continuation_byte(sub, n);
        assert(sub[n] == bytes[k + n]);
    }
    assert(pop_first_scalar(sub).len() == 0);
    reveal_with_fuel(decode_utf8, 2);
}

/// An ASCII byte of valid UTF-8 is a character by itself: there are boundaries on both sides.
pub proof fn lemma_ascii_boundary(bytes: Seq<u8>, i: int)
    requires
        valid_utf8(bytes),
        0 <= i < bytes.len(),
        bytes[i] < 0x80,
    ensures
        is_char_boundary(bytes, i),
        is_char_boundary(bytes, i + 1),
{
    is_char_boundary_iff_not_is_continuation_byte(bytes, i);
    valid_utf8_split(bytes, i);
    let suffix = bytes.subrange(i, bytes.len() as int);
    assert(suffix[0] == bytes[i]);
    reveal_with_fuel(is_char_boundary, 2);
    assert(is_char_boundary(suffix, 1));
    is_char_boundary_start_end_of_seq(bytes);
    lemma_sub_boundary(bytes, i, bytes.len() as int, 1);
}

/// The encoding of a non-empty text is the encoding of its first character followed by the
/// encoding of the rest, with a character boundary in between.
pub proof fn lemma_first_char(text: Seq<char>)
    requires
        text.len() > 0,
    ensures
        encode_utf8(seq![text[0]]).len() <= encode_utf8(text).len(),
        is_char_boundary(encode_utf8(text), encode_utf8(seq![text[0]]).len() as int),
        encode_utf8(text).subrange(
            encode_utf8(seq![text[0]]).len() as int,
            encode_utf8(text).len() as int,
        ) == encode_utf8(text.drop_first()),
{
    let c = seq![text[0]];
    assert(text =~= c + text.drop_first());
    lemma_encode_concat(c, text.drop_first());
    let b = encode_utf8(text);
    let n = encode_utf8(c).len() as int;
    assert(b.subrange(n, b.len() as int) =~= encode_utf8(text.drop_first()));
    encode_utf8_first_scalar(text);
    assert(c.drop_first() =~= Seq::<char>::empty());
    assert(encode_utf8(c) == encode_scalar(text[0] as u32));
    reveal_with_fuel(is_char_boundary, 2);
    is_char_boundary_start_end_of_seq(pop_first_scalar(b));
}

} // verus!
