//! Reading characters at byte positions of a text.
use crate::boundary::{lemma_first_char, lemma_last_char, lemma_sub_valid};
use vstd::prelude::*;
use vstd::string::StringSliceAdditionalSpecFns;
use vstd::utf8::*;

verus! {

broadcast use {
    encode_utf8_valid_utf8,
    encode_utf8_decode_utf8,
    is_char_boundary_start_end_of_seq,
    vstd::string::group_string_axioms,
};

/// The text of the bytes `start..end` of `bytes`.
pub open spec fn text_between(bytes: Seq<u8>, start: int, end: int) -> Seq<char> {
    decode_utf8(bytes.subrange(start, end))
}

/// The character that starts at byte `i` of `text`, which must be a character boundary before
/// the end, and the byte position after it.
pub fn char_at(text: &str, i: usize) -> (r: (char, usize))
    requires
        i < text.spec_bytes().len(),
        is_char_boundary(text.spec_bytes(), i as int),
    ensures
        i < r.1 <= text.spec_bytes().len(),
        is_char_boundary(text.spec_bytes(), r.1 as int),
        text_between(text.spec_bytes(), i as int, text.spec_bytes().len() as int).len() > 0,
        text_between(text.spec_bytes(), i as int, text.spec_bytes().len() as int)[0] == r.0,
        text_between(text.spec_bytes(), i as int, text.spec_bytes().len() as int).drop_first()
            == text_between(text.spec_bytes(), r.1 as int, text.spec_bytes().len() as int),
        text_between(text.spec_bytes(), i as int, r.1 as int) == seq![r.0],
{
    let ghost b = text.spec_bytes();
    let ghost n = b.len() as int;
    let _len = text.as_bytes().len();
    let (_, tail) = text.split_at(i);
    proof {
        lemma_sub_valid(b, i as int, n);
        decode_utf8_encode_utf8(b.subrange(i as int, n));
        assert(tail@ == text_between(b, i as int, n));
        assert(tail@.len() > 0);
        lemma_first_char(tail@);
    }
    let mut it = tail.chars();
    match it.next() {
        Some(c) => {
            let w = c.len_utf8();
            proof {
                let t = tail@;
                let sub = b.subrange(i as int, n);
                assert(sub.subrange(w as int, sub.len() as int) =~= b.subrange(i + w, n));
                crate::boundary::lemma_sub_boundary(b, i as int, n, w as int);
                assert(sub.subrange(0, w as int) =~= b.subrange(i as int, i + w));
                assert(t =~= seq![c] + t.drop_first());
                crate::boundary::lemma_encode_concat(seq![c], t.drop_first());
                assert(encode_utf8(t).subrange(0, w as int) =~= encode_utf8(seq![c]));
                assert(decode_utf8(encode_utf8(seq![c])) == seq![c]);
            }
            (c, i + w)
        },
        None => {
            proof {
                assert(false);
            }
            (' ', i + 1)
        },
    }
}

/// The character that ends at byte `i` of `text`, which must be a character boundary after
/// the start, and the byte position where it starts.
pub fn char_before(text: &str, i: usize) -> (r: (usize, char))
    requires
        0 < i <= text.spec_bytes().len(),
        is_char_boundary(text.spec_bytes(), i as int),
    ensures
        r.0 < i,
        is_char_boundary(text.spec_bytes(), r.0 as int),
        text_between(text.spec_bytes(), 0, i as int) == text_between(text.spec_bytes(), 0, r.0 as int).push(r.1),
{
    let ghost b = text.spec_bytes();
    let bytes = text.as_bytes();
    let mut k: usize = i - 1;
    while k > 0 && 0x80 <= bytes[k] && bytes[k] <= 0xbf
        invariant
            0 <= k < i,
            i <= bytes@.len(),
            bytes@ == b,
            forall|j: int| k < j < i ==> is_continuation_byte(#[trigger] bytes@[j]),
        decreases k,
    {
        k = k - 1;
    }
    let ghost pre = b.subrange(0, i as int);
    proof {
        lemma_sub_valid(b, 0, i as int);
        assert(pre[k as int] == b[k as int]);
        if k == 0 {
            is_char_boundary_iff_not_is_continuation_byte(pre, 0);
        }
        assert forall|j: int| k < j < pre.len() implies is_continuation_byte(#[trigger] pre[j]) by {
            assert(pre[j] == bytes@[j]);
        }
        lemma_last_char(pre, k as int);
        crate::boundary::lemma_sub_boundary(b, 0, i as int, k as int);
        assert(pre.subrange(0, k as int) =~= b.subrange(0, k as int));
    }
    let (c, _) = char_at(text, k);
    proof {
        let n = b.len() as int;
        let rest = b.subrange(k as int, n);
        crate::boundary::lemma_sub_boundary(b, k as int, n, (i - k) as int);
        assert(pre.subrange(k as int, i as int) =~= b.subrange(k as int, i as int));
        decode_utf8_split(rest, (i - k) as int);
        assert(rest.subrange(0, (i - k) as int) =~= b.subrange(k as int, i as int));
        assert(text_between(b, 0, i as int) =~= text_between(b, 0, k as int) + seq![c]);
    }
    (k, c)
}

/// Whether two byte sequences are equal.
pub fn same_bytes(a: &[u8], b: &[u8]) -> (r: bool)
    ensures
        r == (a@ == b@),
{
    if a.len() != b.len() {
        return false;
    }
    let mut i: usize = 0;
    while i < a.len()
        invariant
            a@.len() == b@.len(),
            0 <= i <= a@.len(),
            forall|j: int| 0 <= j < i ==> a@[j] == b@[j],
        decreases a@.len() - i,
    {
        if a[i] != b[i] {
            return false;
        }
        i = i + 1;
    }
    proof {
        assert(a@ =~= b@);
    }
    true
}

} // verus!
