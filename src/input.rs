//! The operations that parser combinators consume: splitting at a byte position, walking
//! characters by index, comparing against a literal, and how far one view has advanced from
//! another on the same storage.
use crate::data::Data;
use crate::range::Bound;
use crate::scan::{char_at, same_bytes, text_between};
use crate::string::ImString;
use std::ops::{RangeFrom, RangeTo};
use std::string::String;
use vstd::prelude::*;
use std::string::ToString;
use vstd::string::StringSliceAdditionalSpecFns;
use vstd::utf8::*;

verus! {

broadcast use {
    encode_utf8_valid_utf8,
    encode_utf8_decode_utf8,
    is_char_boundary_start_end_of_seq,
};

/// The outcome of comparing a text with a literal that it should start with.
#[derive(Debug, Clone, Copy, PartialEq, Eq, Structural)]
pub enum CompareResult {
    /// The text starts with the literal.
    Matched,
    /// The text is a proper prefix of the literal: more input is needed.
    Incomplete,
    /// The text and the literal differ.
    Error,
}

/// A byte with ASCII upper case letters taken to lower case.
pub open spec fn ascii_lower(b: u8) -> u8 {
    if 65 <= b <= 90 {
        (b + 32) as u8
    } else {
        b
    }
}

/// A byte as the comparison sees it: folded to ASCII lower case when `fold` is set.
pub open spec fn compare_key(b: u8, fold: bool) -> u8 {
    if fold {
        ascii_lower(b)
    } else {
        b
    }
}

/// How `text` compares with `literal`: `Error` when they differ at a position that both have,
/// else `Matched` when `text` is at least as long, else `Incomplete`.
pub open spec fn compare_bytes_spec(text: Seq<u8>, literal: Seq<u8>, fold: bool) -> CompareResult {
    if exists|i: int|
        0 <= i < text.len() && i < literal.len() && compare_key(text[i], fold) != compare_key(
            literal[i],
            fold,
        ) {
        CompareResult::Error
    } else if text.len() >= literal.len() {
        CompareResult::Matched
    } else {
        CompareResult::Incomplete
    }
}

fn lower(b: u8) -> (r: u8)
    ensures
        r == ascii_lower(b),
{
    if 65 <= b && b <= 90 {
        b + 32
    } else {
        b
    }
}

/// Compares `text` with `literal` byte by byte, folding ASCII case when `fold` is set.
pub fn compare_bytes_with(text: &[u8], literal: &[u8], fold: bool) -> (r: CompareResult)
    ensures
        r == compare_bytes_spec(text@, literal@, fold),
{
    let n = if text.len() < literal.len() {
        text.len()
    } else {
        literal.len()
    };
    let mut i: usize = 0;
    while i < n
        invariant
            0 <= i <= n,
            n <= text@.len(),
            n <= literal@.len(),
            n == text@.len() || n == literal@.len(),
            forall|j: int| 0 <= j < i ==> compare_key(text@[j], fold) == compare_key(literal@[j], fold),
        decreases n - i,
    {
        let (a, b) = if fold {
            (lower(text[i]), lower(literal[i]))
        } else {
            (text[i], literal[i])
        };
        if a != b {
            return CompareResult::Error;
        }
        i = i + 1;
    }
    if text.len() >= literal.len() {
        CompareResult::Matched
    } else {
        CompareResult::Incomplete
    }
}

/// The first character of `text` for which `predicate` held is at byte `i`.
pub open spec fn first_match<P: Fn(char) -> bool>(text: Seq<char>, predicate: P, i: int) -> bool {
    exists|k: int|
        {
            &&& 0 <= k < text.len()
            &&& i == encode_utf8(text.subrange(0, k)).len()
            &&& predicate.ensures((text[k],), true)
            &&& forall|j: int| 0 <= j < k ==> predicate.ensures((#[trigger] text[j],), false)
        }
}

/// `predicate` held for no character of `text`.
pub open spec fn no_match<P: Fn(char) -> bool>(text: Seq<char>, predicate: P) -> bool {
    forall|j: int| 0 <= j < text.len() ==> predicate.ensures((#[trigger] text[j],), false)
}

/// Why a split at the first matching character failed.
#[derive(Debug, Clone, Copy, PartialEq, Eq, Structural)]
pub enum SplitFailure {
    /// No character matched: more input might bring one.
    Incomplete,
    /// The split would leave the matched part empty.
    Empty,
}

/// The characters that `char::to_lowercase` gives for a character.
pub uninterp spec fn lowercase_of(c: char) -> Seq<char>;

/// Relies on `char::to_lowercase`: the lower case mapping of the character, which depends on
/// the character alone.
#[verifier::external_body]
fn lowercase(c: char) -> (r: String)
    ensures
        r@ == lowercase_of(c),
{
    c.to_lowercase().to_string()
}

/// How `text` compares with `literal`, ignoring case: `Error` when at a position that both
/// have the characters' lower case mappings differ, else `Matched` when `text` has at least as
/// many bytes, else `Incomplete`.
pub open spec fn compare_text_no_case(text: Seq<char>, literal: Seq<char>) -> CompareResult {
    if exists|i: int|
        0 <= i < text.len() && i < literal.len() && lowercase_of(#[trigger] text[i]) != lowercase_of(
            literal[i],
        ) {
        CompareResult::Error
    } else if encode_utf8(text).len() >= encode_utf8(literal).len() {
        CompareResult::Matched
    } else {
        CompareResult::Incomplete
    }
}

/// Relies on `str::parse`: whatever `R`'s `FromStr` makes of the text, if it succeeds.
#[verifier::external_body]
fn parse_text<R: std::str::FromStr>(text: &str) -> Option<R> {
    text.parse::<R>().ok()
}

impl<S: Data<String>> ImString<S> {
    /// The first `count` bytes, on the same storage; `count` must be a character boundary.
    pub fn take(&self, count: usize) -> (r: Self)
        requires
            self.wf(),
            count <= self@.len(),
            is_char_boundary(self@, count as int),
        ensures
            r.is_slice_of(self, 0, count as int),
    {
        proof {
            self.lemma_valid();
        }
        self.slice(RangeTo { end: count })
    }

    /// The text after the first `count` bytes and the first `count` bytes, in that order, on
    /// the same storage; `count` must be a character boundary.
    pub fn take_split(&self, count: usize) -> (r: (Self, Self))
        requires
            self.wf(),
            count <= self@.len(),
            is_char_boundary(self@, count as int),
        ensures
            r.0.is_slice_of(self, count as int, self@.len() as int),
            r.1.is_slice_of(self, 0, count as int),
    {
        proof {
            self.lemma_valid();
        }
        (self.slice(RangeFrom { start: count }), self.slice(RangeTo { end: count }))
    }

    /// How many bytes `second`, a view on the same storage that starts no earlier, has
    /// advanced from this view.
    pub fn offset(&self, second: &Self) -> (r: usize)
        requires
            self.spec_start() <= second.spec_start(),
        ensures
            r == second.spec_start() - self.spec_start(),
    {
        second.raw_offset().start - self.raw_offset().start
    }

    /// Compares the text with a literal that it should start with.
    pub fn compare(&self, literal: &str) -> (r: CompareResult)
        requires
            self.wf(),
        ensures
            r == compare_bytes_spec(self@, literal.spec_bytes(), false),
    {
        compare_bytes_with(self.as_bytes(), literal.as_bytes(), false)
    }

    /// Compares the text with a literal that it should start with, ignoring case: characters
    /// count as equal when their lower case mappings are.
    pub fn compare_no_case(&self, literal: &str) -> (r: CompareResult)
        requires
            self.wf(),
        ensures
            r == compare_text_no_case(self.text(), literal@),
    {
        let text = self.as_str();
        let ghost tb = text.spec_bytes();
        let ghost lb = literal.spec_bytes();
        let ghost t = self.text();
        let ghost l = literal@;
        let tl = text.as_bytes().len();
        let ll = literal.as_bytes().len();
        let mut i: usize = 0;
        let mut j: usize = 0;
        let ghost mut n: int = 0;
        proof {
            self.lemma_valid();
            assert(tb.subrange(0, tl as int) =~= tb);
            assert(lb.subrange(0, ll as int) =~= lb);
            assert(tb.subrange(0, 0) =~= Seq::<u8>::empty());
            assert(lb.subrange(0, 0) =~= Seq::<u8>::empty());
        }
        while i < tl && j < ll
            invariant
                tb == text.spec_bytes(),
                lb == literal.spec_bytes(),
                t == self.text(),
                l == literal@,
                tb == encode_utf8(t),
                lb == encode_utf8(l),
                tl == tb.len(),
                ll == lb.len(),
                0 <= i <= tl,
                0 <= j <= ll,
                0 <= n <= t.len(),
                n <= l.len(),
                is_char_boundary(tb, i as int),
                is_char_boundary(lb, j as int),
                text_between(tb, 0, i as int) =~= t.subrange(0, n),
                text_between(tb, i as int, tl as int) =~= t.subrange(n, t.len() as int),
                text_between(lb, 0, j as int) =~= l.subrange(0, n),
                text_between(lb, j as int, ll as int) =~= l.subrange(n, l.len() as int),
                forall|k: int| 0 <= k < n ==> lowercase_of(#[trigger] t[k]) == lowercase_of(l[k]),
            decreases tl - i,
        {
            let (a, next_i) = char_at(text, i);
            let (b, next_j) = char_at(literal, j);
            proof {
                assert(a == t[n] && b == l[n]);
                crate::boundary::lemma_sub_valid(tb, 0, next_i as int);
                crate::boundary::lemma_sub_boundary(tb, 0, next_i as int, i as int);
                vstd::utf8::decode_utf8_split(tb.subrange(0, next_i as int), i as int);
                assert(tb.subrange(0, next_i as int).subrange(0, i as int) =~= tb.subrange(0, i as int));
                assert(tb.subrange(0, next_i as int).subrange(i as int, next_i as int) =~= tb.subrange(i as int, next_i as int));
                crate::boundary::lemma_sub_valid(lb, 0, next_j as int);
                crate::boundary::lemma_sub_boundary(lb, 0, next_j as int, j as int);
                vstd::utf8::decode_utf8_split(lb.subrange(0, next_j as int), j as int);
                assert(lb.subrange(0, next_j as int).subrange(0, j as int) =~= lb.subrange(0, j as int));
                assert(lb.subrange(0, next_j as int).subrange(j as int, next_j as int) =~= lb.subrange(j as int, next_j as int));
            }
            let la = lowercase(a);
            let lb_char = lowercase(b);
            if !same_bytes(la.as_str().as_bytes(), lb_char.as_str().as_bytes()) {
                return CompareResult::Error;
            }
            proof {
                crate::boundary::lemma_encode_injective(la@, lb_char@);
            }
            i = next_i;
            j = next_j;
            proof {
                n = n + 1;
            }
        }
        proof {
            if i == tl {
                assert(tb.subrange(tl as int, tl as int) =~= Seq::<u8>::empty());
                assert(n == t.len());
            } else {
                assert(lb.subrange(ll as int, ll as int) =~= Seq::<u8>::empty());
                assert(n == l.len());
            }
        }
        if tl >= ll {
            CompareResult::Matched
        } else {
            CompareResult::Incomplete
        }
    }

    /// Compares the bytes with a literal that they should start with.
    pub fn compare_bytes(&self, literal: &[u8]) -> (r: CompareResult)
        requires
            self.wf(),
        ensures
            r == compare_bytes_spec(self@, literal@, false),
    {
        compare_bytes_with(self.as_bytes(), literal, false)
    }

    /// Compares the bytes with a literal that they should start with, ignoring ASCII case.
    pub fn compare_bytes_no_case(&self, literal: &[u8]) -> (r: CompareResult)
        requires
            self.wf(),
        ensures
            r == compare_bytes_spec(self@, literal@, true),
    {
        compare_bytes_with(self.as_bytes(), literal, true)
    }

    /// The byte position after the first `count` characters, or `None` when there are fewer.
    pub fn slice_index(&self, count: usize) -> (r: Option<usize>)
        requires
            self.wf(),
        ensures
            count <= self.text().len() ==> r == Some(
                encode_utf8(self.text().subrange(0, count as int)).len() as usize,
            ),
            count > self.text().len() ==> r is None,
    {
        let text = self.as_str();
        let ghost b = text.spec_bytes();
        let len = text.as_bytes().len();
        let mut i: usize = 0;
        let mut n: usize = 0;
        proof {
            self.lemma_valid();
            assert(b.subrange(0, len as int) =~= b);
            assert(b.subrange(0, 0) =~= Seq::<u8>::empty());
        }
        while n < count && i < len
            invariant
                b == text.spec_bytes(),
                b == self@,
                valid_utf8(b),
                len == b.len(),
                0 <= i <= len,
                n <= count,
                is_char_boundary(b, i as int),
                text_between(b, 0, i as int) =~= self.text().subrange(0, n as int),
                text_between(b, i as int, len as int) =~= self.text().subrange(n as int, self.text().len() as int),
                n <= self.text().len(),
            decreases len - i,
        {
            let (c, next) = char_at(text, i);
            proof {
                crate::boundary::lemma_sub_valid(b, 0, next as int);
                crate::boundary::lemma_sub_boundary(b, 0, next as int, i as int);
                vstd::utf8::decode_utf8_split(b.subrange(0, next as int), i as int);
                assert(b.subrange(0, next as int).subrange(0, i as int) =~= b.subrange(0, i as int));
                assert(b.subrange(0, next as int).subrange(i as int, next as int) =~= b.subrange(i as int, next as int));
            }
            i = next;
            n = n + 1;
        }
        proof {
            crate::boundary::lemma_sub_valid(b, 0, i as int);
            decode_utf8_encode_utf8(b.subrange(0, i as int));
            if i == len {
                assert(b.subrange(len as int, len as int) =~= Seq::<u8>::empty());
            }
        }
        if n == count {
            Some(i)
        } else {
            None
        }
    }

    /// The byte position of the first character for which `predicate` holds, or `None`.
    pub fn position<P: Fn(char) -> bool>(&self, predicate: P) -> (r: Option<usize>)
        requires
            self.wf(),
            forall|c: char| predicate.requires((c,)),
        ensures
            match r {
                Some(i) => {
                    &&& first_match(self.text(), predicate, i as int)
                    &&& i <= self@.len()
                    &&& is_char_boundary(self@, i as int)
                },
                None => no_match(self.text(), predicate),
            },
    {
        let text = self.as_str();
        let ghost b = text.spec_bytes();
        let ghost t = self.text();
        let len = text.as_bytes().len();
        let mut i: usize = 0;
        let ghost mut n: int = 0;
        proof {
            self.lemma_valid();
            assert(b.subrange(0, len as int) =~= b);
            assert(b.subrange(0, 0) =~= Seq::<u8>::empty());
        }
        while i < len
            invariant
                b == text.spec_bytes(),
                b == self@,
                t == self.text(),
                valid_utf8(b),
                len == b.len(),
                0 <= i <= len,
                0 <= n <= t.len(),
                forall|c: char| predicate.requires((c,)),
                is_char_boundary(b, i as int),
                text_between(b, 0, i as int) =~= t.subrange(0, n),
                text_between(b, i as int, len as int) =~= t.subrange(n, t.len() as int),
                forall|j: int| 0 <= j < n ==> predicate.ensures((#[trigger] t[j],), false),
            decreases len - i,
        {
            let (c, next) = char_at(text, i);
            proof {
                assert(c == t[n]);
                crate::boundary::lemma_sub_valid(b, 0, next as int);
                crate::boundary::lemma_sub_boundary(b, 0, next as int, i as int);
                vstd::utf8::decode_utf8_split(b.subrange(0, next as int), i as int);
                assert(b.subrange(0, next as int).subrange(0, i as int) =~= b.subrange(0, i as int));
                assert(b.subrange(0, next as int).subrange(i as int, next as int) =~= b.subrange(i as int, next as int));
            }
            if predicate(c) {
                proof {
                    crate::boundary::lemma_sub_valid(b, 0, i as int);
                    decode_utf8_encode_utf8(b.subrange(0, i as int));
                }
                return Some(i);
            }
            i = next;
            proof {
                n = n + 1;
            }
        }
        proof {
            assert(b.subrange(len as int, len as int) =~= Seq::<u8>::empty());
        }
        None
    }

    /// The text from byte `i` on and the text before it, on the same storage.
    fn split_at_byte(&self, i: usize) -> (r: (Self, Self))
        requires
            self.wf(),
            i <= self@.len(),
            is_char_boundary(self@, i as int),
        ensures
            r.0.is_slice_of(self, i as int, self@.len() as int),
            r.1.is_slice_of(self, 0, i as int),
    {
        proof {
            self.lemma_valid();
        }
        (self.slice(RangeFrom { start: i }), self.slice(RangeTo { end: i }))
    }

    /// Splits before the first character for which `predicate` holds, giving the rest and
    /// the part before it; `Incomplete` when no character matches.
    pub fn split_at_position<P: Fn(char) -> bool>(&self, predicate: P) -> (r: Result<(Self, Self), SplitFailure>)
        requires
            self.wf(),
            forall|c: char| predicate.requires((c,)),
        ensures
            r matches Ok(parts) ==> {
                &&& first_match(self.text(), predicate, parts.1@.len() as int)
                &&& parts.0.is_slice_of(self, parts.1@.len() as int, self@.len() as int)
                &&& parts.1.is_slice_of(self, 0, parts.1@.len() as int)
            },
            r matches Err(e) ==> e == SplitFailure::Incomplete && no_match(self.text(), predicate),
    {
        match self.position(predicate) {
            Some(i) => {
                Ok(self.split_at_byte(i))
            },
            None => Err(SplitFailure::Incomplete),
        }
    }

    /// Like [`split_at_position`](ImString::split_at_position), but `Empty` when the first
    /// character matches.
    pub fn split_at_position1<P: Fn(char) -> bool>(&self, predicate: P) -> (r: Result<(Self, Self), SplitFailure>)
        requires
            self.wf(),
            forall|c: char| predicate.requires((c,)),
        ensures
            r matches Ok(parts) ==> {
                &&& parts.1@.len() > 0
                &&& first_match(self.text(), predicate, parts.1@.len() as int)
                &&& parts.0.is_slice_of(self, parts.1@.len() as int, self@.len() as int)
                &&& parts.1.is_slice_of(self, 0, parts.1@.len() as int)
            },
            r matches Err(e) ==> (e == SplitFailure::Empty && first_match(self.text(), predicate, 0))
                || (e == SplitFailure::Incomplete && no_match(self.text(), predicate)),
    {
        match self.position(predicate) {
            Some(i) => {
                if i == 0 {
                    Err(SplitFailure::Empty)
                } else {
                    Ok(self.split_at_byte(i))
                }
            },
            None => Err(SplitFailure::Incomplete),
        }
    }

    /// Like [`split_at_position`](ImString::split_at_position), but when no character matches
    /// the whole text is the part before, and the rest is empty.
    pub fn split_at_position_complete<P: Fn(char) -> bool>(&self, predicate: P) -> (r: (Self, Self))
        requires
            self.wf(),
            forall|c: char| predicate.requires((c,)),
        ensures
            first_match(self.text(), predicate, r.1@.len() as int) || (r.1@.len() == self@.len()
                && no_match(self.text(), predicate)),
            r.0.is_slice_of(self, r.1@.len() as int, self@.len() as int),
            r.1.is_slice_of(self, 0, r.1@.len() as int),
    {
        proof {
            self.lemma_valid();
        }
        match self.position(predicate) {
            Some(i) => self.split_at_byte(i),
            None => self.split_at_byte(self.len()),
        }
    }

    /// Like [`split_at_position_complete`](ImString::split_at_position_complete), but `Empty`
    /// when the first character matches or the text is empty.
    pub fn split_at_position1_complete<P: Fn(char) -> bool>(&self, predicate: P) -> (r: Result<(Self, Self), SplitFailure>)
        requires
            self.wf(),
            forall|c: char| predicate.requires((c,)),
        ensures
            r matches Ok(parts) ==> {
                &&& parts.1@.len() > 0
                &&& (first_match(self.text(), predicate, parts.1@.len() as int) || (parts.1@.len()
                    == self@.len() && no_match(self.text(), predicate)))
                &&& parts.0.is_slice_of(self, parts.1@.len() as int, self@.len() as int)
                &&& parts.1.is_slice_of(self, 0, parts.1@.len() as int)
            },
            r matches Err(e) ==> e == SplitFailure::Empty && (first_match(self.text(), predicate, 0) || (self@.len() == 0 && no_match(self.text(), predicate))),
    {
        proof {
            self.lemma_valid();
        }
        match self.position(predicate) {
            Some(i) => {
                if i == 0 {
                    Err(SplitFailure::Empty)
                } else {
                    Ok(self.split_at_byte(i))
                }
            },
            None => {
                let len = self.len();
                if len == 0 {
                    Err(SplitFailure::Empty)
                } else {
                    Ok(self.split_at_byte(len))
                }
            },
        }
    }

    /// Parses the text as a value of type `R`, or `None` when that fails.
    pub fn parse_to<R: std::str::FromStr>(&self) -> (r: Option<R>)
        requires
            self.wf(),
    {
        parse_text(self.as_str())
    }
}

} // verus!
