//! Lazy sequences over the text of an [`ImString`]: its characters, its characters with
//! their byte offsets, and its lines. Each step re-slices the remaining view, sharing storage.
use crate::boundary::{lemma_ascii_boundary, lemma_first_char};
use crate::data::Data;
use crate::string::ImString;
use std::string::String;
use vstd::prelude::*;
use vstd::string::StringSliceAdditionalSpecFns;
use vstd::utf8::*;

verus! {

broadcast use {
    encode_utf8_valid_utf8,
    encode_utf8_decode_utf8,
    is_char_boundary_start_end_of_seq,
    vstd::string::group_string_axioms,
};

/// The characters of a view, front to back.
#[derive(Clone, Debug)]
pub struct Chars<S: Data<String>> {
    string: ImString<S>,
}

/// The characters of a view with the byte offset of each, counted from where the sequence
/// started.
#[derive(Clone, Debug)]
pub struct CharIndices<S: Data<String>> {
    offset: usize,
    string: ImString<S>,
}

/// The lines of a view, each a view on the same storage.
pub struct ImStringIterator<S: Data<String>> {
    string: ImString<S>,
}

/// The lines of a view.
pub type Lines<S> = ImStringIterator<S>;

/// A well-formed view with the same buffer and range as `a` is the whole of `a`.
proof fn lemma_same_view<S: Data<String>>(a: ImString<S>, b: ImString<S>)
    requires
        a.wf(),
        b.wf(),
        b.buffer() == a.buffer(),
        b.spec_start() == a.spec_start(),
        b.spec_end() == a.spec_end(),
    ensures
        b.is_slice_of(&a, 0, a@.len() as int),
{
    a.lemma_view();
    b.lemma_view();
    assert(a@.subrange(0, a@.len() as int) =~= a@);
}

/// Takes the first character off a view.
fn split_first<S: Data<String>>(string: &ImString<S>) -> (r: Option<(char, ImString<S>)>)
    requires
        string.wf(),
    ensures
        string.text().len() == 0 <==> r is None,
        r matches Some((c, rest)) ==> {
            &&& c == string.text()[0]
            &&& rest.text() == string.text().drop_first()
            &&& encode_utf8(seq![c]).len() + rest@.len() == string@.len()
            &&& rest.is_slice_of(string, encode_utf8(seq![c]).len() as int, string@.len() as int)
        },
{
    let text = string.as_str();
    let mut it = text.chars();
    match it.next() {
        Some(c) => {
            let n = c.len_utf8();
            proof {
                lemma_first_char(text@);
            }
            let rest = string.slice(n..);
            Some((c, rest))
        },
        None => None,
    }
}

impl<S: Data<String>> Chars<S> {
    /// The sequence is over a well-formed view.
    pub open spec fn wf(&self) -> bool {
        self.view_left().wf()
    }

    /// The view that is left to walk.
    pub closed spec fn view_left(&self) -> ImString<S> {
        self.string
    }

    /// The characters that are left.
    pub open spec fn rest(&self) -> Seq<char> {
        self.view_left().text()
    }

    /// Returns the next character, or `None` at the end.
    pub fn next(&mut self) -> (r: Option<char>)
        requires
            old(self).wf(),
        ensures
            final(self).wf(),
            old(self).rest().len() == 0 ==> r is None && *final(self) == *old(self),
            old(self).rest().len() > 0 ==> r == Some(old(self).rest()[0]) && final(self).rest()
                == old(self).rest().drop_first(),
            final(self).view_left().is_slice_of(
                &old(self).view_left(),
                old(self).view_left()@.len() - final(self).view_left()@.len(),
                old(self).view_left()@.len() as int,
            ),
    {
        match split_first(&self.string) {
            Some((c, rest)) => {
                self.string = rest;
                Some(c)
            },
            None => {
                proof {
                    lemma_same_view(self.string, self.string);
                }
                None
            },
        }
    }
}

impl<S: Data<String>> CharIndices<S> {
    /// The sequence is over a well-formed view and its offsets cannot overflow.
    pub open spec fn wf(&self) -> bool {
        &&& self.view_left().wf()
        &&& self.offset_now() + self.view_left()@.len() <= usize::MAX
    }

    /// The view that is left to walk.
    pub closed spec fn view_left(&self) -> ImString<S> {
        self.string
    }

    /// The offset of the next character.
    pub closed spec fn offset_now(&self) -> int {
        self.offset as int
    }

    /// The characters that are left.
    pub open spec fn rest(&self) -> Seq<char> {
        self.view_left().text()
    }

    /// Returns the next character with its byte offset, or `None` at the end.
    pub fn next(&mut self) -> (r: Option<(usize, char)>)
        requires
            old(self).wf(),
        ensures
            final(self).wf(),
            old(self).rest().len() == 0 ==> r is None && *final(self) == *old(self),
            final(self).view_left().is_slice_of(
                &old(self).view_left(),
                old(self).view_left()@.len() - final(self).view_left()@.len(),
                old(self).view_left()@.len() as int,
            ),
            old(self).rest().len() > 0 ==> {
                &&& r == Some((old(self).offset_now() as usize, old(self).rest()[0]))
                &&& final(self).rest() == old(self).rest().drop_first()
                &&& final(self).offset_now() == old(self).offset_now() + encode_utf8(
                    seq![old(self).rest()[0]],
                ).len()
            },
    {
        match split_first(&self.string) {
            Some((c, rest)) => {
                let offset = self.offset;
                self.offset = offset + c.len_utf8();
                self.string = rest;
                Some((offset, c))
            },
            None => {
                proof {
                    lemma_same_view(self.string, self.string);
                }
                None
            },
        }
    }
}

/// The position of the first line feed in `bytes` at or after `i`, or the length if there is
/// none.
pub open spec fn newline_from(bytes: Seq<u8>, i: int) -> int
    decreases bytes.len() - i,
{
    if i < 0 || i >= bytes.len() {
        bytes.len() as int
    } else if bytes[i] == 10 {
        i
    } else {
        newline_from(bytes, i + 1)
    }
}

/// The first line of `bytes`: up to the first line feed, without a carriage return right
/// before it.
pub open spec fn first_line(bytes: Seq<u8>) -> Seq<u8> {
    let e = newline_from(bytes, 0);
    if e < bytes.len() && e > 0 && bytes[e - 1] == 13 {
        bytes.subrange(0, e - 1)
    } else {
        bytes.subrange(0, e)
    }
}

/// What follows the first line of `bytes` and its line feed.
pub open spec fn after_first_line(bytes: Seq<u8>) -> Seq<u8> {
    let e = newline_from(bytes, 0);
    if e < bytes.len() {
        bytes.subrange(e + 1, bytes.len() as int)
    } else {
        Seq::empty()
    }
}

proof fn lemma_newline_from(bytes: Seq<u8>, k: int, i: int)
    requires
        0 <= k <= i <= bytes.len(),
        forall|j: int| k <= j < i ==> bytes[j] != 10,
        i == bytes.len() || bytes[i] == 10,
    ensures
        newline_from(bytes, k) == i,
    decreases i - k,
{
    if k < i {
        lemma_newline_from(bytes, k + 1, i);
    }
}

impl<S: Data<String>> ImStringIterator<S> {
    /// The sequence is over a well-formed view.
    pub open spec fn wf(&self) -> bool {
        self.view_left().wf()
    }

    /// The view that is left to split.
    pub closed spec fn view_left(&self) -> ImString<S> {
        self.string
    }

    /// The bytes that are left.
    pub open spec fn rest(&self) -> Seq<u8> {
        self.view_left()@
    }

    /// Returns the next line, without its line ending, or `None` at the end. The last line
    /// needs no line ending.
    pub fn next(&mut self) -> (r: Option<ImString<S>>)
        requires
            old(self).wf(),
        ensures
            final(self).wf(),
            old(self).rest().len() == 0 ==> r is None && *final(self) == *old(self),
            final(self).view_left().is_slice_of(
                &old(self).view_left(),
                old(self).rest().len() - final(self).rest().len(),
                old(self).rest().len() as int,
            ),
            old(self).rest().len() > 0 ==> (r matches Some(line) && {
                &&& line@ == first_line(old(self).rest())
                &&& line.is_slice_of(&old(self).view_left(), 0, line@.len() as int)
                &&& final(self).rest() == after_first_line(old(self).rest())
            }),
    {
        let bytes = self.string.as_bytes();
        let len = bytes.len();
        if len == 0 {
            proof {
                lemma_same_view(self.string, self.string);
            }
            return None;
        }
        let mut i: usize = 0;
        while i < len && bytes[i] != 10
            invariant
                0 <= i <= len,
                len == bytes@.len(),
                forall|j: int| 0 <= j < i ==> bytes@[j] != 10,
            decreases len - i,
        {
            i = i + 1;
        }
        proof {
            lemma_newline_from(bytes@, 0, i as int);
            self.string.lemma_valid();
        }
        if i < len {
            proof {
                lemma_ascii_boundary(bytes@, i as int);
            }
            let line_end = if i > 0 && bytes[i - 1] == 13 {
                proof {
                    lemma_ascii_boundary(bytes@, i - 1);
                }
                i - 1
            } else {
                i
            };
            let line = self.string.slice(0..line_end);
            let rest = self.string.slice(i + 1..);
            self.string = rest;
            Some(line)
        } else {
            let line = self.string.slice(0..len);
            let rest = self.string.slice(len..);
            proof {
                assert(rest@ =~= Seq::<u8>::empty());
            }
            self.string = rest;
            Some(line)
        }
    }
}

impl<S: Data<String>> ImString<S> {
    /// The characters of the view.
    pub fn chars(&self) -> (r: Chars<S>)
        requires
            self.wf(),
        ensures
            r.wf(),
            r.rest() == self.text(),
            r.view_left().is_slice_of(self, 0, self@.len() as int),
    {
        let string = self.clone();
        proof {
            lemma_same_view(*self, string);
        }
        Chars { string: string }
    }

    /// The characters of the view with their byte offsets.
    pub fn char_indices(&self) -> (r: CharIndices<S>)
        requires
            self.wf(),
        ensures
            r.wf(),
            r.rest() == self.text(),
            r.offset_now() == 0,
            r.view_left().is_slice_of(self, 0, self@.len() as int),
    {
        // the length is a usize, so no offset into the view overflows
        let _len = self.len();
        let string = self.clone();
        proof {
            lemma_same_view(*self, string);
        }
        CharIndices { offset: 0, string: string }
    }

    /// The lines of the view, split at `\n` or `\r\n`, each a view on the same storage.
    pub fn lines(&self) -> (r: Lines<S>)
        requires
            self.wf(),
        ensures
            r.wf(),
            r.rest() == self@,
            r.view_left().is_slice_of(self, 0, self@.len() as int),
    {
        let string = self.clone();
        proof {
            lemma_same_view(*self, string);
        }
        ImStringIterator { string: string }
    }
}

} // verus!
