//! [`ImString`] type and associated data store types.
use crate::boundary::{lemma_encode_concat, lemma_sub_boundary, lemma_sub_valid};
use crate::data::Data;
use crate::error::SliceError;
use crate::provenance::try_slice_offset;
use crate::scan::{char_at, char_before, same_bytes, text_between};
use crate::string_specs::white_space;
use crate::range::{check_range, end_of, resolve_range, start_of, Bound, SliceRange};
use std::ops::Range;
use std::rc::Rc;
use std::string::String;
use std::sync::Arc;
use std::vec::Vec;
use vstd::prelude::*;
use vstd::slice::{slice_subrange, slice_to_vec};
use vstd::string::StringSliceAdditionalSpecFns;
use vstd::utf8::*;

verus! {

broadcast use {
    encode_utf8_valid_utf8,
    encode_utf8_decode_utf8,
    is_char_boundary_start_end_of_seq,
};

/// Threadsafe shared storage for string.
pub type Threadsafe = Arc<String>;

/// Shared storage for string (not threadsafe).
pub type Local = Rc<String>;

/// Cheaply cloneable and sliceable UTF-8 string type.
///
/// A view on a shared `String`: a storage handle and the byte range of the buffer that this
/// value shows. Its view (`@`) is the sequence of bytes in that range.
#[derive(Debug)]
pub struct ImString<S: Data<String>> {
    string: S,
    offset: Range<usize>,
}

impl<S: Data<String>> View for ImString<S> {
    type V = Seq<u8>;

    closed spec fn view(&self) -> Seq<u8> {
        self.buffer().subrange(self.offset.start as int, self.offset.end as int)
    }
}

impl<S: Data<String>> ImString<S> {
    /// Well-formedness: the range lies in the buffer and starts and ends on character
    /// boundaries.
    pub closed spec fn wf(&self) -> bool {
        &&& self.offset.start <= self.offset.end <= self.buffer().len()
        &&& is_char_boundary(self.buffer(), self.offset.start as int)
        &&& is_char_boundary(self.buffer(), self.offset.end as int)
    }

    /// The bytes of the whole backing buffer.
    pub closed spec fn buffer(&self) -> Seq<u8> {
        encode_utf8(self.string.value()@)
    }

    /// Where the view starts in the buffer.
    pub closed spec fn spec_start(&self) -> int {
        self.offset.start as int
    }

    /// Where the view ends in the buffer.
    pub closed spec fn spec_end(&self) -> int {
        self.offset.end as int
    }

    /// The text of the view.
    pub open spec fn text(&self) -> Seq<char> {
        decode_utf8(self@)
    }

    /// A well-formed view lies between two character boundaries of its buffer and is valid
    /// UTF-8.
    pub proof fn lemma_view(&self)
        requires
            self.wf(),
        ensures
            0 <= self.spec_start() <= self.spec_end() <= self.buffer().len(),
            is_char_boundary(self.buffer(), self.spec_start()),
            is_char_boundary(self.buffer(), self.spec_end()),
            self@ == self.buffer().subrange(self.spec_start(), self.spec_end()),
            valid_utf8(self@),
            self@.len() == self.spec_end() - self.spec_start(),
            encode_utf8(self.text()) == self@,
    {
        lemma_sub_valid(self.buffer(), self.spec_start(), self.spec_end());
        decode_utf8_encode_utf8(self@);
    }

    /// The text of a well-formed view is valid UTF-8 and is the encoding of its characters.
    pub proof fn lemma_valid(&self)
        requires
            self.wf(),
        ensures
            valid_utf8(self@),
            encode_utf8(self.text()) == self@,
    {
        self.lemma_view();
    }

    /// Creates a view on the whole of an owned string, without copying it.
    pub fn from_std_string(string: String) -> (r: Self)
        ensures
            r.wf(),
            r@ == encode_utf8(string@),
            r.spec_start() == 0,
            r.buffer() == encode_utf8(string@),
    {
        let len = string.as_str().as_bytes().len();
        let r = ImString { offset: 0..len, string: S::new(string) };
        proof {
            assert(r.buffer().subrange(0, len as int) =~= r.buffer());
        }
        r
    }

    /// Creates a new, empty view.
    pub fn new() -> (r: Self)
        ensures
            r.wf(),
            r@ == Seq::<u8>::empty(),
            r.spec_start() == 0,
            r.spec_end() == 0,
            r.buffer() == Seq::<u8>::empty(),
    {
        ImString::from_std_string(String::new())
    }

    /// Creates an empty view whose buffer has room for at least `capacity` bytes.
    pub fn with_capacity(capacity: usize) -> (r: Self)
        ensures
            r.wf(),
            r@ == Seq::<u8>::empty(),
            r.spec_start() == 0,
            r.spec_end() == 0,
            r.buffer() == Seq::<u8>::empty(),
    {
        ImString::from_std_string(String::with_capacity(capacity))
    }

    /// The length of the view in bytes.
    pub fn len(&self) -> (r: usize)
        requires
            self.wf(),
        ensures
            r == self@.len(),
    {
        proof {
            self.lemma_view();
        }
        self.offset.end - self.offset.start
    }

    /// Whether the view is empty.
    pub fn is_empty(&self) -> (r: bool)
        requires
            self.wf(),
        ensures
            r == (self@.len() == 0),
    {
        proof {
            self.lemma_view();
        }
        self.offset.start == self.offset.end
    }

    /// The capacity of the backing buffer, in bytes.
    pub fn capacity(&self) -> (r: usize)
        requires
            self.wf(),
        ensures
            r >= self.buffer().len(),
    {
        self.string.get().capacity()
    }

    /// The view's text as a string slice, without copying.
    pub fn as_str(&self) -> (r: &str)
        requires
            self.wf(),
        ensures
            r.spec_bytes() == self@,
            r@ == self.text(),
    {
        proof {
            self.lemma_view();
        }
        let whole = self.string.get().as_str();
        let start = self.offset.start;
        let end = self.offset.end;
        let (_, tail) = whole.split_at(start);
        proof {
            let b = self.buffer();
            assert(tail.spec_bytes() == b.subrange(start as int, b.len() as int));
            lemma_sub_boundary(b, start as int, b.len() as int, end - start);
            assert(b.subrange(start as int, b.len() as int).subrange(0, end - start) =~= self@);
        }
        let (r, _) = tail.split_at(end - start);
        proof {
            assert(r.spec_bytes() == self@);
            decode_utf8_encode_utf8(self@);
            assert(decode_utf8(encode_utf8(r@)) == r@);
        }
        r
    }

    /// The view's text for a value that may not be well-formed: nothing when it is not (no
    /// value that the library hands out is).
    pub open spec fn shown(&self) -> Seq<u8> {
        if self.wf() {
            self@
        } else {
            Seq::empty()
        }
    }

    /// Checks well-formedness at run time.
    pub(crate) fn check_wf(&self) -> (r: bool)
        ensures
            r == self.wf(),
    {
        let whole = self.string.get().as_str();
        let len = whole.as_bytes().len();
        self.offset.start <= self.offset.end && self.offset.end <= len && whole.is_char_boundary(
            self.offset.start,
        ) && whole.is_char_boundary(self.offset.end)
    }

    /// The view's text as a string slice, for callers that cannot require well-formedness.
    pub(crate) fn shown_str(&self) -> (r: &str)
        ensures
            r.spec_bytes() == self.shown(),
    {
        if self.check_wf() {
            self.as_str()
        } else {
            proof {
                reveal_strlit("");
            }
            ""
        }
    }

    /// The view's bytes, without copying.
    pub fn as_bytes(&self) -> (r: &[u8])
        requires
            self.wf(),
        ensures
            r@ == self@,
    {
        self.as_str().as_bytes()
    }
}

impl<S: Data<String>> ImString<S> {
    /// A view on the same buffer as `self`, over the byte range `start..end` of `self`'s text.
    pub open spec fn is_slice_of(&self, of: &Self, start: int, end: int) -> bool {
        &&& self.wf()
        &&& self.buffer() == of.buffer()
        &&& self.spec_start() == of.spec_start() + start
        &&& self.spec_end() == of.spec_start() + end
        &&& self@ == of@.subrange(start, end)
    }

    /// The outcome of validating a range description against this view.
    pub open spec fn check<R: SliceRange>(&self, range: R) -> Result<(int, int), SliceError> {
        check_range(self@, start_of(range.spec_start_bound()), end_of(range.spec_end_bound(), self@.len() as int))
    }

    /// The view on `start..end` of this view's text, sharing its storage; the range must have
    /// been checked.
    fn sub_view(&self, start: usize, end: usize) -> (r: Self)
        requires
            self.wf(),
            start <= end <= self@.len(),
            is_char_boundary(self@, start as int),
            is_char_boundary(self@, end as int),
        ensures
            r.is_slice_of(self, start as int, end as int),
    {
        proof {
            self.lemma_view();
            let b = self.buffer();
            let (s0, e0) = (self.offset.start as int, self.offset.end as int);
            lemma_sub_boundary(b, s0, e0, start as int);
            lemma_sub_boundary(b, s0, e0, end as int);
            assert(b.subrange(s0 + start, s0 + end) =~= self@.subrange(start as int, end as int));
        }
        let string = self.string.duplicate();
        proof {
            crate::data::lemma_duplicate_string(self.string, string);
        }
        ImString { string, offset: (self.offset.start + start)..(self.offset.start + end) }
    }

    /// Keeps the first `end` bytes of the view, which must be a character boundary; the
    /// storage is untouched.
    fn shorten(&mut self, end: usize)
        requires
            old(self).wf(),
            end <= old(self)@.len(),
            is_char_boundary(old(self)@, end as int),
        ensures
            final(self).is_slice_of(old(self), 0, end as int),
    {
        proof {
            self.lemma_view();
            let b = self.buffer();
            let (s0, e0) = (self.offset.start as int, self.offset.end as int);
            lemma_sub_boundary(b, s0, e0, end as int);
            assert(b.subrange(s0, s0 + end) =~= self@.subrange(0, end as int));
        }
        self.offset.end = self.offset.start + end;
    }

    /// Returns a slice of this view, sharing its storage, or the first error that applies to
    /// the range (see [`check_range`]).
    pub fn try_slice<R: SliceRange>(&self, range: R) -> (r: Result<Self, SliceError>)
        requires
            self.wf(),
        ensures
            match self.check(range) {
                Ok((s, e)) => r matches Ok(v) && v.is_slice_of(self, s, e),
                Err(err) => r == Err::<Self, SliceError>(err),
            },
    {
        match resolve_range(self.as_str(), range.start_bound(), range.end_bound()) {
            Ok(rg) => Ok(self.sub_view(rg.start, rg.end)),
            Err(err) => Err(err),
        }
    }

    /// Returns a slice of this view, sharing its storage. The range must be valid.
    pub fn slice<R: SliceRange>(&self, range: R) -> (r: Self)
        requires
            self.wf(),
            self.check(range) is Ok,
        ensures
            r.is_slice_of(self, self.check(range)->Ok_0.0, self.check(range)->Ok_0.1),
    {
        match self.try_slice(range) {
            Ok(v) => v,
            Err(_) => {
                proof {
                    assert(false);
                }
                ImString::new()
            },
        }
    }

    /// Returns a slice of this view for a range that the caller has already validated.
    pub fn slice_unchecked<R: SliceRange>(&self, range: R) -> (r: Self)
        requires
            self.wf(),
            self.check(range) is Ok,
        ensures
            r.is_slice_of(self, self.check(range)->Ok_0.0, self.check(range)->Ok_0.1),
    {
        proof {
            self.lemma_view();
        }
        let start: usize = match range.start_bound() {
            Bound::Included(v) => v,
            Bound::Excluded(v) => v + 1,
            Bound::Unbounded => 0,
        };
        let end: usize = match range.end_bound() {
            Bound::Included(v) => v + 1,
            Bound::Excluded(v) => v,
            Bound::Unbounded => self.offset.end - self.offset.start,
        };
        self.sub_view(start, end)
    }

    /// Splits the view at a byte position: `self` keeps the text before it and the text from
    /// it on is returned, sharing the storage. `None`, with `self` unchanged, when the position
    /// lies past the end or inside a character.
    pub fn try_split_off(&mut self, position: usize) -> (r: Option<Self>)
        requires
            old(self).wf(),
        ensures
            final(self).wf(),
            r is Some <==> (position <= old(self)@.len() && is_char_boundary(old(self)@, position as int)),
            r matches Some(v) ==> {
                &&& final(self).is_slice_of(old(self), 0, position as int)
                &&& v.is_slice_of(old(self), position as int, old(self)@.len() as int)
            },
            r is None ==> *final(self) == *old(self),
    {
        proof {
            self.lemma_view();
        }
        let len = self.offset.end - self.offset.start;
        if position > len {
            return None;
        }
        if !self.as_str().is_char_boundary(position) {
            return None;
        }
        let new = self.sub_view(position, len);
        self.shorten(position);
        Some(new)
    }

    /// Splits the view at a byte position, which must be a character boundary within it.
    pub fn split_off(&mut self, position: usize) -> (r: Self)
        requires
            old(self).wf(),
            position <= old(self)@.len(),
            is_char_boundary(old(self)@, position as int),
        ensures
            final(self).is_slice_of(old(self), 0, position as int),
            r.is_slice_of(old(self), position as int, old(self)@.len() as int),
    {
        match self.try_split_off(position) {
            Some(v) => v,
            None => {
                proof {
                    assert(false);
                }
                ImString::new()
            },
        }
    }
}

/// An edit of a text, applied by the copy-on-write protocol of [`ImString`].
enum Edit<'a> {
    /// Append a character.
    Push(char),
    /// Append a string.
    PushStr(&'a str),
    /// Insert a character at a byte position.
    Insert(usize, char),
    /// Insert a string at a byte position.
    InsertStr(usize, &'a str),
}

/// `bytes` with `piece` put in at byte position `at`.
pub open spec fn inserted(bytes: Seq<u8>, at: int, piece: Seq<u8>) -> Seq<u8> {
    bytes.subrange(0, at) + piece + bytes.subrange(at, bytes.len() as int)
}

/// The text that an edit makes of `text`.
spec fn edited(text: Seq<u8>, edit: Edit) -> Seq<u8> {
    match edit {
        Edit::Push(c) => text + encode_utf8(seq![c]),
        Edit::PushStr(s) => text + s.spec_bytes(),
        Edit::Insert(at, c) => inserted(text, at as int, encode_utf8(seq![c])),
        Edit::InsertStr(at, s) => inserted(text, at as int, s.spec_bytes()),
    }
}

/// Whether an edit can be made to `text`: an insertion must be at a character boundary.
spec fn edit_allowed(text: Seq<u8>, edit: Edit) -> bool {
    match edit {
        Edit::Insert(at, _) => is_char_boundary(text, at as int),
        Edit::InsertStr(at, _) => is_char_boundary(text, at as int),
        _ => true,
    }
}

/// Makes an edit to an owned string.
fn apply_edit(buf: &mut String, edit: &Edit)
    requires
        edit_allowed(encode_utf8(old(buf)@), *edit),
    ensures
        encode_utf8(final(buf)@) == edited(encode_utf8(old(buf)@), *edit),
{
    match edit {
        Edit::Push(c) => {
            buf.push(*c);
            proof {
                assert(buf@ =~= old(buf)@ + seq![*c]);
                lemma_encode_concat(old(buf)@, seq![*c]);
            }
        },
        Edit::PushStr(s) => {
            buf.push_str(s);
            proof {
                lemma_encode_concat(old(buf)@, s@);
            }
        },
        Edit::Insert(at, c) => {
            buf.insert(*at, *c);
        },
        Edit::InsertStr(at, s) => {
            buf.insert_str(*at, s);
        },
    }
}

impl<S: Data<String>> ImString<S> {
    /// The copy-on-write protocol: edits the buffer in place when this view starts at its
    /// beginning and the storage grants exclusive access, and otherwise edits a private copy of
    /// the visible text and moves to new storage. Either way no other view observes a change,
    /// and afterwards the buffer holds exactly the edited text.
    fn modify(&mut self, edit: Edit)
        requires
            old(self).wf(),
            edit_allowed(old(self)@, edit),
        ensures
            final(self).wf(),
            final(self)@ == edited(old(self)@, edit),
            final(self).spec_start() == 0,
            final(self).buffer() == final(self)@,
    {
        proof {
            self.lemma_view();
        }
        let end = self.offset.end;
        if self.offset.start == 0 {
            match self.string.get_mut() {
                Some(buf) => {
                    proof {
                        assert(encode_utf8(buf@).subrange(0, end as int) =~= old(self)@);
                    }
                    buf.truncate(end);
                    proof {
                        if end >= encode_utf8(old(self).string.value()@).len() {
                            assert(encode_utf8(buf@) =~= old(self)@);
                        }
                    }
                    apply_edit(buf, &edit);
                    let n = buf.as_str().as_bytes().len();
                    proof {
                        assert(encode_utf8(buf@).subrange(0, n as int) =~= encode_utf8(buf@));
                    }
                    self.offset = 0..n;
                    return;
                },
                None => {},
            }
        }
        let mut buf = self.as_str().to_owned();
        apply_edit(&mut buf, &edit);
        *self = ImString::from_std_string(buf);
    }

    /// Appends a character.
    pub fn push(&mut self, c: char)
        requires
            old(self).wf(),
        ensures
            final(self).wf(),
            final(self)@ == old(self)@ + encode_utf8(seq![c]),
            final(self).spec_start() == 0,
            final(self).buffer() == final(self)@,
    {
        self.modify(Edit::Push(c));
    }

    /// Appends a string.
    pub fn push_str(&mut self, string: &str)
        requires
            old(self).wf(),
        ensures
            final(self).wf(),
            final(self)@ == old(self)@ + string.spec_bytes(),
            final(self).spec_start() == 0,
            final(self).buffer() == final(self)@,
    {
        self.modify(Edit::PushStr(string));
    }

    /// Inserts a character at a byte position, which must be a character boundary.
    pub fn insert(&mut self, index: usize, c: char)
        requires
            old(self).wf(),
            is_char_boundary(old(self)@, index as int),
        ensures
            final(self).wf(),
            final(self)@ == inserted(old(self)@, index as int, encode_utf8(seq![c])),
            final(self).spec_start() == 0,
            final(self).buffer() == final(self)@,
    {
        self.modify(Edit::Insert(index, c));
    }

    /// Inserts a string at a byte position, which must be a character boundary.
    pub fn insert_str(&mut self, index: usize, string: &str)
        requires
            old(self).wf(),
            is_char_boundary(old(self)@, index as int),
        ensures
            final(self).wf(),
            final(self)@ == inserted(old(self)@, index as int, string.spec_bytes()),
            final(self).spec_start() == 0,
            final(self).buffer() == final(self)@,
    {
        self.modify(Edit::InsertStr(index, string));
    }
}

/// The outcome of [`ImString::try_set_offset`] for the range `start..end` of a buffer: the
/// first failing check in the order order, bounds of start, bounds of end, alignment of start,
/// alignment of end.
pub open spec fn check_offset(buffer: Seq<u8>, start: int, end: int) -> Result<(int, int), SliceError> {
    if end < start {
        Err(SliceError::EndBeforeStart)
    } else if start > buffer.len() {
        Err(SliceError::StartOutOfBounds)
    } else if end > buffer.len() {
        Err(SliceError::EndOutOfBounds)
    } else if !is_char_boundary(buffer, start) {
        Err(SliceError::StartNotAligned)
    } else if !is_char_boundary(buffer, end) {
        Err(SliceError::EndNotAligned)
    } else {
        Ok((start, end))
    }
}

impl<S: Data<String>> ImString<S> {
    /// Shortens the view to `length` bytes, which must be a character boundary; no effect when
    /// `length` is not less than the length. The buffer is cut too when it is not shared.
    pub fn truncate(&mut self, length: usize)
        requires
            old(self).wf(),
            length >= old(self)@.len() || is_char_boundary(old(self)@, length as int),
        ensures
            final(self).wf(),
            length >= old(self)@.len() ==> final(self)@ == old(self)@,
            length < old(self)@.len() ==> final(self)@ == old(self)@.subrange(0, length as int),
    {
        proof {
            self.lemma_view();
        }
        let start = self.offset.start;
        if length >= self.offset.end - start {
            return;
        }
        let end = start + length;
        proof {
            let b = self.buffer();
            lemma_sub_boundary(b, start as int, self.offset.end as int, length as int);
            lemma_sub_boundary(b, 0, end as int, start as int);
            assert(b.subrange(start as int, end as int) =~= old(self)@.subrange(0, length as int));
        }
        match self.string.get_mut() {
            Some(buf) => {
                buf.truncate(end);
                proof {
                    let b = old(self).buffer();
                    assert(encode_utf8(buf@).subrange(start as int, end as int) =~= b.subrange(start as int, end as int));
                }
            },
            None => {},
        }
        self.offset.end = end;
    }

    /// Empties the view; the buffer is cleared too when it is not shared.
    pub fn clear(&mut self)
        requires
            old(self).wf(),
        ensures
            final(self).wf(),
            final(self)@ == Seq::<u8>::empty(),
    {
        match self.string.get_mut() {
            Some(buf) => {
                buf.clear();
            },
            None => {},
        }
        self.offset = 0..0;
        proof {
            assert(self@ =~= Seq::<u8>::empty());
        }
    }

    /// Removes the last character and returns it, or `None` when the view is empty.
    pub fn pop(&mut self) -> (r: Option<char>)
        requires
            old(self).wf(),
        ensures
            final(self).wf(),
            old(self)@.len() == 0 ==> r is None && *final(self) == *old(self),
            old(self)@.len() > 0 ==> {
                &&& r == Some(old(self).text().last())
                &&& final(self).text() == old(self).text().drop_last()
                &&& final(self).is_slice_of(old(self), 0, final(self)@.len() as int)
            },
    {
        proof {
            self.lemma_view();
        }
        let text = self.as_str();
        let len = text.as_bytes().len();
        if len == 0 {
            return None;
        }
        let (k, c) = char_before(text, len);
        proof {
            assert(old(self)@.subrange(0, len as int) =~= old(self)@);
        }
        self.shorten(k);
        Some(c)
    }

    /// Turns the view into an owned string. The buffer itself is taken, cut to the view,
    /// when the view starts at its beginning and the storage grants exclusive access;
    /// otherwise the text is copied.
    pub fn into_std_string(self) -> (r: String)
        requires
            self.wf(),
        ensures
            encode_utf8(r@) == self@,
            r@ == self.text(),
    {
        proof {
            self.lemma_view();
        }
        let end = self.offset.end;
        if self.offset.start == 0 {
            let ghost view = self@;
            let mut string = self.string;
            match string.get_mut() {
                Some(buf) => {
                    buf.truncate(end);
                    proof {
                        assert(encode_utf8(buf@) =~= view);
                    }
                    let mut out = String::new();
                    std::mem::swap(buf, &mut out);
                    proof {
                        assert(decode_utf8(encode_utf8(out@)) == out@);
                    }
                    return out;
                },
                None => {
                    let rest = ImString { string, offset: 0..end };
                    proof {
                        assert(rest@ == view);
                    }
                    return rest.as_str().to_owned();
                },
            }
        }
        self.as_str().to_owned()
    }

    /// Round trip: the string that [`into_std_string`](ImString::into_std_string) gives back
    /// for a view made by [`from_std_string`](ImString::from_std_string) from `x` is `x`: the
    /// view holds the encoding of `x`, and only `x` has that encoding.
    pub proof fn lemma_owned_round_trip(x: Seq<char>, view: Seq<u8>, back: Seq<char>)
        requires
            view == encode_utf8(x),
            encode_utf8(back) == view,
        ensures
            back == x,
    {
        crate::boundary::lemma_encode_injective(back, x);
    }

    /// Turns the view into its bytes (see [`into_std_string`](ImString::into_std_string)).
    pub fn into_bytes(self) -> (r: Vec<u8>)
        requires
            self.wf(),
        ensures
            r@ == self@,
    {
        self.into_std_string().into_bytes()
    }

    /// Decodes UTF-8 bytes into a new view; invalid UTF-8 is rejected.
    pub fn from_utf8(vec: Vec<u8>) -> (r: Result<Self, std::string::FromUtf8Error>)
        ensures
            r is Ok <==> valid_utf8(vec@),
            r matches Ok(v) ==> v.wf() && v@ == vec@ && v.spec_start() == 0 && v.buffer() == v@,
    {
        match String::from_utf8(vec) {
            Ok(s) => Ok(ImString::from_std_string(s)),
            Err(e) => Err(e),
        }
    }

    /// Decodes bytes into a new view, with U+FFFD in place of invalid sequences.
    pub fn from_utf8_lossy(bytes: &[u8]) -> (r: Self)
        ensures
            r.wf(),
            r.text() == crate::string_specs::lossy_text(bytes@),
            valid_utf8(bytes@) ==> r@ == bytes@,
    {
        let string = crate::string_specs::from_utf8_lossy_owned(bytes);
        let r = ImString::from_std_string(string);
        proof {
            if valid_utf8(bytes@) {
                decode_utf8_encode_utf8(bytes@);
            }
        }
        r
    }

    /// Wraps bytes that are already known to be valid UTF-8 in a new view.
    pub fn from_utf8_unchecked(vec: Vec<u8>) -> (r: Self)
        requires
            valid_utf8(vec@),
        ensures
            r.wf(),
            r@ == vec@,
            r.spec_start() == 0,
            r.buffer() == r@,
    {
        match String::from_utf8(vec) {
            Ok(s) => ImString::from_std_string(s),
            Err(_) => {
                proof {
                    assert(false);
                }
                ImString::new()
            },
        }
    }

    /// Decodes UTF-16 code units into a new view; unpaired surrogates are rejected.
    pub fn from_utf16(string: &[u16]) -> (r: Result<Self, std::string::FromUtf16Error>)
        ensures
            r is Ok <==> crate::string_specs::utf16_decode(string@) is Some,
            r matches Ok(v) ==> v.wf() && crate::string_specs::utf16_decode(string@) == Some(v.text()),
    {
        match crate::string_specs::from_utf16_owned(string) {
            Ok(s) => Ok(ImString::from_std_string(s)),
            Err(e) => Err(e),
        }
    }

    /// Decodes UTF-16 code units into a new view, with U+FFFD for unpaired surrogates.
    pub fn from_utf16_lossy(string: &[u16]) -> (r: Self)
        ensures
            r.wf(),
            r.text() == crate::string_specs::utf16_decode_lossy(string@),
    {
        ImString::from_std_string(crate::string_specs::from_utf16_lossy_owned(string))
    }

    /// Points the view at another range of its buffer, given in offsets of the whole buffer;
    /// an unbounded end means the current length. Fails, leaving the view as it was, with the
    /// first of: the end lies before the start, the start or the end lies past the buffer, the
    /// start or the end is not a character boundary (see [`check_offset`]).
    pub fn try_set_offset<R: SliceRange>(&mut self, range: R) -> (r: Result<(), SliceError>)
        requires
            old(self).wf(),
        ensures
            final(self).wf(),
            final(self).buffer() == old(self).buffer(),
            match check_offset(old(self).buffer(), start_of(range.spec_start_bound()), end_of(range.spec_end_bound(), old(self)@.len() as int)) {
                Ok((s, e)) => r is Ok && final(self).spec_start() == s && final(self).spec_end() == e,
                Err(err) => r == Err::<(), SliceError>(err) && *final(self) == *old(self),
            },
    {
        proof {
            self.lemma_view();
        }
        let whole = self.string.get().as_str();
        let len = whole.as_bytes().len();
        let start: u128 = match range.start_bound() {
            Bound::Included(v) => v as u128,
            Bound::Excluded(v) => v as u128 + 1,
            Bound::Unbounded => 0,
        };
        let end: u128 = match range.end_bound() {
            Bound::Included(v) => v as u128 + 1,
            Bound::Excluded(v) => v as u128,
            Bound::Unbounded => (self.offset.end - self.offset.start) as u128,
        };
        if end < start {
            return Err(SliceError::EndBeforeStart);
        }
        if start > len as u128 {
            return Err(SliceError::StartOutOfBounds);
        }
        if end > len as u128 {
            return Err(SliceError::EndOutOfBounds);
        }
        if !whole.is_char_boundary(start as usize) {
            return Err(SliceError::StartNotAligned);
        }
        if !whole.is_char_boundary(end as usize) {
            return Err(SliceError::EndNotAligned);
        }
        let start = start as usize;
        let end = end as usize;
        self.offset = start..end;
        Ok(())
    }

    /// The byte range of the buffer that the view shows.
    pub fn raw_offset(&self) -> (r: Range<usize>)
        ensures
            r.start == self.spec_start(),
            r.end == self.spec_end(),
    {
        self.offset.start..self.offset.end
    }

    /// A reference to the byte range of the buffer that the view shows.
    pub fn raw_offset_ref(&self) -> (r: &Range<usize>)
        ensures
            r.start == self.spec_start(),
            r.end == self.spec_end(),
    {
        &self.offset
    }

    /// Another handle on the view's storage.
    pub fn raw_string(&self) -> (r: S)
        ensures
            encode_utf8(r.value()@) == self.buffer(),
    {
        let r = self.string.duplicate();
        proof {
            crate::data::lemma_duplicate_string(self.string, r);
        }
        r
    }
}

/// `text` without the white space at its start.
pub open spec fn trim_start_text(text: Seq<char>) -> Seq<char>
    decreases text.len(),
{
    if text.len() > 0 && white_space(text[0]) {
        trim_start_text(text.drop_first())
    } else {
        text
    }
}

/// `text` without the white space at its end.
pub open spec fn trim_end_text(text: Seq<char>) -> Seq<char>
    decreases text.len(),
{
    if text.len() > 0 && white_space(text.last()) {
        trim_end_text(text.drop_last())
    } else {
        text
    }
}

impl<S: Data<String>> ImString<S> {
    /// A view on `start..end` of this view that lies within it.
    pub open spec fn is_within(&self, of: &Self) -> bool {
        &&& self.wf()
        &&& self.buffer() == of.buffer()
        &&& of.spec_start() <= self.spec_start() <= self.spec_end() <= of.spec_end()
    }

    /// The view without leading white space, on the same storage.
    pub fn trim_start(&self) -> (r: Self)
        requires
            self.wf(),
        ensures
            r.is_within(self),
            r.text() == trim_start_text(self.text()),
            r.spec_end() == self.spec_end(),
    {
        proof {
            self.lemma_view();
        }
        let text = self.as_str();
        let ghost b = text.spec_bytes();
        let len = text.as_bytes().len();
        let mut i: usize = 0;
        let mut done = false;
        proof {
            assert(b.subrange(0, len as int) =~= b);
        }
        while !done && i < len
            invariant
                0 <= i <= len,
                len == b.len(),
                b == self@,
                b == text.spec_bytes(),
                valid_utf8(b),
                is_char_boundary(b, i as int),
                trim_start_text(text_between(b, i as int, len as int)) == trim_start_text(self.text()),
                done ==> i < len && !white_space(text_between(b, i as int, len as int)[0]),
            decreases (len - i) * 2 + if done { 0int } else { 1int },
        {
            let (c, next) = char_at(text, i);
            if c.is_whitespace() {
                i = next;
            } else {
                done = true;
            }
        }
        proof {
            if !done {
                assert(b.subrange(i as int, len as int) =~= Seq::<u8>::empty());
            }
        }
        self.sub_view(i, len)
    }

    /// The view without trailing white space, on the same storage.
    pub fn trim_end(&self) -> (r: Self)
        requires
            self.wf(),
        ensures
            r.is_within(self),
            r.text() == trim_end_text(self.text()),
            r.spec_start() == self.spec_start(),
    {
        proof {
            self.lemma_view();
        }
        let text = self.as_str();
        let ghost b = text.spec_bytes();
        let len = text.as_bytes().len();
        let mut j: usize = len;
        let mut done = false;
        proof {
            assert(b.subrange(0, len as int) =~= b);
        }
        while !done && j > 0
            invariant
                0 <= j <= len,
                len == b.len(),
                b == self@,
                b == text.spec_bytes(),
                valid_utf8(b),
                is_char_boundary(b, j as int),
                trim_end_text(text_between(b, 0, j as int)) == trim_end_text(self.text()),
                done ==> j > 0 && !white_space(text_between(b, 0, j as int).last()),
            decreases j * 2 + if done { 0int } else { 1int },
        {
            let (k, c) = char_before(text, j);
            if c.is_whitespace() {
                proof {
                    assert(text_between(b, 0, j as int).drop_last() =~= text_between(b, 0, k as int));
                }
                j = k;
            } else {
                done = true;
            }
        }
        proof {
            if !done {
                assert(b.subrange(0, 0) =~= Seq::<u8>::empty());
            }
        }
        self.sub_view(0, j)
    }

    /// The view without leading and trailing white space, on the same storage.
    pub fn trim(&self) -> (r: Self)
        requires
            self.wf(),
        ensures
            r.is_within(self),
            r.text() == trim_end_text(trim_start_text(self.text())),
            r.spec_start() == self.spec_end() - encode_utf8(trim_start_text(self.text())).len(),
            r.spec_end() == r.spec_start() + encode_utf8(r.text()).len(),
    {
        let start = self.trim_start();
        let r = start.trim_end();
        proof {
            start.lemma_view();
            r.lemma_view();
        }
        r
    }

    /// The view on `range` of this view's buffer, sharing its storage, when the range lies in
    /// the buffer on character boundaries and holds the bytes of `slice`; `None` otherwise.
    pub fn view_at(&self, range: Range<usize>, slice: &[u8]) -> (r: Option<Self>)
        requires
            self.wf(),
        ensures
            r is Some <==> (range.start <= range.end <= self.buffer().len() && is_char_boundary(
                self.buffer(),
                range.start as int,
            ) && is_char_boundary(self.buffer(), range.end as int) && self.buffer().subrange(
                range.start as int,
                range.end as int,
            ) == slice@),
            r matches Some(v) ==> {
                &&& v.wf()
                &&& v.buffer() == self.buffer()
                &&& v.spec_start() == range.start
                &&& v.spec_end() == range.end
                &&& v@ == slice@
            },
    {
        let whole = self.string.get().as_str();
        let bytes = whole.as_bytes();
        if range.start > range.end || range.end > bytes.len() {
            return None;
        }
        if whole.is_char_boundary(range.start) && whole.is_char_boundary(range.end) && same_bytes(
            slice_subrange(bytes, range.start, range.end),
            slice,
        ) {
            let string = self.string.duplicate();
            proof {
                crate::data::lemma_duplicate_string(self.string, string);
            }
            Some(ImString { string, offset: range.start..range.end })
        } else {
            None
        }
    }

    /// Recovers a view on this view's storage for a byte slice that lies inside its buffer in
    /// memory (one cut out of [`as_bytes`](ImString::as_bytes), say). Where the slice lies is
    /// read from its address (see [`try_slice_offset`]); [`view_at`](ImString::view_at) then
    /// decides on that range. `None` when the slice lies elsewhere, or its ends are not
    /// character boundaries.
    pub fn try_slice_ref(&self, slice: &[u8]) -> (r: Option<Self>)
        requires
            self.wf(),
        ensures
            r matches Some(v) ==> {
                &&& v.wf()
                &&& v@ == slice@
                &&& v.buffer() == self.buffer()
                &&& v.spec_end() - v.spec_start() == slice@.len()
            },
    {
        let whole = self.string.get().as_str();
        match try_slice_offset(whole.as_bytes(), slice) {
            Some(range) => self.view_at(range, slice),
            None => None,
        }
    }

    /// Like [`try_slice_ref`](ImString::try_slice_ref), for a string slice.
    pub fn try_str_ref(&self, string: &str) -> (r: Option<Self>)
        requires
            self.wf(),
        ensures
            r matches Some(v) ==> {
                &&& v.wf()
                &&& v@ == string.spec_bytes()
                &&& v.buffer() == self.buffer()
                &&& v.spec_end() - v.spec_start() == string.spec_bytes().len()
            },
    {
        self.try_slice_ref(string.as_bytes())
    }

    /// A view on this view's storage for a string slice that lies inside its buffer, or else a
    /// new view holding a copy of it.
    pub fn str_ref(&self, string: &str) -> (r: Self)
        requires
            self.wf(),
        ensures
            r.wf(),
            r@ == string.spec_bytes(),
            r.buffer() == self.buffer() || (r.spec_start() == 0 && r.buffer() == r@),
    {
        match self.try_str_ref(string) {
            Some(v) => v,
            None => ImString::from_std_string(string.to_owned()),
        }
    }

    /// A view on this view's storage for a byte slice of valid UTF-8 that lies inside its
    /// buffer, or else a new view holding a copy of it.
    pub fn slice_ref(&self, slice: &[u8]) -> (r: Self)
        requires
            self.wf(),
            valid_utf8(slice@),
        ensures
            r.wf(),
            r@ == slice@,
            r.buffer() == self.buffer() || (r.spec_start() == 0 && r.buffer() == r@),
    {
        match self.try_slice_ref(slice) {
            Some(v) => v,
            None => ImString::from_utf8_unchecked(slice_to_vec(slice)),
        }
    }
}

impl<S: Data<String>> ImString<S> {
    /// Appends each of the characters, in order.
    pub fn extend_chars(&mut self, chars: &[char])
        requires
            old(self).wf(),
        ensures
            final(self).wf(),
            final(self)@ == old(self)@ + encode_utf8(chars@),
    {
        let mut i: usize = 0;
        while i < chars.len()
            invariant
                self.wf(),
                0 <= i <= chars@.len(),
                self@ == old(self)@ + encode_utf8(chars@.subrange(0, i as int)),
            decreases chars@.len() - i,
        {
            let c = chars[i];
            self.push(c);
            proof {
                assert(chars@.subrange(0, i + 1) =~= chars@.subrange(0, i as int) + seq![c]);
                lemma_encode_concat(chars@.subrange(0, i as int), seq![c]);
            }
            i = i + 1;
        }
        proof {
            assert(chars@.subrange(0, i as int) =~= chars@);
        }
    }

    /// Appends each of the strings, in order.
    pub fn extend_strs(&mut self, strs: &[&str])
        requires
            old(self).wf(),
        ensures
            final(self).wf(),
            final(self).text() == old(self).text() + strs@.map_values(|s: &str| s@).flatten(),
    {
        let ghost parts = strs@.map_values(|s: &str| s@);
        let mut i: usize = 0;
        proof {
            self.lemma_view();
            assert(parts.subrange(0, 0).flatten() =~= Seq::<char>::empty());
            assert(old(self).text() + Seq::<char>::empty() =~= old(self).text());
        }
        while i < strs.len()
            invariant
                self.wf(),
                0 <= i <= strs@.len(),
                parts == strs@.map_values(|s: &str| s@),
                self.text() == old(self).text() + parts.subrange(0, i as int).flatten(),
            decreases strs@.len() - i,
        {
            let s = strs[i];
            let ghost before = self.text();
            proof {
                self.lemma_view();
            }
            self.push_str(s);
            proof {
                lemma_encode_concat(before, s@);
                assert(self@ == encode_utf8(before + s@));
                vstd::utf8::encode_utf8_decode_utf8(before + s@);
                assert(parts.subrange(0, i + 1) =~= parts.subrange(0, i as int).push(s@));
                parts.subrange(0, i as int).lemma_flatten_push(s@);
                assert(self.text() =~= old(self).text() + parts.subrange(0, i + 1).flatten());
            }
            i = i + 1;
        }
        proof {
            assert(parts.subrange(0, i as int) =~= parts);
        }
    }

    /// A new view holding the characters, in order.
    pub fn from_chars(chars: &[char]) -> (r: Self)
        ensures
            r.wf(),
            r@ == encode_utf8(chars@),
    {
        let mut r = ImString::new();
        r.extend_chars(chars);
        proof {
            assert(Seq::<u8>::empty() + encode_utf8(chars@) =~= encode_utf8(chars@));
        }
        r
    }
}

impl<S: Data<String>> Clone for ImString<S> {
    /// Another view on the same text: the storage handle is duplicated (shared, or copied for
    /// the strategies that do not share) and the range is kept.
    fn clone(&self) -> (r: Self)
        ensures
            self.wf() ==> r.wf(),
            r@ == self@,
            r.buffer() == self.buffer(),
            r.spec_start() == self.spec_start(),
            r.spec_end() == self.spec_end(),
    {
        let string = self.string.duplicate();
        proof {
            crate::data::lemma_duplicate_string(self.string, string);
        }
        ImString { string, offset: self.offset.start..self.offset.end }
    }
}

} // verus!
