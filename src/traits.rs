//! Standard conversions, comparisons and operators for [`ImString`]. They all go by the
//! visible text, never by the storage handle or the rest of the buffer.
use crate::data::Data;
use crate::scan::same_bytes;
use crate::string::ImString;
use std::borrow::Cow;
use std::cmp::Ordering;
use std::string::String;
use vstd::prelude::*;
use vstd::string::StringSliceAdditionalSpecFns;
use vstd::utf8::*;

verus! {

broadcast use {encode_utf8_valid_utf8, encode_utf8_decode_utf8};

impl<S: Data<String>> Default for ImString<S> {
    fn default() -> (r: Self)
        ensures
            r.wf(),
            r@ == Seq::<u8>::empty(),
    {
        ImString::new()
    }
}

impl<'a, S: Data<String>> From<&'a str> for ImString<S> {
    fn from(string: &'a str) -> (r: Self)
        ensures
            r.wf(),
            r@ == string.spec_bytes(),
    {
        ImString::from_std_string(string.to_owned())
    }
}

impl<'a, S: Data<String>> vstd::std_specs::convert::FromSpecImpl<&'a str> for ImString<S> {
    open spec fn obeys_from_spec() -> bool {
        false
    }

    open spec fn from_spec(v: &'a str) -> Self {
        arbitrary()
    }
}

impl<S: Data<String>> From<String> for ImString<S> {
    fn from(string: String) -> (r: Self)
        ensures
            r.wf(),
            r@ == encode_utf8(string@),
    {
        ImString::from_std_string(string)
    }
}

impl<S: Data<String>> vstd::std_specs::convert::FromSpecImpl<String> for ImString<S> {
    open spec fn obeys_from_spec() -> bool {
        false
    }

    open spec fn from_spec(v: String) -> Self {
        arbitrary()
    }
}

impl<S: Data<String>> From<char> for ImString<S> {
    fn from(c: char) -> (r: Self)
        ensures
            r.wf(),
            r@ == encode_utf8(seq![c]),
    {
        let mut string = String::new();
        string.push(c);
        proof {
            assert(string@ =~= seq![c]);
        }
        ImString::from_std_string(string)
    }
}

impl<S: Data<String>> vstd::std_specs::convert::FromSpecImpl<char> for ImString<S> {
    open spec fn obeys_from_spec() -> bool {
        false
    }

    open spec fn from_spec(v: char) -> Self {
        arbitrary()
    }
}

impl<'a, S: Data<String>> From<Cow<'a, str>> for ImString<S> {
    fn from(string: Cow<'a, str>) -> (r: Self)
        ensures
            r.wf(),
            r@ == encode_utf8(string@),
    {
        match string {
            Cow::Borrowed(s) => ImString::from_std_string(s.to_owned()),
            Cow::Owned(s) => ImString::from_std_string(s),
        }
    }
}

impl<'a, S: Data<String>> vstd::std_specs::convert::FromSpecImpl<Cow<'a, str>> for ImString<S> {
    open spec fn obeys_from_spec() -> bool {
        false
    }

    open spec fn from_spec(v: Cow<'a, str>) -> Self {
        arbitrary()
    }
}

impl<S: Data<String>> From<ImString<S>> for String {
    fn from(string: ImString<S>) -> (r: String)
        ensures
            encode_utf8(r@) == string.shown(),
    {
        if string.check_wf() {
            string.into_std_string()
        } else {
            String::new()
        }
    }
}

impl<S: Data<String>> vstd::std_specs::convert::FromSpecImpl<ImString<S>> for String {
    open spec fn obeys_from_spec() -> bool {
        false
    }

    open spec fn from_spec(v: ImString<S>) -> String {
        arbitrary()
    }
}

impl<S: Data<String>> PartialEq<str> for ImString<S> {
    fn eq(&self, other: &str) -> (r: bool) {
        same_bytes(self.shown_str().as_bytes(), other.as_bytes())
    }
}

impl<S: Data<String>> vstd::std_specs::cmp::PartialEqSpecImpl<str> for ImString<S> {
    open spec fn obeys_eq_spec() -> bool {
        true
    }

    open spec fn eq_spec(&self, other: &str) -> bool {
        self.shown() == other.spec_bytes()
    }
}

impl<'a, S: Data<String>> PartialEq<&'a str> for ImString<S> {
    fn eq(&self, other: &&'a str) -> (r: bool) {
        same_bytes(self.shown_str().as_bytes(), other.as_bytes())
    }
}

impl<'a, S: Data<String>> vstd::std_specs::cmp::PartialEqSpecImpl<&'a str> for ImString<S> {
    open spec fn obeys_eq_spec() -> bool {
        true
    }

    open spec fn eq_spec(&self, other: &&'a str) -> bool {
        self.shown() == other.spec_bytes()
    }
}

impl<S: Data<String>> PartialEq<String> for ImString<S> {
    fn eq(&self, other: &String) -> (r: bool) {
        same_bytes(self.shown_str().as_bytes(), other.as_str().as_bytes())
    }
}

impl<S: Data<String>> vstd::std_specs::cmp::PartialEqSpecImpl<String> for ImString<S> {
    open spec fn obeys_eq_spec() -> bool {
        true
    }

    open spec fn eq_spec(&self, other: &String) -> bool {
        self.shown() == encode_utf8(other@)
    }
}

impl<S: Data<String>, O: Data<String>> PartialEq<ImString<O>> for ImString<S> {
    fn eq(&self, other: &ImString<O>) -> (r: bool) {
        same_bytes(self.shown_str().as_bytes(), other.shown_str().as_bytes())
    }
}

impl<S: Data<String>, O: Data<String>> vstd::std_specs::cmp::PartialEqSpecImpl<ImString<O>> for ImString<S> {
    open spec fn obeys_eq_spec() -> bool {
        true
    }

    open spec fn eq_spec(&self, other: &ImString<O>) -> bool {
        self.shown() == other.shown()
    }
}

impl<S: Data<String>> Eq for ImString<S> {
}

/// Byte-wise lexicographic order, the order of `str`.
pub open spec fn lex_cmp(a: Seq<u8>, b: Seq<u8>) -> Ordering
    decreases a.len(),
{
    if a.len() == 0 {
        if b.len() == 0 {
            Ordering::Equal
        } else {
            Ordering::Less
        }
    } else if b.len() == 0 {
        Ordering::Greater
    } else if a[0] < b[0] {
        Ordering::Less
    } else if a[0] > b[0] {
        Ordering::Greater
    } else {
        lex_cmp(a.drop_first(), b.drop_first())
    }
}

/// Compares two byte sequences in lexicographic order.
fn compare_lex(a: &[u8], b: &[u8]) -> (r: Ordering)
    ensures
        r == lex_cmp(a@, b@),
{
    let mut i: usize = 0;
    proof {
        assert(a@.subrange(0, a@.len() as int) =~= a@);
        assert(b@.subrange(0, b@.len() as int) =~= b@);
    }
    while i < a.len() && i < b.len()
        invariant
            0 <= i <= a@.len(),
            i <= b@.len(),
            lex_cmp(a@, b@) == lex_cmp(
                a@.subrange(i as int, a@.len() as int),
                b@.subrange(i as int, b@.len() as int),
            ),
        decreases a@.len() - i,
    {
        let (x, y) = (a[i], b[i]);
        proof {
            let sa = a@.subrange(i as int, a@.len() as int);
            let sb = b@.subrange(i as int, b@.len() as int);
            assert(sa.drop_first() =~= a@.subrange(i + 1, a@.len() as int));
            assert(sb.drop_first() =~= b@.subrange(i + 1, b@.len() as int));
            assert(sa[0] == x && sb[0] == y);
        }
        if x < y {
            return Ordering::Less;
        }
        if x > y {
            return Ordering::Greater;
        }
        i = i + 1;
    }
    if a.len() == b.len() {
        Ordering::Equal
    } else if i == a.len() {
        Ordering::Less
    } else {
        Ordering::Greater
    }
}

impl<S: Data<String>> PartialOrd for ImString<S> {
    fn partial_cmp(&self, other: &ImString<S>) -> (r: Option<Ordering>) {
        Some(compare_lex(self.shown_str().as_bytes(), other.shown_str().as_bytes()))
    }
}

impl<S: Data<String>> vstd::std_specs::cmp::PartialOrdSpecImpl for ImString<S> {
    open spec fn obeys_partial_cmp_spec() -> bool {
        true
    }

    open spec fn partial_cmp_spec(&self, other: &ImString<S>) -> Option<Ordering> {
        Some(lex_cmp(self.shown(), other.shown()))
    }
}

impl<S: Data<String>> std::ops::Deref for ImString<S> {
    type Target = str;

    fn deref(&self) -> (r: &str)
        ensures
            r.spec_bytes() == self.shown(),
    {
        self.shown_str()
    }
}

impl<S: Data<String>> AsRef<str> for ImString<S> {
    fn as_ref(&self) -> (r: &str)
        ensures
            <str as StringSliceAdditionalSpecFns>::spec_bytes(r) == self.shown(),
    {
        self.shown_str()
    }
}

impl<S: Data<String>> AsRef<[u8]> for ImString<S> {
    fn as_ref(&self) -> (r: &[u8])
        ensures
            <[u8] as View>::view(r) == self.shown(),
    {
        self.shown_str().as_bytes()
    }
}

impl<S: Data<String>> std::borrow::Borrow<str> for ImString<S> {
    fn borrow(&self) -> (r: &str)
        ensures
            <str as StringSliceAdditionalSpecFns>::spec_bytes(r) == self.shown(),
    {
        self.shown_str()
    }
}

/// Relies on `str`'s `Hash` impl: feeds the text to the hasher.
#[verifier::external_body]
fn hash_text<H: std::hash::Hasher>(text: &str, state: &mut H) {
    std::hash::Hash::hash(text, state)
}

impl<S: Data<String>> std::hash::Hash for ImString<S> {
    /// Hashes the visible text, so that views with equal text hash alike.
    fn hash<H: std::hash::Hasher>(&self, state: &mut H) {
        hash_text(self.shown_str(), state)
    }
}

impl<S: Data<String>> std::str::FromStr for ImString<S> {
    type Err = std::convert::Infallible;

    fn from_str(s: &str) -> (r: Result<Self, Self::Err>)
        ensures
            r matches Ok(v) && v.wf() && v@ == s.spec_bytes(),
    {
        Ok(ImString::from_std_string(s.to_owned()))
    }
}

impl<'a, S: Data<String>> std::ops::Add<&'a str> for ImString<S> {
    type Output = ImString<S>;

    fn add(self, string: &'a str) -> (r: ImString<S>)
        ensures
            r.wf(),
            r@ == self.shown() + string.spec_bytes(),
    {
        let mut r = self;
        if !r.check_wf() {
            r = ImString::new();
        }
        r.push_str(string);
        r
    }
}

impl<'a, S: Data<String>> vstd::std_specs::ops::AddSpecImpl<&'a str> for ImString<S> {
    open spec fn obeys_add_spec() -> bool {
        false
    }

    open spec fn add_req(self, rhs: &'a str) -> bool {
        true
    }

    open spec fn add_spec(self, rhs: &'a str) -> ImString<S> {
        arbitrary()
    }
}

impl<'a, S: Data<String>> std::ops::AddAssign<&'a str> for ImString<S> {
    fn add_assign(&mut self, string: &'a str)
        ensures
            final(self).wf(),
            final(self)@ == old(self).shown() + string.spec_bytes(),
    {
        if !self.check_wf() {
            *self = ImString::new();
        }
        self.push_str(string);
    }
}

/// The error type of `std::fmt::Write`, which these impls never return.
#[verifier::external_type_specification]
#[verifier::external_body]
pub struct ExFmtError(std::fmt::Error);

impl<S: Data<String>> std::fmt::Write for ImString<S> {
    /// Appends the text (through `push_str`); never fails.
    fn write_str(&mut self, string: &str) -> (r: std::fmt::Result)
        ensures
            r is Ok,
            final(self).wf(),
            final(self)@ == old(self).shown() + string.spec_bytes(),
    {
        if !self.check_wf() {
            *self = ImString::new();
        }
        self.push_str(string);
        Ok(())
    }

    /// Appends the character (through `push`); never fails.
    fn write_char(&mut self, c: char) -> (r: std::fmt::Result)
        ensures
            r is Ok,
            final(self).wf(),
            final(self)@ == old(self).shown() + encode_utf8(seq![c]),
    {
        if !self.check_wf() {
            *self = ImString::new();
        }
        self.push(c);
        Ok(())
    }
}

} // verus!
