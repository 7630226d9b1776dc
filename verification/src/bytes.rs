//! Byte classes, parse results and the scanning primitives every grammar of
//! this crate is built from.
//!
//! A parser takes a byte slice and gives back what it left unread together
//! with a value, or one of two failures: [`Failure::Error`] when the input
//! does not match, [`Failure::Incomplete`] when the input ended before a match
//! could be decided.

use vstd::prelude::*;
use vstd::string::StringSliceAdditionalSpecFns;
use vstd::utf8::{decode_utf8, valid_utf8};

verus! {

/// Why a parser produced no value.
#[derive(Clone, Copy, Debug, PartialEq, Eq, Structural)]
pub enum Failure {
    /// The input does not match the grammar.
    Error,
    /// The input ended where the grammar still needed bytes.
    Incomplete,
}

/// What a parser returns: the unread rest of its input and the value, or the
/// failure.
pub type Parsed<'a, T> = Result<(&'a [u8], T), Failure>;

/// The mathematical counterpart of [`Parsed`].
pub type Outcome<V> = Result<(Seq<u8>, V), Failure>;

/// The outcome that an executable result stands for.
pub open spec fn model<'a, T: DeepView>(r: Parsed<'a, T>) -> Outcome<T::V> {
    match r {
        Ok((rest, value)) => Ok((rest@, value.deep_view())),
        Err(e) => Err(e),
    }
}

/// The outcome that a result carrying a piece of the input stands for.
pub open spec fn model_slice<'a>(r: Parsed<'a, &'a [u8]>) -> Outcome<Seq<u8>> {
    match r {
        Ok((rest, taken)) => Ok((rest@, taken@)),
        Err(e) => Err(e),
    }
}

/// A set of bytes a scanner may be asked to run over.
#[derive(Clone, Copy, Debug, PartialEq, Eq, Structural)]
pub enum ByteClass {
    /// `0`..`9`
    Digit,
    /// `A`..`Z` and `a`..`z`
    Alpha,
    /// A digit or a letter.
    Alnum,
    /// A digit or `.`
    Decimal,
    /// Space or tab.
    Blank,
    /// Space, tab, carriage return or line feed.
    Space,
    /// Anything but carriage return and line feed.
    InLine,
}

/// Whether `b` is an ASCII digit.
pub open spec fn is_digit_byte(b: u8) -> bool {
    0x30 <= b <= 0x39
}

/// Whether `b` is an ASCII letter.
pub open spec fn is_alpha_byte(b: u8) -> bool {
    (0x41 <= b <= 0x5A) || (0x61 <= b <= 0x7A)
}

impl ByteClass {
    /// Whether `b` belongs to the class.
    pub open spec fn has(self, b: u8) -> bool {
        match self {
            ByteClass::Digit => is_digit_byte(b),
            ByteClass::Alpha => is_alpha_byte(b),
            ByteClass::Alnum => is_alpha_byte(b) || is_digit_byte(b),
            ByteClass::Decimal => is_digit_byte(b) || b == 0x2e,
            ByteClass::Blank => b == 0x20 || b == 0x09,
            ByteClass::Space => b == 0x20 || b == 0x09 || b == 0x0d || b == 0x0a,
            ByteClass::InLine => b != 0x0d && b != 0x0a,
        }
    }

    /// Whether `b` belongs to the class.
    pub fn contains(self, b: u8) -> (r: bool)
        ensures
            r == self.has(b),
    {
        match self {
            ByteClass::Digit => nom::is_digit(b),
            ByteClass::Alpha => nom::is_alphabetic(b),
            ByteClass::Alnum => nom::is_alphanumeric(b),
            ByteClass::Decimal => is_float(b),
            ByteClass::Blank => b == 0x20 || b == 0x09,
            ByteClass::Space => b == 0x20 || b == 0x09 || b == 0x0d || b == 0x0a,
            ByteClass::InLine => b != 0x0d && b != 0x0a,
        }
    }
}

/// `nom::is_digit`: true exactly for the ASCII digits.
pub assume_specification[ nom::is_digit ](chr: u8) -> (r: bool)
    ensures
        r == is_digit_byte(chr),
;

/// `nom::is_alphabetic`: true exactly for the ASCII letters.
pub assume_specification[ nom::is_alphabetic ](chr: u8) -> (r: bool)
    ensures
        r == is_alpha_byte(chr),
;

/// `nom::is_alphanumeric`: true exactly for the ASCII letters and digits.
pub assume_specification[ nom::is_alphanumeric ](chr: u8) -> (r: bool)
    ensures
        r == (is_alpha_byte(chr) || is_digit_byte(chr)),
;

/// Whether `chr` is a digit or a full stop, the bytes a decimal number is
/// written with.
pub fn is_float(chr: u8) -> (r: bool)
    ensures
        r == ByteClass::Decimal.has(chr),
{
    (chr >= 0x30 && chr <= 0x39) || chr == 0x2e
}

/// The length of the longest prefix of `s` made of bytes of `class`.
pub open spec fn run_len(s: Seq<u8>, class: ByteClass) -> nat
    decreases s.len(),
{
    if s.len() > 0 && class.has(s[0]) {
        1 + run_len(s.skip(1), class)
    } else {
        0
    }
}

/// A run is a prefix, all of its bytes are in the class, and the byte after
/// it, if there is one, is not.
pub proof fn lemma_run_len(s: Seq<u8>, class: ByteClass)
    ensures
        run_len(s, class) <= s.len(),
        forall|i: int| 0 <= i < run_len(s, class) ==> class.has(#[trigger] s[i]),
        run_len(s, class) < s.len() ==> !class.has(s[run_len(s, class) as int]),
    decreases s.len(),
{
    if s.len() > 0 && class.has(s[0]) {
        let t = s.skip(1);
        lemma_run_len(t, class);
        assert forall|i: int| 0 <= i < run_len(s, class) implies class.has(#[trigger] s[i]) by {
            if i > 0 {
                assert(s[i] == t[i - 1]);
            }
        }
        if run_len(s, class) < s.len() {
            assert(s[run_len(s, class) as int] == t[run_len(t, class) as int]);
        }
    }
}

/// A prefix of class bytes that stops at the end or before a byte outside the
/// class is the run.
pub proof fn lemma_run_len_is(s: Seq<u8>, class: ByteClass, n: int)
    requires
        0 <= n <= s.len(),
        forall|i: int| 0 <= i < n ==> class.has(#[trigger] s[i]),
        n < s.len() ==> !class.has(s[n]),
    ensures
        run_len(s, class) == n,
    decreases n,
{
    if n > 0 {
        let t = s.skip(1);
        assert forall|i: int| 0 <= i < n - 1 implies class.has(#[trigger] t[i]) by {
            assert(t[i] == s[i + 1]);
        }
        lemma_run_len_is(t, class, n - 1);
    }
}

/// The run of `class` bytes at the head of the input, and the rest. Never
/// fails; the run may be empty.
pub open spec fn spec_take_while(s: Seq<u8>, class: ByteClass) -> Outcome<Seq<u8>> {
    let n = run_len(s, class) as int;
    Ok((s.skip(n), s.take(n)))
}

/// As [`spec_take_while`], but an empty run is an error.
pub open spec fn spec_take_while1(s: Seq<u8>, class: ByteClass) -> Outcome<Seq<u8>> {
    let n = run_len(s, class) as int;
    if n == 0 {
        Err(Failure::Error)
    } else {
        Ok((s.skip(n), s.take(n)))
    }
}

/// Splits the input after its leading run of `class` bytes.
pub fn take_while<'a>(input: &'a [u8], class: ByteClass) -> (r: Parsed<'a, &'a [u8]>)
    ensures
        model_slice(r) == spec_take_while(input@, class),
{
    let mut i: usize = 0;
    while i < input.len() && class.contains(input[i])
        invariant
            0 <= i <= input@.len(),
            forall|j: int| 0 <= j < i ==> class.has(#[trigger] input@[j]),
        decreases input@.len() - i,
    {
        i += 1;
    }
    proof {
        lemma_run_len_is(input@, class, i as int);
    }
    Ok((vstd::slice::slice_subrange(input, i, input.len()), vstd::slice::slice_subrange(input, 0, i)))
}

/// `nom::multispace`: the leading run of spaces, tabs, carriage returns and
/// line feeds; an error when that run is empty.
#[verifier::external_body]
pub(crate) fn multispace<'a>(input: &'a [u8]) -> (r: Parsed<'a, &'a [u8]>)
    ensures
        model_slice(r) == spec_take_while1(input@, ByteClass::Space),
{
    match nom::multispace(input) {
        nom::IResult::Done(rest, taken) => Ok((rest, taken)),
        nom::IResult::Error(_) => Err(Failure::Error),
        nom::IResult::Incomplete(_) => Err(Failure::Incomplete),
    }
}

/// `nom::space`: the leading run of spaces and tabs; an error when that run
/// is empty.
#[verifier::external_body]
pub(crate) fn space<'a>(input: &'a [u8]) -> (r: Parsed<'a, &'a [u8]>)
    ensures
        model_slice(r) == spec_take_while1(input@, ByteClass::Blank),
{
    match nom::space(input) {
        nom::IResult::Done(rest, taken) => Ok((rest, taken)),
        nom::IResult::Error(_) => Err(Failure::Error),
        nom::IResult::Incomplete(_) => Err(Failure::Incomplete),
    }
}

/// `nom::not_line_ending`: everything before the first carriage return or
/// line feed, or the whole input when it holds neither. Never fails.
#[verifier::external_body]
pub(crate) fn not_line_ending<'a>(input: &'a [u8]) -> (r: Parsed<'a, &'a [u8]>)
    ensures
        model_slice(r) == spec_take_while(input@, ByteClass::InLine),
{
    match nom::not_line_ending(input) {
        nom::IResult::Done(rest, taken) => Ok((rest, taken)),
        nom::IResult::Error(_) => Err(Failure::Error),
        nom::IResult::Incomplete(_) => Err(Failure::Incomplete),
    }
}

/// Succeeds, consuming nothing, exactly at the end of the input.
pub open spec fn spec_eof(s: Seq<u8>) -> Outcome<Seq<u8>> {
    if s.len() == 0 {
        Ok((s, s))
    } else {
        Err(Failure::Error)
    }
}

/// `nom::eof`: succeeds with the empty input on an empty input, and is an
/// error on any other.
#[verifier::external_body]
pub(crate) fn eof<'a>(input: &'a [u8]) -> (r: Parsed<'a, &'a [u8]>)
    ensures
        model_slice(r) == spec_eof(input@),
{
    match nom::eof(input) {
        nom::IResult::Done(rest, taken) => Ok((rest, taken)),
        nom::IResult::Error(_) => Err(Failure::Error),
        nom::IResult::Incomplete(_) => Err(Failure::Incomplete),
    }
}

/// Takes everything.
pub open spec fn spec_rest(s: Seq<u8>) -> Outcome<Seq<u8>> {
    Ok((Seq::empty(), s))
}

/// `nom::rest`: hands the whole input out and leaves nothing. Never fails.
#[verifier::external_body]
pub(crate) fn rest<'a>(input: &'a [u8]) -> (r: Parsed<'a, &'a [u8]>)
    ensures
        model_slice(r) == spec_rest(input@),
{
    match nom::rest(input) {
        nom::IResult::Done(rest, taken) => Ok((rest, taken)),
        nom::IResult::Error(_) => Err(Failure::Error),
        nom::IResult::Incomplete(_) => Err(Failure::Incomplete),
    }
}

/// The bytes of a keyword of the grammar.
pub open spec fn lit(t: &str) -> Seq<u8> {
    t.spec_bytes()
}

/// Matching a keyword at the head of the input: done when the input starts
/// with it, incomplete when the input is a proper prefix of it, an error
/// otherwise.
pub open spec fn spec_tag(s: Seq<u8>, t: Seq<u8>) -> Outcome<()> {
    if t.is_prefix_of(s) {
        Ok((s.skip(t.len() as int), ()))
    } else if s.is_prefix_of(t) {
        Err(Failure::Incomplete)
    } else {
        Err(Failure::Error)
    }
}

/// Matches the keyword `t` at the head of the input.
pub fn tag<'a>(input: &'a [u8], t: &str) -> (r: Parsed<'a, ()>)
    ensures
        model(r) == spec_tag(input@, lit(t)),
{
    let key = t.as_bytes();
    let m: usize = if input.len() < key.len() {
        input.len()
    } else {
        key.len()
    };
    let mut i: usize = 0;
    while i < m
        invariant
            0 <= i <= m,
            m <= input@.len(),
            m <= key@.len(),
            key@ == lit(t),
            forall|j: int| 0 <= j < i ==> input@[j] == key@[j],
        decreases m - i,
    {
        if input[i] != key[i] {
            proof {
                if key@.is_prefix_of(input@) {
                    assert(input@.subrange(0, key@.len() as int)[i as int] == key@[i as int]);
                }
                if input@.is_prefix_of(key@) {
                    assert(key@.subrange(0, input@.len() as int)[i as int] == input@[i as int]);
                }
            }
            return Err(Failure::Error);
        }
        i += 1;
    }
    if m < key.len() {
        proof {
            assert(input@ =~= key@.subrange(0, input@.len() as int));
        }
        Err(Failure::Incomplete)
    } else {
        proof {
            assert(key@ =~= input@.subrange(0, key@.len() as int));
        }
        Ok((vstd::slice::slice_subrange(input, m, input.len()), ()))
    }
}

/// Whether `pat` stands in `s` at index `i`.
pub open spec fn occurs_at(s: Seq<u8>, pat: Seq<u8>, i: int) -> bool {
    &&& 0 <= i
    &&& i + pat.len() <= s.len()
    &&& s.subrange(i, i + pat.len()) == pat
}

/// Whether `i` is the least index at which `pat` stands in `s`.
pub open spec fn is_first_occurrence(s: Seq<u8>, pat: Seq<u8>, i: int) -> bool {
    &&& occurs_at(s, pat, i)
    &&& forall|j: int| 0 <= j < i ==> !occurs_at(s, pat, j)
}

/// The least index at which `pat` stands in `s`, if it stands anywhere.
pub open spec fn first_occurrence(s: Seq<u8>, pat: Seq<u8>) -> Option<int> {
    if exists|i: int| is_first_occurrence(s, pat, i) {
        Some(choose|i: int| is_first_occurrence(s, pat, i))
    } else {
        None
    }
}

/// There is at most one first occurrence.
pub proof fn lemma_first_occurrence_is(s: Seq<u8>, pat: Seq<u8>, i: int)
    requires
        is_first_occurrence(s, pat, i),
    ensures
        first_occurrence(s, pat) == Some(i),
{
    let k = choose|k: int| is_first_occurrence(s, pat, k);
    if k < i {
        assert(!occurs_at(s, pat, k));
    }
    if i < k {
        assert(!occurs_at(s, pat, i));
    }
}

/// Where nothing occurs there is no first occurrence.
pub proof fn lemma_first_occurrence_none(s: Seq<u8>, pat: Seq<u8>)
    requires
        forall|j: int| !occurs_at(s, pat, j),
    ensures
        first_occurrence(s, pat) is None,
{
}

/// Whether `pat` stands in `input` at index `i`.
fn matches_at(input: &[u8], pat: &[u8], i: usize) -> (r: bool)
    requires
        i + pat@.len() <= input@.len(),
    ensures
        r == occurs_at(input@, pat@, i as int),
{
    proof {
        vstd::slice::axiom_spec_len(input);
    }
    let mut k: usize = 0;
    while k < pat.len()
        invariant
            0 <= k <= pat@.len(),
            i + pat@.len() <= input@.len(),
            input@.len() <= usize::MAX,
            forall|j: int| 0 <= j < k ==> input@[i + j] == pat@[j],
        decreases pat@.len() - k,
    {
        if input[i + k] != pat[k] {
            proof {
                if occurs_at(input@, pat@, i as int) {
                    assert(input@.subrange(i as int, i + pat@.len())[k as int] == pat@[k as int]);
                }
            }
            return false;
        }
        k += 1;
    }
    proof {
        assert(input@.subrange(i as int, i + pat@.len()) =~= pat@);
    }
    true
}

/// Finds the first place where `pat` stands in `input`.
pub fn find(input: &[u8], pat: &[u8]) -> (r: Option<usize>)
    ensures
        match r {
            Some(i) => first_occurrence(input@, pat@) == Some(i as int),
            None => first_occurrence(input@, pat@) is None,
        },
{
    if pat.len() > input.len() {
        proof {
            lemma_first_occurrence_none(input@, pat@);
        }
        return None;
    }
    if pat.len() == 0 {
        proof {
            assert(input@.subrange(0, 0) =~= pat@);
            lemma_first_occurrence_is(input@, pat@, 0);
        }
        return Some(0);
    }
    let last: usize = input.len() - pat.len();
    let mut i: usize = 0;
    while i <= last
        invariant
            0 <= i <= last + 1,
            last == input@.len() - pat@.len(),
            pat@.len() > 0,
            input@.len() <= usize::MAX,
            forall|j: int| 0 <= j < i ==> !occurs_at(input@, pat@, j),
        decreases last + 1 - i,
    {
        if matches_at(input, pat, i) {
            proof {
                lemma_first_occurrence_is(input@, pat@, i as int);
            }
            return Some(i);
        }
        i += 1;
    }
    proof {
        lemma_first_occurrence_none(input@, pat@);
    }
    None
}

/// Everything before the first occurrence of `pat`, which itself is left
/// unread. Incomplete when the input is shorter than `pat`, an error when
/// `pat` does not occur.
pub open spec fn spec_take_until(s: Seq<u8>, pat: Seq<u8>) -> Outcome<Seq<u8>> {
    if pat.len() > s.len() {
        Err(Failure::Incomplete)
    } else {
        match first_occurrence(s, pat) {
            Some(i) => Ok((s.skip(i), s.take(i))),
            None => Err(Failure::Error),
        }
    }
}

/// As [`spec_take_until`], but `pat` is read too.
pub open spec fn spec_take_until_and_consume(s: Seq<u8>, pat: Seq<u8>) -> Outcome<Seq<u8>> {
    if pat.len() > s.len() {
        Err(Failure::Incomplete)
    } else {
        match first_occurrence(s, pat) {
            Some(i) => Ok((s.skip(i + pat.len()), s.take(i))),
            None => Err(Failure::Error),
        }
    }
}

/// Splits the input before the first occurrence of the keyword `pat`.
pub fn take_until<'a>(input: &'a [u8], pat: &str) -> (r: Parsed<'a, &'a [u8]>)
    ensures
        model_slice(r) == spec_take_until(input@, lit(pat)),
{
    let pat = pat.as_bytes();
    if pat.len() > input.len() {
        return Err(Failure::Incomplete);
    }
    match find(input, pat) {
        Some(i) => Ok(
            (vstd::slice::slice_subrange(input, i, input.len()), vstd::slice::slice_subrange(input, 0, i)),
        ),
        None => Err(Failure::Error),
    }
}

/// Splits the input around the first occurrence of the keyword `pat`.
pub fn take_until_and_consume<'a>(input: &'a [u8], pat: &str) -> (r: Parsed<'a, &'a [u8]>)
    ensures
        model_slice(r) == spec_take_until_and_consume(input@, lit(pat)),
{
    let pat = pat.as_bytes();
    if pat.len() > input.len() {
        return Err(Failure::Incomplete);
    }
    match find(input, pat) {
        Some(i) => Ok(
            (
                vstd::slice::slice_subrange(input, i + pat.len(), input.len()),
                vstd::slice::slice_subrange(input, 0, i),
            ),
        ),
        None => Err(Failure::Error),
    }
}

/// The text that `b` encodes; an error when `b` is not UTF-8.
pub open spec fn spec_text(b: Seq<u8>) -> Result<Seq<char>, Failure> {
    if valid_utf8(b) {
        Ok(decode_utf8(b))
    } else {
        Err(Failure::Error)
    }
}

/// What `core::str::from_utf8` says of bytes that are no text.
#[verifier::external_type_specification]
#[verifier::external_body]
pub struct ExUtf8Error(core::str::Utf8Error);

/// `core::str::from_utf8`: the string slice that the bytes encode, when they
/// are well-formed UTF-8, and an error otherwise.
pub assume_specification<'a>[ core::str::from_utf8 ](v: &'a [u8]) -> (r: Result<
    &'a str,
    core::str::Utf8Error,
>)
    ensures
        r is Ok <==> valid_utf8(v@),
        r matches Ok(s) ==> s@ == decode_utf8(v@),
;

/// Reads `bytes` as text.
pub fn text<'a>(bytes: &'a [u8]) -> (r: Result<&'a str, Failure>)
    ensures
        match r {
            Ok(s) => spec_text(bytes@) == Ok::<Seq<char>, Failure>(s@),
            Err(e) => spec_text(bytes@) == Err::<Seq<char>, Failure>(e),
        },
{
    match core::str::from_utf8(bytes) {
        Ok(s) => Ok(s),
        Err(_) => Err(Failure::Error),
    }
}

/// Whether two byte strings are equal.
pub fn bytes_eq(a: &[u8], b: &[u8]) -> (r: bool)
    ensures
        r == (a@ == b@),
{
    if a.len() != b.len() {
        return false;
    }
    let mut i: usize = 0;
    while i < a.len()
        invariant
            0 <= i <= a@.len(),
            a@.len() == b@.len(),
            forall|j: int| 0 <= j < i ==> a@[j] == b@[j],
        decreases a@.len() - i,
    {
        if a[i] != b[i] {
            return false;
        }
        i += 1;
    }
    proof {
        assert(a@ =~= b@);
    }
    true
}

/// Whether two strings hold the same text.
pub fn str_eq(a: &str, b: &str) -> (r: bool)
    ensures
        r == (a@ == b@),
{
    proof {
        vstd::utf8::encode_utf8_decode_utf8(a@);
        vstd::utf8::encode_utf8_decode_utf8(b@);
    }
    bytes_eq(a.as_bytes(), b.as_bytes())
}

} // verus!
