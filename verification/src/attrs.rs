//! The attribute grammars of a parameter descriptor: `name=`, `type=`,
//! `range=`, `goodchars=`, `strings=`, `n=` and `req=`.
//!
//! Every optional attribute gives a default when its keyword is absent, so
//! attributes can be left out freely.

use crate::bytes::{
    bytes_eq, is_digit_byte, is_float, lemma_run_len, lit, model, model_slice, rest, run_len, spec_rest, spec_tag, spec_take_until,
    spec_take_until_and_consume, spec_take_while, spec_text, tag, take_until,
    take_until_and_consume, take_while, text, ByteClass, Failure, Outcome, Parsed,
};
use crate::text::{spec_split, split};
use crate::types::AllowedRepeats;
use vstd::prelude::*;

verus! {

/// What is left after one separator: a leading comma or space is dropped,
/// anything else stays.
pub open spec fn spec_trailing(s: Seq<u8>) -> Seq<u8> {
    if s.len() > 0 && (s[0] == 0x2c || s[0] == 0x20) {
        s.skip(1)
    } else {
        s
    }
}

/// Reads the separator after an attribute value: a comma, a space, or
/// nothing. Never fails.
pub fn trailing_chars<'a>(input: &'a [u8]) -> (r: Parsed<'a, ()>)
    ensures
        model(r) == Ok::<(Seq<u8>, ()), Failure>((spec_trailing(input@), ())),
{
    if input.len() > 0 && (input[0] == 0x2c || input[0] == 0x20) {
        Ok((vstd::slice::slice_subrange(input, 1, input.len()), ()))
    } else {
        proof {
            assert(input@.subrange(0, input@.len() as int) =~= input@);
        }
        Ok((vstd::slice::slice_subrange(input, 0, input.len()), ()))
    }
}

/// `req=` followed by letters that spell `true` or `false`.
pub open spec fn spec_parse_req(s: Seq<u8>) -> Outcome<bool> {
    match spec_tag(s, lit("req=")) {
        Err(e) => Err(e),
        Ok((a, _)) => match spec_take_while(a, ByteClass::Alpha) {
            Err(e) => Err(e),
            Ok((b, word)) => if word == lit("true") {
                Ok((b, true))
            } else if word == lit("false") {
                Ok((b, false))
            } else {
                Err(Failure::Error)
            },
        },
    }
}

/// Whether the parameter is required: true at the end of the input, else
/// what the `req=` attribute says.
pub open spec fn spec_req(s: Seq<u8>) -> Outcome<bool> {
    if s.len() == 0 {
        Ok((s, true))
    } else {
        spec_parse_req(s)
    }
}

/// Reads a `req=` attribute.
pub fn parse_req<'a>(input: &'a [u8]) -> (r: Parsed<'a, bool>)
    ensures
        model(r) == spec_parse_req(input@),
{
    let (a, _) = tag(input, "req=")?;
    let (b, word) = take_while(a, ByteClass::Alpha)?;
    if bytes_eq(word, "true".as_bytes()) {
        Ok((b, true))
    } else if bytes_eq(word, "false".as_bytes()) {
        Ok((b, false))
    } else {
        Err(Failure::Error)
    }
}

/// Reads the closing `req=` attribute, which defaults to true at the end of
/// the input.
pub fn req<'a>(input: &'a [u8]) -> (r: Parsed<'a, bool>)
    ensures
        model(r) == spec_req(input@),
{
    if input.len() == 0 {
        Ok((input, true))
    } else {
        parse_req(input)
    }
}

/// `goodchars=[`, the character set up to the next `]`, that `]`, and one
/// separator.
pub open spec fn spec_parse_good_chars(s: Seq<u8>) -> Outcome<Option<Seq<char>>> {
    match spec_tag(s, lit("goodchars=[")) {
        Err(e) => Err(e),
        Ok((a, _)) => match spec_take_until(a, lit("]")) {
            Err(e) => Err(e),
            Ok((b, chars)) => match spec_text(chars) {
                Err(e) => Err(e),
                Ok(t) => match spec_tag(b, lit("]")) {
                    Err(e) => Err(e),
                    Ok((c, _)) => Ok((spec_trailing(c), Some(t))),
                },
            },
        },
    }
}

/// The allowed-character set, or none, with nothing read, where the input
/// does not start with `goodchars=`.
pub open spec fn spec_good_chars(s: Seq<u8>) -> Outcome<Option<Seq<char>>> {
    match spec_tag(s, lit("goodchars=")) {
        Ok(_) => spec_parse_good_chars(s),
        Err(_) => Ok((s, None)),
    }
}

/// Reads a `goodchars=[..]` attribute.
pub fn parse_good_chars<'a>(input: &'a [u8]) -> (r: Parsed<'a, Option<String>>)
    ensures
        model(r) == spec_parse_good_chars(input@),
{
    let (a, _) = tag(input, "goodchars=[")?;
    let (b, chars) = take_until(a, "]")?;
    let t = text(chars)?;
    let (c, _) = tag(b, "]")?;
    let (d, _) = trailing_chars(c)?;
    Ok((d, Some(t.to_owned())))
}

/// Reads an optional `goodchars=[..]` attribute.
pub fn good_chars<'a>(input: &'a [u8]) -> (r: Parsed<'a, Option<String>>)
    ensures
        model(r) == spec_good_chars(input@),
{
    match tag(input, "goodchars=") {
        Ok(_) => parse_good_chars(input),
        Err(_) => Ok((input, None)),
    }
}

/// `n=` and a value: everything up to the next comma, which is read too, or,
/// where there is no comma, the letters and digits that follow. The value `N`
/// means many.
pub open spec fn spec_allowed_repeats(s: Seq<u8>) -> Outcome<AllowedRepeats> {
    match spec_tag(s, lit("n=")) {
        Err(e) => Err(e),
        Ok((a, _)) => {
            let value = match spec_take_until_and_consume(a, lit(",")) {
                Err(Failure::Error) => spec_take_while(a, ByteClass::Alnum),
                other => other,
            };
            match value {
                Err(e) => Err(e),
                Ok((b, more)) => match spec_text(more) {
                    Err(e) => Err(e),
                    Ok(t) => Ok((b, AllowedRepeats::of(t))),
                },
            }
        },
    }
}

/// The cardinality where the attribute may be the last thing in the input:
/// one at the end of the input, else what `n=` says.
pub open spec fn spec_allowed(s: Seq<u8>) -> Outcome<AllowedRepeats> {
    if s.len() == 0 {
        Ok((s, AllowedRepeats::One))
    } else {
        spec_allowed_repeats(s)
    }
}

/// The cardinality: what `n=` says, or one, with nothing read, where the
/// input does not start with `n=`.
pub open spec fn spec_one_or_more(s: Seq<u8>) -> Outcome<AllowedRepeats> {
    match spec_tag(s, lit("n=")) {
        Ok(_) => spec_allowed_repeats(s),
        Err(_) => Ok((s, AllowedRepeats::One)),
    }
}

/// Reads an `n=` attribute.
pub fn allowed_repeats<'a>(input: &'a [u8]) -> (r: Parsed<'a, AllowedRepeats>)
    ensures
        model(r) == spec_allowed_repeats(input@),
{
    let (a, _) = tag(input, "n=")?;
    let value = match take_until_and_consume(a, ",") {
        Err(Failure::Error) => take_while(a, ByteClass::Alnum),
        other => other,
    };
    let (b, more) = value?;
    let t = text(more)?;
    Ok((b, AllowedRepeats::from_str(t)))
}

/// Reads an `n=` attribute that may be missing at the end of the input.
pub fn allowed<'a>(input: &'a [u8]) -> (r: Parsed<'a, AllowedRepeats>)
    ensures
        model(r) == spec_allowed(input@),
{
    if input.len() == 0 {
        Ok((input, AllowedRepeats::One))
    } else {
        allowed_repeats(input)
    }
}

/// Reads an optional `n=` attribute.
pub fn one_or_more<'a>(input: &'a [u8]) -> (r: Parsed<'a, AllowedRepeats>)
    ensures
        model(r) == spec_one_or_more(input@),
{
    match tag(input, "n=") {
        Ok(_) => allowed_repeats(input),
        Err(_) => Ok((input, AllowedRepeats::One)),
    }
}

/// The number that a string of decimal digits writes.
pub open spec fn decimal_value(d: Seq<u8>) -> nat
    decreases d.len(),
{
    if d.len() == 0 {
        0
    } else {
        decimal_value(d.drop_last()) * 10 + (d.last() - 0x30) as nat
    }
}

/// Whether every byte of `d` is a digit.
pub open spec fn all_digits(d: Seq<u8>) -> bool {
    forall|i: int| 0 <= i < d.len() ==> is_digit_byte(#[trigger] d[i])
}

/// The unsigned 32-bit number that a string of digits writes; none for the
/// empty string, for a string with anything but digits in it, and for a
/// number that does not fit.
pub open spec fn spec_u32(d: Seq<u8>) -> Option<u32> {
    if d.len() > 0 && all_digits(d) && decimal_value(d) <= u32::MAX {
        Some(decimal_value(d) as u32)
    } else {
        None
    }
}

/// Every prefix of a digit string writes a number no greater than the whole.
pub proof fn lemma_decimal_value_monotonic(d: Seq<u8>, k: int)
    requires
        0 <= k <= d.len(),
        all_digits(d),
    ensures
        decimal_value(d.take(k)) <= decimal_value(d),
    decreases d.len() - k,
{
    if k == d.len() {
        assert(d.take(k) =~= d);
    } else {
        lemma_decimal_value_monotonic(d, k + 1);
        assert(d.take(k + 1).drop_last() =~= d.take(k));
        assert(is_digit_byte(d[k]));
    }
}

/// Reads a string of digits as an unsigned 32-bit number.
pub fn parse_u32(d: &[u8]) -> (r: Option<u32>)
    ensures
        r == spec_u32(d@),
{
    if d.len() == 0 {
        return None;
    }
    let mut acc: u64 = 0;
    let mut i: usize = 0;
    while i < d.len()
        invariant
            0 <= i <= d@.len(),
            forall|j: int| 0 <= j < i ==> is_digit_byte(#[trigger] d@[j]),
            acc == decimal_value(d@.take(i as int)),
            acc <= u32::MAX,
        decreases d@.len() - i,
    {
        if !ByteClass::Digit.contains(d[i]) {
            return None;
        }
        let digit: u64 = (d[i] - 0x30) as u64;
        proof {
            assert(d@.take(i + 1).drop_last() =~= d@.take(i as int));
            assert(d@.take(i + 1).last() == d@[i as int]);
        }
        let next: u64 = acc * 10 + digit;
        if next > 0xffff_ffff {
            proof {
                if all_digits(d@) {
                    lemma_decimal_value_monotonic(d@, i + 1);
                }
            }
            return None;
        }
        acc = next;
        i += 1;
    }
    proof {
        assert(d@.take(d@.len() as int) =~= d@);
    }
    Some(acc as u32)
}

/// `range=`, digits that write an unsigned 32-bit number, and one separator.
/// None, with nothing read, where the input does not start with `range=`.
pub open spec fn spec_u32_min_range(s: Seq<u8>) -> Outcome<Option<u32>> {
    match spec_tag(s, lit("range=")) {
        Err(_) => Ok((s, None)),
        Ok((a, _)) => match spec_take_while(a, ByteClass::Digit) {
            Err(e) => Err(e),
            Ok((b, digits)) => match spec_u32(digits) {
                None => Err(Failure::Error),
                Some(min) => Ok((spec_trailing(b), Some(min))),
            },
        },
    }
}

/// `|`, then digits and one separator. Where the digits write no unsigned
/// 32-bit number they are left unread and there is no bound.
pub open spec fn spec_u32_max(s: Seq<u8>) -> Outcome<Option<u32>> {
    match spec_tag(s, lit("|")) {
        Err(e) => Err(e),
        Ok((a, _)) => match spec_take_while(a, ByteClass::Digit) {
            Err(e) => Err(e),
            Ok((b, digits)) => match spec_u32(digits) {
                None => Ok((spec_trailing(a), None)),
                Some(max) => Ok((spec_trailing(b), Some(max))),
            },
        },
    }
}

/// The upper bound after a `|`, or none, with nothing read, where the input
/// does not start with `|`.
pub open spec fn spec_u32_max_range(s: Seq<u8>) -> Outcome<Option<u32>> {
    match spec_tag(s, lit("|")) {
        Ok(_) => spec_u32_max(s),
        Err(_) => Ok((s, None)),
    }
}

/// Reads the leading digits of the input as a number.
fn leading_u32<'a>(input: &'a [u8]) -> (r: (&'a [u8], Option<u32>))
    ensures
        spec_take_while(input@, ByteClass::Digit) matches Ok((b, digits)) && r.0@ == b && r.1
            == spec_u32(digits),
{
    match take_while(input, ByteClass::Digit) {
        Ok((b, digits)) => (b, parse_u32(digits)),
        Err(_) => (input, None),
    }
}

/// Reads the lower bound of an integer range.
pub fn u32_min_range<'a>(input: &'a [u8]) -> (r: Parsed<'a, Option<u32>>)
    ensures
        model(r) == spec_u32_min_range(input@),
{
    match tag(input, "range=") {
        Ok((a, _)) => {
            let (b, value) = leading_u32(a);
            match value {
                None => Err(Failure::Error),
                Some(min) => {
                    let (c, _) = trailing_chars(b)?;
                    Ok((c, Some(min)))
                },
            }
        },
        Err(_) => Ok((input, None)),
    }
}

/// Reads `|` and the upper bound of an integer range.
pub fn u32_max<'a>(input: &'a [u8]) -> (r: Parsed<'a, Option<u32>>)
    ensures
        model(r) == spec_u32_max(input@),
{
    let (a, _) = tag(input, "|")?;
    let (b, value) = leading_u32(a);
    match value {
        None => {
            let (c, _) = trailing_chars(a)?;
            Ok((c, None))
        },
        Some(max) => {
            let (c, _) = trailing_chars(b)?;
            Ok((c, Some(max)))
        },
    }
}

/// Reads the optional upper bound of an integer range.
pub fn u32_max_range<'a>(input: &'a [u8]) -> (r: Parsed<'a, Option<u32>>)
    ensures
        model(r) == spec_u32_max_range(input@),
{
    match tag(input, "|") {
        Ok(_) => u32_max(input),
        Err(_) => Ok((input, None)),
    }
}

/// How many full stops `d` holds.
pub open spec fn dots(d: Seq<u8>) -> nat
    decreases d.len(),
{
    if d.len() == 0 {
        0
    } else {
        dots(d.drop_last()) + if d.last() == 0x2e {
            1nat
        } else {
            0nat
        }
    }
}

/// Whether `d` writes a decimal number without a sign: digits with at most
/// one full stop among them, before them or after them, and at least one
/// digit.
pub open spec fn is_unsigned_decimal(d: Seq<u8>) -> bool {
    &&& forall|i: int| 0 <= i < d.len() ==> ByteClass::Decimal.has(#[trigger] d[i])
    &&& dots(d) <= 1
    &&& dots(d) < d.len()
}

/// How many bytes the sign at the head of `s` takes: one where `s` starts
/// with `-`, none otherwise.
pub open spec fn spec_sign(s: Seq<u8>) -> int {
    if s.len() > 0 && s[0] == 0x2d {
        1
    } else {
        0
    }
}

/// Whether `d` writes a decimal number: an optional `-`, and then a decimal
/// number without a sign.
pub open spec fn is_decimal(d: Seq<u8>) -> bool {
    is_unsigned_decimal(d.skip(spec_sign(d)))
}

/// The text of a decimal number; an error where `d` writes none.
pub open spec fn spec_decimal(d: Seq<u8>) -> Result<Seq<char>, Failure> {
    if is_decimal(d) {
        spec_text(d)
    } else {
        Err(Failure::Error)
    }
}

/// What may be a decimal number at the head of the input: an optional `-`
/// and the digits and full stops that follow it. Never fails; what is taken
/// may be empty.
pub open spec fn spec_take_number(s: Seq<u8>) -> Outcome<Seq<u8>> {
    let n = spec_sign(s) + run_len(s.skip(spec_sign(s)), ByteClass::Decimal);
    Ok((s.skip(n), s.take(n)))
}

/// The full stops of a prefix are no more than those of the whole.
pub proof fn lemma_dots_monotonic(d: Seq<u8>, k: int)
    requires
        0 <= k <= d.len(),
    ensures
        dots(d.take(k)) <= dots(d),
    decreases d.len() - k,
{
    if k == d.len() {
        assert(d.take(k) =~= d);
    } else {
        lemma_dots_monotonic(d, k + 1);
        assert(d.take(k + 1).drop_last() =~= d.take(k));
    }
}

/// Whether `d` writes a decimal number without a sign.
fn unsigned_decimal(d: &[u8]) -> (r: bool)
    ensures
        r == is_unsigned_decimal(d@),
{
    let mut seen: usize = 0;
    let mut i: usize = 0;
    while i < d.len()
        invariant
            0 <= i <= d@.len(),
            forall|j: int| 0 <= j < i ==> ByteClass::Decimal.has(#[trigger] d@[j]),
            seen == dots(d@.take(i as int)),
            seen <= 1,
            seen <= i,
        decreases d@.len() - i,
    {
        proof {
            assert(d@.take(i + 1).drop_last() =~= d@.take(i as int));
            assert(d@.take(i + 1).last() == d@[i as int]);
        }
        if !is_float(d[i]) {
            return false;
        }
        if d[i] == 0x2e {
            if seen == 1 {
                proof {
                    lemma_dots_monotonic(d@, i + 1);
                }
                return false;
            }
            seen += 1;
        }
        i += 1;
    }
    proof {
        assert(d@.take(d@.len() as int) =~= d@);
    }
    seen < d.len()
}

/// Reads an optional `-`, digits and full stops as a decimal number, and
/// keeps it as it is written.
pub fn parse_decimal(d: &[u8]) -> (r: Result<String, Failure>)
    ensures
        match r {
            Ok(t) => spec_decimal(d@) == Ok::<Seq<char>, Failure>(t@),
            Err(e) => spec_decimal(d@) == Err::<Seq<char>, Failure>(e),
        },
{
    let sign: usize = if d.len() > 0 && d[0] == 0x2d {
        1
    } else {
        0
    };
    if !unsigned_decimal(vstd::slice::slice_subrange(d, sign, d.len())) {
        return Err(Failure::Error);
    }
    let t = text(d)?;
    Ok(t.to_owned())
}

/// Takes what may be a decimal number from the head of the input.
pub fn take_number<'a>(input: &'a [u8]) -> (r: Parsed<'a, &'a [u8]>)
    ensures
        model_slice(r) == spec_take_number(input@),
{
    let sign: usize = if input.len() > 0 && input[0] == 0x2d {
        1
    } else {
        0
    };
    let after = vstd::slice::slice_subrange(input, sign, input.len());
    let (b, run) = take_while(after, ByteClass::Decimal)?;
    proof {
        lemma_run_len(after@, ByteClass::Decimal);
        let n = run_len(after@, ByteClass::Decimal) as int;
        assert(b@ =~= input@.skip(sign + n));
    }
    let n: usize = sign + run.len();
    Ok((b, vstd::slice::slice_subrange(input, 0, n)))
}

/// `range=`, a decimal number with an optional `-` before it, and one
/// separator. None, with nothing read, where the input does not start with
/// `range=`.
pub open spec fn spec_f32_min_range(s: Seq<u8>) -> Outcome<Option<Seq<char>>> {
    match spec_tag(s, lit("range=")) {
        Err(_) => Ok((s, None)),
        Ok((a, _)) => match spec_take_number(a) {
            Err(e) => Err(e),
            Ok((b, number)) => match spec_decimal(number) {
                Err(e) => Err(e),
                Ok(min) => Ok((spec_trailing(b), Some(min))),
            },
        },
    }
}

/// `|`, then a decimal number with an optional `-` before it, and one
/// separator. Where what follows the `|` writes no number it is left unread
/// and there is no bound.
pub open spec fn spec_f32_max(s: Seq<u8>) -> Outcome<Option<Seq<char>>> {
    match spec_tag(s, lit("|")) {
        Err(e) => Err(e),
        Ok((a, _)) => match spec_take_number(a) {
            Err(e) => Err(e),
            Ok((b, number)) => match spec_decimal(number) {
                Err(_) => Ok((spec_trailing(a), None)),
                Ok(max) => Ok((spec_trailing(b), Some(max))),
            },
        },
    }
}

/// The upper bound after a `|`, or none, with nothing read, where the input
/// does not start with `|`.
pub open spec fn spec_f32_max_range(s: Seq<u8>) -> Outcome<Option<Seq<char>>> {
    match spec_tag(s, lit("|")) {
        Ok(_) => spec_f32_max(s),
        Err(_) => Ok((s, None)),
    }
}

/// Reads what may be a decimal number at the head of the input.
fn leading_decimal<'a>(input: &'a [u8]) -> (r: (&'a [u8], Result<String, Failure>))
    ensures
        spec_take_number(input@) matches Ok((b, number)) && r.0@ == b && match r.1 {
            Ok(t) => spec_decimal(number) == Ok::<Seq<char>, Failure>(t@),
            Err(e) => spec_decimal(number) == Err::<Seq<char>, Failure>(e),
        },
{
    match take_number(input) {
        Ok((b, number)) => (b, parse_decimal(number)),
        Err(_) => (input, Err(Failure::Error)),
    }
}

/// Reads the lower bound of a decimal range.
pub fn f32_min_range<'a>(input: &'a [u8]) -> (r: Parsed<'a, Option<String>>)
    ensures
        model(r) == spec_f32_min_range(input@),
{
    match tag(input, "range=") {
        Ok((a, _)) => {
            let (b, value) = leading_decimal(a);
            let min = value?;
            let (c, _) = trailing_chars(b)?;
            Ok((c, Some(min)))
        },
        Err(_) => Ok((input, None)),
    }
}

/// Reads `|` and the upper bound of a decimal range.
pub fn f32_max<'a>(input: &'a [u8]) -> (r: Parsed<'a, Option<String>>)
    ensures
        model(r) == spec_f32_max(input@),
{
    let (a, _) = tag(input, "|")?;
    let (b, value) = leading_decimal(a);
    match value {
        Err(_) => {
            let (c, _) = trailing_chars(a)?;
            Ok((c, None))
        },
        Ok(max) => {
            let (c, _) = trailing_chars(b)?;
            Ok((c, Some(max)))
        },
    }
}

/// Reads the optional upper bound of a decimal range.
pub fn f32_max_range<'a>(input: &'a [u8]) -> (r: Parsed<'a, Option<String>>)
    ensures
        model(r) == spec_f32_max_range(input@),
{
    match tag(input, "|") {
        Ok(_) => f32_max(input),
        Err(_) => Ok((input, None)),
    }
}

/// `strings=` and the choices, separated by `|`: everything up to the next
/// comma, which is read too, or, where there is no comma, the whole rest of
/// the input. The order of the choices is kept.
pub open spec fn spec_choices(s: Seq<u8>) -> Outcome<Seq<Seq<char>>> {
    match spec_tag(s, lit("strings=")) {
        Err(e) => Err(e),
        Ok((a, _)) => {
            let value = match spec_take_until_and_consume(a, lit(",")) {
                Err(Failure::Error) => spec_rest(a),
                other => other,
            };
            match value {
                Err(e) => Err(e),
                Ok((b, words)) => match spec_text(words) {
                    Err(e) => Err(e),
                    Ok(t) => Ok((b, spec_split(t, '|'))),
                },
            }
        },
    }
}

/// Reads a `strings=` attribute.
pub fn choices<'a>(input: &'a [u8]) -> (r: Parsed<'a, Vec<String>>)
    ensures
        model(r) == spec_choices(input@),
{
    let (a, _) = tag(input, "strings=")?;
    let value = match take_until_and_consume(a, ",") {
        Err(Failure::Error) => rest(a),
        other => other,
    };
    let (b, words) = value?;
    let t = text(words)?;
    Ok((b, split(t, '|')))
}

/// `name=` and the name, which ends at the next comma; the comma is read.
pub open spec fn spec_parse_name(s: Seq<u8>) -> Outcome<Seq<char>> {
    match spec_tag(s, lit("name=")) {
        Err(e) => Err(e),
        Ok((a, _)) => match spec_take_until_and_consume(a, lit(",")) {
            Err(e) => Err(e),
            Ok((b, name)) => match spec_text(name) {
                Err(e) => Err(e),
                Ok(t) => Ok((b, t)),
            },
        },
    }
}

/// `name=` and a name that may be the last thing in a descriptor: it ends at
/// the next comma, which is read too, or, where there is no comma, at the end
/// of the input.
pub open spec fn spec_parse_last_name(s: Seq<u8>) -> Outcome<Seq<char>> {
    match spec_tag(s, lit("name=")) {
        Err(e) => Err(e),
        Ok((a, _)) => {
            let value = match spec_take_until_and_consume(a, lit(",")) {
                Err(Failure::Error) => spec_rest(a),
                other => other,
            };
            match value {
                Err(e) => Err(e),
                Ok((b, name)) => match spec_text(name) {
                    Err(e) => Err(e),
                    Ok(t) => Ok((b, t)),
                },
            }
        },
    }
}

/// Reads a `name=` attribute that may be the last thing in a descriptor.
pub fn parse_last_name<'a>(input: &'a [u8]) -> (r: Parsed<'a, &'a str>)
    ensures
        model(r) == spec_parse_last_name(input@),
{
    let (a, _) = tag(input, "name=")?;
    let value = match take_until_and_consume(a, ",") {
        Err(Failure::Error) => rest(a),
        other => other,
    };
    let (b, name) = value?;
    let t = text(name)?;
    Ok((b, t))
}

/// Reads a `name=` attribute.
pub fn parse_name<'a>(input: &'a [u8]) -> (r: Parsed<'a, &'a str>)
    ensures
        model(r) == spec_parse_name(input@),
{
    let (a, _) = tag(input, "name=")?;
    let (b, name) = take_until_and_consume(a, ",")?;
    let t = text(name)?;
    Ok((b, t))
}

/// `type=` and the type tag: everything up to the next comma, or, where
/// there is no comma, up to the next space, either of which is read too; or,
/// where there is neither, the letters that follow.
pub open spec fn spec_parse_type(s: Seq<u8>) -> Outcome<Seq<char>> {
    match spec_tag(s, lit("type=")) {
        Err(e) => Err(e),
        Ok((a, _)) => {
            let value = match spec_take_until_and_consume(a, lit(",")) {
                Err(Failure::Error) => match spec_take_until_and_consume(a, lit(" ")) {
                    Err(Failure::Error) => spec_take_while(a, ByteClass::Alpha),
                    other => other,
                },
                other => other,
            };
            match value {
                Err(e) => Err(e),
                Ok((b, word)) => match spec_text(word) {
                    Err(e) => Err(e),
                    Ok(t) => Ok((b, t)),
                },
            }
        },
    }
}

/// Reads a `type=` attribute.
pub fn parse_type<'a>(input: &'a [u8]) -> (r: Parsed<'a, String>)
    ensures
        model(r) == spec_parse_type(input@),
{
    let (a, _) = tag(input, "type=")?;
    let value = match take_until_and_consume(a, ",") {
        Err(Failure::Error) => match take_until_and_consume(a, " ") {
            Err(Failure::Error) => take_while(a, ByteClass::Alpha),
            other => other,
        },
        other => other,
    };
    let (b, word) = value?;
    let t = text(word)?;
    Ok((b, t.to_owned()))
}

} // verus!
