//! Parameter descriptors: from a type tag and the attributes after it to a
//! typed parameter.

use crate::attrs::{
    allowed, choices, f32_max_range, f32_min_range, good_chars, one_or_more, parse_last_name,
    parse_name, parse_type, req, spec_allowed, spec_choices, spec_f32_max_range,
    spec_f32_min_range, spec_good_chars, spec_one_or_more, spec_parse_last_name, spec_parse_name,
    spec_parse_type, spec_req, spec_u32_max_range, spec_u32_min_range, u32_max_range,
    u32_min_range,
};
use crate::bytes::{lit, model, spec_tag, str_eq, tag, Failure, Outcome, Parsed};
use crate::types::{AllowedRepeats, CephEnum, CephEnumView, CephType, CephTypeView};
use vstd::prelude::*;

verus! {

/// The kinds that take no attribute but `req=`, by their type tags.
pub open spec fn plain_kind(ceph_type: Seq<char>) -> Option<CephEnumView> {
    if ceph_type == "CephSocketpath"@ {
        Some(CephEnumView::CephSocketpath)
    } else if ceph_type == "CephIPAddr"@ {
        Some(CephEnumView::CephIPAddr)
    } else if ceph_type == "CephEntityAddr"@ {
        Some(CephEnumView::CephEntityAddr)
    } else if ceph_type == "CephObjectname"@ {
        Some(CephEnumView::CephObjectname)
    } else if ceph_type == "CephPgid"@ {
        Some(CephEnumView::CephPgid)
    } else if ceph_type == "CephName"@ {
        Some(CephEnumView::CephName)
    } else if ceph_type == "CephOsdName"@ {
        Some(CephEnumView::CephOsdName)
    } else if ceph_type == "CephFilepath"@ {
        Some(CephEnumView::CephFilepath)
    } else if ceph_type == "CephFragment"@ {
        Some(CephEnumView::CephFragment)
    } else if ceph_type == "CephUUID"@ {
        Some(CephEnumView::CephUUID)
    } else if ceph_type == "CephPrefix"@ {
        Some(CephEnumView::CephPrefix)
    } else {
        None
    }
}

/// A kind followed by the closing `req=` attribute.
pub open spec fn spec_closing(s: Seq<u8>, variant: CephEnumView) -> Outcome<CephTypeView> {
    match spec_req(s) {
        Err(e) => Err(e),
        Ok((rest, req)) => Ok((rest, CephTypeView { req, variant })),
    }
}

/// An integer: an optional `range=min[|max]`, then `req=`.
pub open spec fn spec_int(s: Seq<u8>) -> Outcome<CephTypeView> {
    match spec_u32_min_range(s) {
        Err(e) => Err(e),
        Ok((a, min)) => match spec_u32_max_range(a) {
            Err(e) => Err(e),
            Ok((b, max)) => spec_closing(b, CephEnumView::CephInt { min, max }),
        },
    }
}

/// A decimal number: an optional `range=min[|max]`, then `req=`.
pub open spec fn spec_float(s: Seq<u8>) -> Outcome<CephTypeView> {
    match spec_f32_min_range(s) {
        Err(e) => Err(e),
        Ok((a, min)) => match spec_f32_max_range(a) {
            Err(e) => Err(e),
            Ok((b, max)) => spec_closing(b, CephEnumView::CephFloat { min, max }),
        },
    }
}

/// A string: an optional `n=`, an optional `goodchars=[..]`, then `req=`.
/// With no attribute at all it is a required string without a character
/// set, allowed once.
pub open spec fn spec_string(s: Seq<u8>) -> Outcome<CephTypeView> {
    if s.len() == 0 {
        Ok(
            (
                s,
                CephTypeView {
                    req: true,
                    variant: CephEnumView::CephString {
                        goodchars: None,
                        allowed_repeats: AllowedRepeats::One,
                    },
                },
            ),
        )
    } else {
        match spec_one_or_more(s) {
            Err(e) => Err(e),
            Ok((a, allowed_repeats)) => match spec_good_chars(a) {
                Err(e) => Err(e),
                Ok((b, goodchars)) => spec_closing(
                    b,
                    CephEnumView::CephString { goodchars, allowed_repeats },
                ),
            },
        }
    }
}

/// A pool name: an optional `n=`, then `req=`. The cardinality is unset
/// where other attributes follow and `n=` is not the first of them.
pub open spec fn spec_poolname(s: Seq<u8>) -> Outcome<CephTypeView> {
    match spec_allowed(s) {
        Err(Failure::Incomplete) => Err(Failure::Incomplete),
        Err(Failure::Error) => spec_closing(s, CephEnumView::CephPoolname { allowed_repeats: None }),
        Ok((a, n)) => spec_closing(a, CephEnumView::CephPoolname { allowed_repeats: Some(n) }),
    }
}

/// One of a list of words: `strings=`, an optional `n=`, then `req=`.
pub open spec fn spec_choice(s: Seq<u8>) -> Outcome<CephTypeView> {
    match spec_choices(s) {
        Err(e) => Err(e),
        Ok((a, choices)) => match spec_one_or_more(a) {
            Err(e) => Err(e),
            Ok((b, allowed_repeats)) => spec_closing(
                b,
                CephEnumView::CephChoices { choices, allowed_repeats },
            ),
        },
    }
}

/// The parameter type that the attributes `s` describe for the type tag
/// `ceph_type`. A tag that names no kind gives the unknown kind, not
/// required, with nothing read: it is never a failure.
pub open spec fn spec_ceph_type(s: Seq<u8>, ceph_type: Seq<char>) -> Outcome<CephTypeView> {
    if ceph_type == "CephInt"@ {
        spec_int(s)
    } else if ceph_type == "CephFloat"@ {
        spec_float(s)
    } else if ceph_type == "CephString"@ {
        spec_string(s)
    } else if ceph_type == "CephPoolname"@ {
        spec_poolname(s)
    } else if ceph_type == "CephChoices"@ {
        spec_choice(s)
    } else {
        match plain_kind(ceph_type) {
            Some(variant) => spec_closing(s, variant),
            None => Ok((s, CephTypeView { req: false, variant: CephEnumView::Unknown })),
        }
    }
}

/// Reads the closing `req=` attribute of a parameter of kind `variant`.
fn closing<'a>(input: &'a [u8], variant: CephEnum) -> (r: Parsed<'a, CephType>)
    ensures
        model(r) == spec_closing(input@, variant.deep_view()),
{
    let (rest, req) = req(input)?;
    Ok((rest, CephType { req, variant }))
}

/// The kind that takes no attribute but `req=` and has the tag `ceph_type`.
fn plain(ceph_type: &str) -> (r: Option<CephEnum>)
    ensures
        r.deep_view() == plain_kind(ceph_type@),
{
    if str_eq(ceph_type, "CephSocketpath") {
        Some(CephEnum::CephSocketpath)
    } else if str_eq(ceph_type, "CephIPAddr") {
        Some(CephEnum::CephIPAddr)
    } else if str_eq(ceph_type, "CephEntityAddr") {
        Some(CephEnum::CephEntityAddr)
    } else if str_eq(ceph_type, "CephObjectname") {
        Some(CephEnum::CephObjectname)
    } else if str_eq(ceph_type, "CephPgid") {
        Some(CephEnum::CephPgid)
    } else if str_eq(ceph_type, "CephName") {
        Some(CephEnum::CephName)
    } else if str_eq(ceph_type, "CephOsdName") {
        Some(CephEnum::CephOsdName)
    } else if str_eq(ceph_type, "CephFilepath") {
        Some(CephEnum::CephFilepath)
    } else if str_eq(ceph_type, "CephFragment") {
        Some(CephEnum::CephFragment)
    } else if str_eq(ceph_type, "CephUUID") {
        Some(CephEnum::CephUUID)
    } else if str_eq(ceph_type, "CephPrefix") {
        Some(CephEnum::CephPrefix)
    } else {
        None
    }
}

/// Reads the attributes of an integer parameter.
fn int_type<'a>(input: &'a [u8]) -> (r: Parsed<'a, CephType>)
    ensures
        model(r) == spec_int(input@),
{
    let (a, min) = u32_min_range(input)?;
    let (b, max) = u32_max_range(a)?;
    closing(b, CephEnum::CephInt { min, max })
}

/// Reads the attributes of a decimal parameter.
fn float_type<'a>(input: &'a [u8]) -> (r: Parsed<'a, CephType>)
    ensures
        model(r) == spec_float(input@),
{
    let (a, min) = f32_min_range(input)?;
    let (b, max) = f32_max_range(a)?;
    closing(b, CephEnum::CephFloat { min, max })
}

/// Reads the attributes of a string parameter.
fn string_type<'a>(input: &'a [u8]) -> (r: Parsed<'a, CephType>)
    ensures
        model(r) == spec_string(input@),
{
    if input.len() == 0 {
        Ok(
            (
                input,
                CephType {
                    req: true,
                    variant: CephEnum::CephString {
                        goodchars: None,
                        allowed_repeats: AllowedRepeats::One,
                    },
                },
            ),
        )
    } else {
        let (a, allowed_repeats) = one_or_more(input)?;
        let (b, goodchars) = good_chars(a)?;
        closing(b, CephEnum::CephString { goodchars, allowed_repeats })
    }
}

/// Reads the attributes of a pool name parameter.
fn poolname_type<'a>(input: &'a [u8]) -> (r: Parsed<'a, CephType>)
    ensures
        model(r) == spec_poolname(input@),
{
    match allowed(input) {
        Err(Failure::Incomplete) => Err(Failure::Incomplete),
        Err(Failure::Error) => closing(input, CephEnum::CephPoolname { allowed_repeats: None }),
        Ok((a, n)) => closing(a, CephEnum::CephPoolname { allowed_repeats: Some(n) }),
    }
}

/// Reads the attributes of a parameter that takes one of a list of words.
fn choice_type<'a>(input: &'a [u8]) -> (r: Parsed<'a, CephType>)
    ensures
        model(r) == spec_choice(input@),
{
    let (a, choices) = choices(input)?;
    let (b, allowed_repeats) = one_or_more(a)?;
    closing(b, CephEnum::CephChoices { choices, allowed_repeats })
}

impl CephType {
    /// Reads the attributes that follow the type tag `ceph_type`.
    pub fn parse<'a>(input: &'a [u8], ceph_type: String) -> (r: Parsed<'a, CephType>)
        ensures
            model(r) == spec_ceph_type(input@, ceph_type@),
    {
        let tag = ceph_type.as_str();
        if str_eq(tag, "CephInt") {
            int_type(input)
        } else if str_eq(tag, "CephFloat") {
            float_type(input)
        } else if str_eq(tag, "CephString") {
            string_type(input)
        } else if str_eq(tag, "CephPoolname") {
            poolname_type(input)
        } else if str_eq(tag, "CephChoices") {
            choice_type(input)
        } else {
            match plain(tag) {
                Some(variant) => closing(input, variant),
                None => Ok((input, CephType { req: false, variant: CephEnum::Unknown })),
            }
        }
    }
}

/// A descriptor that starts with its name: `name=..,type=..` and the
/// attributes of the type.
pub open spec fn spec_name_first(s: Seq<u8>) -> Outcome<(Seq<char>, CephTypeView)> {
    match spec_parse_name(s) {
        Err(e) => Err(e),
        Ok((a, name)) => match spec_parse_type(a) {
            Err(e) => Err(e),
            Ok((b, ceph_type)) => match spec_ceph_type(b, ceph_type) {
                Err(e) => Err(e),
                Ok((c, ceph_struct)) => Ok((c, (name, ceph_struct))),
            },
        },
    }
}

/// A descriptor that starts with its type: `type=..,name=..` and, behind a
/// comma, the attributes of the type. The name may be the last thing in the
/// descriptor.
pub open spec fn spec_type_first(s: Seq<u8>) -> Outcome<(Seq<char>, CephTypeView)> {
    match spec_parse_type(s) {
        Err(e) => Err(e),
        Ok((a, ceph_type)) => match spec_parse_last_name(a) {
            Err(e) => Err(e),
            Ok((b, name)) => match spec_ceph_type(b, ceph_type) {
                Err(e) => Err(e),
                Ok((c, ceph_struct)) => Ok((c, (name, ceph_struct))),
            },
        },
    }
}

/// One parameter descriptor: its name and its type. The name may come
/// before the type or after it; a descriptor that starts with neither is an
/// error.
pub open spec fn spec_param_map(s: Seq<u8>) -> Outcome<(Seq<char>, CephTypeView)> {
    match spec_tag(s, lit("name=")) {
        Ok(_) => spec_name_first(s),
        Err(Failure::Incomplete) => Err(Failure::Incomplete),
        Err(Failure::Error) => match spec_tag(s, lit("type=")) {
            Ok(_) => spec_type_first(s),
            Err(e) => Err(e),
        },
    }
}

/// Reads a descriptor that starts with its name.
fn name_first<'a>(input: &'a [u8]) -> (r: Parsed<'a, (String, CephType)>)
    ensures
        model(r) == spec_name_first(input@),
{
    let (a, name) = parse_name(input)?;
    let (b, ceph_type) = parse_type(a)?;
    let (c, ceph_struct) = CephType::parse(b, ceph_type)?;
    Ok((c, (name.to_owned(), ceph_struct)))
}

/// Reads a descriptor that starts with its type.
fn type_first<'a>(input: &'a [u8]) -> (r: Parsed<'a, (String, CephType)>)
    ensures
        model(r) == spec_type_first(input@),
{
    let (a, ceph_type) = parse_type(input)?;
    let (b, name) = parse_last_name(a)?;
    let (c, ceph_struct) = CephType::parse(b, ceph_type)?;
    Ok((c, (name.to_owned(), ceph_struct)))
}

/// Reads one parameter descriptor, such as
/// `name=epoch,type=CephInt,range=0,req=false`.
pub fn parse_param_map<'a>(input: &'a [u8]) -> (r: Parsed<'a, (String, CephType)>)
    ensures
        model(r) == spec_param_map(input@),
{
    match tag(input, "name=") {
        Ok(_) => name_first(input),
        Err(Failure::Incomplete) => Err(Failure::Incomplete),
        Err(Failure::Error) => match tag(input, "type=") {
            Ok(_) => type_first(input),
            Err(e) => Err(e),
        },
    }
}

} // verus!
