//! Writing a signature back as text: its prefix, and one descriptor for each
//! of its parameters.

use crate::emit::{number_text, push_str, spec_number_text};
use crate::signature::is_descriptor;
use crate::text::{join, spec_join, stands_at};
use crate::types::{
    AllowedRepeats, CephEnum, CephEnumView, CephType, CephTypeView, Signature, SignatureView,
};
use vstd::prelude::*;

verus! {

impl CephEnumView {
    /// The type tag of the kind. The unknown kind has a tag that names no
    /// kind.
    pub open spec fn tag(self) -> Seq<char> {
        match self {
            CephEnumView::CephInt { .. } => "CephInt"@,
            CephEnumView::CephFloat { .. } => "CephFloat"@,
            CephEnumView::CephString { .. } => "CephString"@,
            CephEnumView::CephSocketpath => "CephSocketpath"@,
            CephEnumView::CephIPAddr => "CephIPAddr"@,
            CephEnumView::CephEntityAddr => "CephEntityAddr"@,
            CephEnumView::CephPoolname { .. } => "CephPoolname"@,
            CephEnumView::CephObjectname => "CephObjectname"@,
            CephEnumView::CephPgid => "CephPgid"@,
            CephEnumView::CephName => "CephName"@,
            CephEnumView::CephOsdName => "CephOsdName"@,
            CephEnumView::CephChoices { .. } => "CephChoices"@,
            CephEnumView::CephFilepath => "CephFilepath"@,
            CephEnumView::CephFragment => "CephFragment"@,
            CephEnumView::CephUUID => "CephUUID"@,
            CephEnumView::CephPrefix => "CephPrefix"@,
            CephEnumView::Unknown => "Unknown"@,
        }
    }
}

/// `base`, followed by the range that the bounds make: `,range=` and the
/// lower bound, and `|` and the upper bound, which stands behind a comma of
/// its own where there is no lower bound.
pub open spec fn spec_with_range(
    base: Seq<char>,
    min: Option<Seq<char>>,
    max: Option<Seq<char>>,
) -> Seq<char> {
    let with_min = match min {
        Some(m) => base + ",range="@ + m,
        None => base,
    };
    match max {
        Some(m) => if min is Some {
            with_min + "|"@ + m
        } else {
            with_min + ",|"@ + m
        },
        None => with_min,
    }
}

/// `base`, followed by `,req=false` for a parameter that may be left out.
pub open spec fn spec_with_req(base: Seq<char>, req: bool) -> Seq<char> {
    if req {
        base
    } else {
        base + ",req=false"@
    }
}

/// The descriptor that is written for a parameter: `name=`, the name,
/// `,type=`, the tag of the kind, and the attributes that the kind and the
/// type ask for, in the order in which the grammar reads them. Attributes
/// that would say what holds without them are left out.
pub open spec fn spec_descriptor(name: Seq<char>, ceph_type: CephTypeView) -> Seq<char> {
    let head = "name="@ + name + ",type="@ + ceph_type.variant.tag();
    match ceph_type.variant {
        CephEnumView::CephInt { min, max } => spec_with_req(
            spec_with_range(head, spec_number_text(min), spec_number_text(max)),
            ceph_type.req,
        ),
        CephEnumView::CephFloat { min, max } => spec_with_req(
            spec_with_range(head, min, max),
            ceph_type.req,
        ),
        CephEnumView::CephString { goodchars, allowed_repeats } => {
            let with_n = if allowed_repeats == AllowedRepeats::Many {
                head + ",n=N"@
            } else {
                head
            };
            let with_chars = match goodchars {
                Some(g) => with_n + ",goodchars=["@ + g + "]"@,
                None => with_n,
            };
            spec_with_req(with_chars, ceph_type.req)
        },
        CephEnumView::CephPoolname { allowed_repeats } => match allowed_repeats {
            None => if ceph_type.req {
                head + ",req=true"@
            } else {
                head + ",req=false"@
            },
            Some(AllowedRepeats::Many) => spec_with_req(head + ",n=N"@, ceph_type.req),
            Some(AllowedRepeats::One) => if ceph_type.req {
                head
            } else {
                head + ",n=1,req=false"@
            },
        },
        CephEnumView::CephChoices { choices, allowed_repeats } => {
            let with_choices = head + ",strings="@ + spec_join(choices, '|') + ","@;
            if allowed_repeats == AllowedRepeats::Many {
                spec_with_req(with_choices + "n=N"@, ceph_type.req)
            } else if ceph_type.req {
                with_choices
            } else {
                with_choices + "req=false"@
            }
        },
        CephEnumView::Unknown => head,
        _ => spec_with_req(head, ceph_type.req),
    }
}

/// The descriptors of the parameters, each behind a space.
pub open spec fn spec_descriptors(entries: Seq<(Seq<char>, CephTypeView)>) -> Seq<char>
    decreases entries.len(),
{
    if entries.len() == 0 {
        Seq::empty()
    } else {
        spec_descriptors(entries.drop_last()) + " "@ + spec_descriptor(
            entries.last().0,
            entries.last().1,
        )
    }
}

impl SignatureView {
    /// The text that is written for the signature: its prefix, and then the
    /// descriptors of its parameters, each behind a space.
    pub open spec fn rendering(self) -> Seq<char> {
        self.prefix + spec_descriptors(self.parameters)
    }
}

/// What is written for a parameter is read as a descriptor, never as a
/// literal word of the prefix: `name=` stands at its head.
pub proof fn law_descriptor_is_descriptor(name: Seq<char>, ceph_type: CephTypeView)
    ensures
        is_descriptor(spec_descriptor(name, ceph_type)),
{
    let text = spec_descriptor(name, ceph_type);
    let key = "name="@;
    let head = key + name + ",type="@ + ceph_type.variant.tag();
    assert(head.subrange(0, key.len() as int) =~= key);
    assert(key.is_prefix_of(text)) by {
        assert(head.is_prefix_of(text)) by {
            lemma_written_behind_head(name, ceph_type);
        }
        assert(text.subrange(0, key.len() as int) =~= head.subrange(0, key.len() as int));
    }
    assert(stands_at(text, key, 0));
}

/// A descriptor starts with the name and the tag of its parameter.
proof fn lemma_written_behind_head(name: Seq<char>, ceph_type: CephTypeView)
    ensures
        ("name="@ + name + ",type="@ + ceph_type.variant.tag()).is_prefix_of(
            spec_descriptor(name, ceph_type),
        ),
{
    let head = "name="@ + name + ",type="@ + ceph_type.variant.tag();
    let text = spec_descriptor(name, ceph_type);
    assert(text.len() >= head.len());
    assert(text.subrange(0, head.len() as int) =~= head);
}

/// Appends the range that the bounds make to `base`.
fn with_range(base: String, min: &Option<String>, max: &Option<String>) -> (r: String)
    ensures
        r@ == spec_with_range(base@, min.deep_view(), max.deep_view()),
{
    let mut out = base;
    if let Some(m) = min {
        push_str(&mut out, ",range=");
        push_str(&mut out, m.as_str());
    }
    if let Some(m) = max {
        if min.is_some() {
            push_str(&mut out, "|");
        } else {
            push_str(&mut out, ",|");
        }
        push_str(&mut out, m.as_str());
    }
    out
}

/// Appends `,req=false` to `base` for a parameter that may be left out.
fn with_req(base: String, req: bool) -> (r: String)
    ensures
        r@ == spec_with_req(base@, req),
{
    let mut out = base;
    if !req {
        push_str(&mut out, ",req=false");
    }
    out
}

impl CephEnum {
    /// The type tag of the kind.
    pub fn tag(&self) -> (r: String)
        ensures
            r@ == self.deep_view().tag(),
    {
        match self {
            CephEnum::CephInt { .. } => "CephInt".to_owned(),
            CephEnum::CephFloat { .. } => "CephFloat".to_owned(),
            CephEnum::CephString { .. } => "CephString".to_owned(),
            CephEnum::CephSocketpath => "CephSocketpath".to_owned(),
            CephEnum::CephIPAddr => "CephIPAddr".to_owned(),
            CephEnum::CephEntityAddr => "CephEntityAddr".to_owned(),
            CephEnum::CephPoolname { .. } => "CephPoolname".to_owned(),
            CephEnum::CephObjectname => "CephObjectname".to_owned(),
            CephEnum::CephPgid => "CephPgid".to_owned(),
            CephEnum::CephName => "CephName".to_owned(),
            CephEnum::CephOsdName => "CephOsdName".to_owned(),
            CephEnum::CephChoices { .. } => "CephChoices".to_owned(),
            CephEnum::CephFilepath => "CephFilepath".to_owned(),
            CephEnum::CephFragment => "CephFragment".to_owned(),
            CephEnum::CephUUID => "CephUUID".to_owned(),
            CephEnum::CephPrefix => "CephPrefix".to_owned(),
            CephEnum::Unknown => "Unknown".to_owned(),
        }
    }
}

impl CephType {
    /// Writes the descriptor of a parameter of this type with the name
    /// `name`.
    pub fn descriptor(&self, name: &str) -> (r: String)
        ensures
            r@ == spec_descriptor(name@, self.deep_view()),
    {
        let mut head = "name=".to_owned();
        push_str(&mut head, name);
        push_str(&mut head, ",type=");
        push_str(&mut head, self.variant.tag().as_str());
        match &self.variant {
            CephEnum::CephInt { min, max } => with_req(
                with_range(head, &number_text(min), &number_text(max)),
                self.req,
            ),
            CephEnum::CephFloat { min, max } => with_req(with_range(head, min, max), self.req),
            CephEnum::CephString { goodchars, allowed_repeats } => {
                if let AllowedRepeats::Many = allowed_repeats {
                    push_str(&mut head, ",n=N");
                }
                if let Some(g) = goodchars {
                    push_str(&mut head, ",goodchars=[");
                    push_str(&mut head, g.as_str());
                    push_str(&mut head, "]");
                }
                with_req(head, self.req)
            },
            CephEnum::CephPoolname { allowed_repeats } => match allowed_repeats {
                None => {
                    if self.req {
                        push_str(&mut head, ",req=true");
                    } else {
                        push_str(&mut head, ",req=false");
                    }
                    head
                },
                Some(AllowedRepeats::Many) => {
                    push_str(&mut head, ",n=N");
                    with_req(head, self.req)
                },
                Some(AllowedRepeats::One) => {
                    if !self.req {
                        push_str(&mut head, ",n=1,req=false");
                    }
                    head
                },
            },
            CephEnum::CephChoices { choices, allowed_repeats } => {
                push_str(&mut head, ",strings=");
                push_str(&mut head, join(choices, '|').as_str());
                push_str(&mut head, ",");
                if let AllowedRepeats::Many = allowed_repeats {
                    push_str(&mut head, "n=N");
                    with_req(head, self.req)
                } else {
                    if !self.req {
                        push_str(&mut head, "req=false");
                    }
                    head
                }
            },
            CephEnum::Unknown => head,
            _ => with_req(head, self.req),
        }
    }
}

impl Signature {
    /// Writes the signature back as text: its prefix, and then the
    /// descriptors of its parameters, each behind a space.
    pub fn rendering(&self) -> (r: String)
        ensures
            r@ == self.deep_view().rendering(),
    {
        let mut descriptors = String::new();
        let mut i: usize = 0;
        while i < self.parameters.len()
            invariant
                0 <= i <= self.parameters@.len(),
                descriptors@ == spec_descriptors(self.parameters.deep_view().take(i as int)),
            decreases self.parameters@.len() - i,
        {
            proof {
                assert(self.parameters.deep_view().take(i + 1).drop_last()
                    =~= self.parameters.deep_view().take(i as int));
            }
            let text = self.parameters[i].1.descriptor(self.parameters[i].0.as_str());
            push_str(&mut descriptors, " ");
            push_str(&mut descriptors, text.as_str());
            i += 1;
        }
        proof {
            assert(self.parameters.deep_view().take(self.parameters@.len() as int)
                =~= self.parameters.deep_view());
        }
        let mut out = self.prefix.as_str().to_owned();
        push_str(&mut out, descriptors.as_str());
        out
    }
}

} // verus!
