//! What a parser leaves unread is an end piece of what it was given: input
//! is read from the front, in order, and never twice.

use crate::attrs::{
    spec_allowed, spec_allowed_repeats, spec_choices, spec_f32_max, spec_f32_max_range,
    spec_f32_min_range, spec_good_chars, spec_one_or_more, spec_parse_good_chars,
    spec_parse_last_name, spec_parse_name, spec_sign, spec_take_number,
    spec_parse_req, spec_parse_type, spec_req, spec_trailing, spec_u32_max, spec_u32_max_range,
    spec_u32_min_range,
};
use crate::bytes::{
    first_occurrence, is_first_occurrence, lemma_run_len, lit, spec_eof, spec_rest, spec_tag,
    spec_take_until, spec_take_until_and_consume, spec_take_while, spec_take_while1, ByteClass,
    Outcome,
};
use crate::command::{
    spec_availability, spec_blank, spec_blanks, spec_command, spec_command_body, spec_commands,
    spec_comment_block, spec_comment_one_line, spec_eol, spec_flag, spec_flags, spec_module,
    spec_more_flags, spec_opening, spec_optional_flags, spec_permissions,
    spec_quoted_avail_string, spec_quoted_string, spec_step,
};
use crate::param::{
    plain_kind, spec_ceph_type, spec_choice, spec_closing, spec_float, spec_int, spec_name_first,
    spec_param_map, spec_poolname, spec_string, spec_type_first,
};
use crate::types::CephEnumView;
use vstd::prelude::*;

verus! {

/// Whether `rest` is an end piece of `s`.
pub open spec fn leaves(s: Seq<u8>, rest: Seq<u8>) -> bool {
    rest.len() <= s.len() && rest == s.skip(s.len() - rest.len())
}

/// Whether the outcome `r` of a parser on the input `s`, where it is a
/// success, leaves an end piece of `s`.
pub open spec fn advances<V>(s: Seq<u8>, r: Outcome<V>) -> bool {
    r matches Ok((rest, _)) ==> leaves(s, rest)
}

/// An end piece of an end piece is an end piece.
broadcast proof fn lemma_leaves_trans(s: Seq<u8>, a: Seq<u8>, b: Seq<u8>)
    requires
        #[trigger] leaves(s, a),
        #[trigger] leaves(a, b),
    ensures
        leaves(s, b),
{
    assert(b =~= s.skip(s.len() - b.len()));
}

/// Every text is an end piece of itself.
broadcast proof fn lemma_leaves_all(s: Seq<u8>)
    ensures
        #[trigger] leaves(s, s),
{
    assert(s =~= s.skip(0));
}

/// What [`spec_tag`] leaves is an end piece of its input.
broadcast proof fn lemma_tag_advances(s: Seq<u8>, t: Seq<u8>)
    ensures
        advances(s, #[trigger] spec_tag(s, t)),
        spec_tag(s, t) matches Ok((rest, _)) ==> rest.len() + t.len() == s.len(),
{
}

/// What [`spec_take_while`] leaves is an end piece of its input.
broadcast proof fn lemma_take_while_advances(s: Seq<u8>, class: ByteClass)
    ensures
        advances(s, #[trigger] spec_take_while(s, class)),
{
    lemma_run_len(s, class);
}

/// What [`spec_take_while1`] leaves is an end piece of its input.
broadcast proof fn lemma_take_while1_advances(s: Seq<u8>, class: ByteClass)
    ensures
        advances(s, #[trigger] spec_take_while1(s, class)),
        spec_take_while1(s, class) matches Ok((rest, _)) ==> rest.len() < s.len(),
{
    lemma_run_len(s, class);
}

/// What [`spec_take_until`] leaves is an end piece of its input.
broadcast proof fn lemma_take_until_advances(s: Seq<u8>, pat: Seq<u8>)
    ensures
        advances(s, #[trigger] spec_take_until(s, pat)),
{
    if let Some(i) = first_occurrence(s, pat) {
        assert(is_first_occurrence(s, pat, i));
    }
}

/// What [`spec_take_until_and_consume`] leaves is an end piece of its input.
broadcast proof fn lemma_take_until_and_consume_advances(s: Seq<u8>, pat: Seq<u8>)
    ensures
        advances(s, #[trigger] spec_take_until_and_consume(s, pat)),
        spec_take_until_and_consume(s, pat) matches Ok((rest, _)) ==> rest.len() + pat.len()
            <= s.len(),
{
    if let Some(i) = first_occurrence(s, pat) {
        assert(is_first_occurrence(s, pat, i));
    }
}

/// What [`spec_eof`] leaves is an end piece of its input.
broadcast proof fn lemma_eof_advances(s: Seq<u8>)
    ensures
        advances(s, #[trigger] spec_eof(s)),
{
    lemma_leaves_all(s);
}

/// What [`spec_rest`] leaves is an end piece of its input.
broadcast proof fn lemma_rest_advances(s: Seq<u8>)
    ensures
        advances(s, #[trigger] spec_rest(s)),
{
    assert(Seq::<u8>::empty() =~= s.skip(s.len() as int));
}

/// What [`spec_trailing`] leaves is an end piece of its input.
broadcast proof fn lemma_trailing_leaves(s: Seq<u8>)
    ensures
        leaves(s, #[trigger] spec_trailing(s)),
{
    lemma_leaves_all(s);
}

/// What holds of the scanning primitives.
broadcast group group_scanning {
    lemma_leaves_trans,
    lemma_leaves_all,
    lemma_tag_advances,
    lemma_take_while_advances,
    lemma_take_while1_advances,
    lemma_take_until_advances,
    lemma_take_until_and_consume_advances,
    lemma_eof_advances,
    lemma_rest_advances,
    lemma_trailing_leaves,
}

/// What [`spec_parse_req`] leaves is an end piece of its input.
broadcast proof fn lemma_parse_req_advances(s: Seq<u8>)
    ensures
        advances(s, #[trigger] spec_parse_req(s)),
{
    broadcast use group_scanning;

}

/// What [`spec_req`] leaves is an end piece of its input.
broadcast proof fn lemma_req_advances(s: Seq<u8>)
    ensures
        advances(s, #[trigger] spec_req(s)),
{
    broadcast use group_scanning;

    lemma_parse_req_advances(s);
}

/// What [`spec_parse_good_chars`] leaves is an end piece of its input.
broadcast proof fn lemma_parse_good_chars_advances(s: Seq<u8>)
    ensures
        advances(s, #[trigger] spec_parse_good_chars(s)),
{
    broadcast use group_scanning;

}

/// What [`spec_good_chars`] leaves is an end piece of its input.
broadcast proof fn lemma_good_chars_advances(s: Seq<u8>)
    ensures
        advances(s, #[trigger] spec_good_chars(s)),
{
    broadcast use group_scanning;

    lemma_parse_good_chars_advances(s);
}

/// What [`spec_allowed_repeats`] leaves is an end piece of its input.
broadcast proof fn lemma_allowed_repeats_advances(s: Seq<u8>)
    ensures
        advances(s, #[trigger] spec_allowed_repeats(s)),
{
    broadcast use group_scanning;

}

/// What [`spec_allowed`] leaves is an end piece of its input.
broadcast proof fn lemma_allowed_advances(s: Seq<u8>)
    ensures
        advances(s, #[trigger] spec_allowed(s)),
{
    broadcast use group_scanning;

    lemma_allowed_repeats_advances(s);
}

/// What [`spec_one_or_more`] leaves is an end piece of its input.
broadcast proof fn lemma_one_or_more_advances(s: Seq<u8>)
    ensures
        advances(s, #[trigger] spec_one_or_more(s)),
{
    broadcast use group_scanning;

    lemma_allowed_repeats_advances(s);
}

/// What [`spec_u32_min_range`] leaves is an end piece of its input.
broadcast proof fn lemma_u32_min_range_advances(s: Seq<u8>)
    ensures
        advances(s, #[trigger] spec_u32_min_range(s)),
{
    broadcast use group_scanning;

}

/// What [`spec_u32_max`] leaves is an end piece of its input.
broadcast proof fn lemma_u32_max_advances(s: Seq<u8>)
    ensures
        advances(s, #[trigger] spec_u32_max(s)),
{
    broadcast use group_scanning;

}

/// What [`spec_u32_max_range`] leaves is an end piece of its input.
broadcast proof fn lemma_u32_max_range_advances(s: Seq<u8>)
    ensures
        advances(s, #[trigger] spec_u32_max_range(s)),
{
    broadcast use group_scanning;

    lemma_u32_max_advances(s);
}

/// What [`spec_take_number`] leaves is an end piece of its input.
broadcast proof fn lemma_take_number_advances(s: Seq<u8>)
    ensures
        advances(s, #[trigger] spec_take_number(s)),
{
    lemma_run_len(s.skip(spec_sign(s)), ByteClass::Decimal);
}

/// What [`spec_f32_min_range`] leaves is an end piece of its input.
broadcast proof fn lemma_f32_min_range_advances(s: Seq<u8>)
    ensures
        advances(s, #[trigger] spec_f32_min_range(s)),
{
    broadcast use group_scanning, lemma_take_number_advances;

}

/// What [`spec_f32_max`] leaves is an end piece of its input.
broadcast proof fn lemma_f32_max_advances(s: Seq<u8>)
    ensures
        advances(s, #[trigger] spec_f32_max(s)),
{
    broadcast use group_scanning, lemma_take_number_advances;

}

/// What [`spec_f32_max_range`] leaves is an end piece of its input.
broadcast proof fn lemma_f32_max_range_advances(s: Seq<u8>)
    ensures
        advances(s, #[trigger] spec_f32_max_range(s)),
{
    broadcast use group_scanning;

    lemma_f32_max_advances(s);
}

/// What [`spec_choices`] leaves is an end piece of its input.
broadcast proof fn lemma_choices_advances(s: Seq<u8>)
    ensures
        advances(s, #[trigger] spec_choices(s)),
{
    broadcast use group_scanning;

}

/// What [`spec_parse_name`] leaves is an end piece of its input.
broadcast proof fn lemma_parse_name_advances(s: Seq<u8>)
    ensures
        advances(s, #[trigger] spec_parse_name(s)),
{
    broadcast use group_scanning;

}

/// What [`spec_parse_last_name`] leaves is an end piece of its input.
broadcast proof fn lemma_parse_last_name_advances(s: Seq<u8>)
    ensures
        advances(s, #[trigger] spec_parse_last_name(s)),
{
    broadcast use group_scanning;

}

/// What [`spec_parse_type`] leaves is an end piece of its input.
broadcast proof fn lemma_parse_type_advances(s: Seq<u8>)
    ensures
        advances(s, #[trigger] spec_parse_type(s)),
{
    broadcast use group_scanning;

}

/// What holds of the attribute grammars.
broadcast group group_attributes {
    lemma_req_advances,
    lemma_good_chars_advances,
    lemma_allowed_advances,
    lemma_one_or_more_advances,
    lemma_u32_min_range_advances,
    lemma_u32_max_range_advances,
    lemma_f32_min_range_advances,
    lemma_f32_max_range_advances,
    lemma_choices_advances,
    lemma_parse_name_advances,
    lemma_parse_last_name_advances,
    lemma_parse_type_advances,
}

/// What [`spec_closing`] leaves is an end piece of its input.
broadcast proof fn lemma_closing_advances(s: Seq<u8>, variant: CephEnumView)
    ensures
        advances(s, #[trigger] spec_closing(s, variant)),
{
    broadcast use group_attributes;

}

/// What [`spec_int`] leaves is an end piece of its input.
broadcast proof fn lemma_int_advances(s: Seq<u8>)
    ensures
        advances(s, #[trigger] spec_int(s)),
{
    broadcast use group_scanning, group_attributes, lemma_closing_advances;

}

/// What [`spec_float`] leaves is an end piece of its input.
broadcast proof fn lemma_float_advances(s: Seq<u8>)
    ensures
        advances(s, #[trigger] spec_float(s)),
{
    broadcast use group_scanning, group_attributes, lemma_closing_advances;

}

/// What [`spec_string`] leaves is an end piece of its input.
broadcast proof fn lemma_string_advances(s: Seq<u8>)
    ensures
        advances(s, #[trigger] spec_string(s)),
{
    broadcast use group_scanning, group_attributes, lemma_closing_advances;

}

/// What [`spec_poolname`] leaves is an end piece of its input.
broadcast proof fn lemma_poolname_advances(s: Seq<u8>)
    ensures
        advances(s, #[trigger] spec_poolname(s)),
{
    broadcast use group_scanning, group_attributes, lemma_closing_advances;

}

/// What [`spec_choice`] leaves is an end piece of its input.
broadcast proof fn lemma_choice_advances(s: Seq<u8>)
    ensures
        advances(s, #[trigger] spec_choice(s)),
{
    broadcast use group_scanning, group_attributes, lemma_closing_advances;

}

/// What [`spec_ceph_type`] leaves is an end piece of its input.
broadcast proof fn lemma_ceph_type_advances(s: Seq<u8>, ceph_type: Seq<char>)
    ensures
        advances(s, #[trigger] spec_ceph_type(s, ceph_type)),
{
    lemma_int_advances(s);
    lemma_float_advances(s);
    lemma_string_advances(s);
    lemma_poolname_advances(s);
    lemma_choice_advances(s);
    if let Some(variant) = plain_kind(ceph_type) {
        lemma_closing_advances(s, variant);
    }
    lemma_leaves_all(s);
}

/// What [`spec_name_first`] leaves is an end piece of its input.
broadcast proof fn lemma_name_first_advances(s: Seq<u8>)
    ensures
        advances(s, #[trigger] spec_name_first(s)),
{
    broadcast use group_scanning, group_attributes, lemma_ceph_type_advances;

}

/// What [`spec_type_first`] leaves is an end piece of its input.
broadcast proof fn lemma_type_first_advances(s: Seq<u8>)
    ensures
        advances(s, #[trigger] spec_type_first(s)),
{
    broadcast use group_scanning, group_attributes, lemma_ceph_type_advances;

}

/// What the reading of a parameter descriptor leaves is an end piece of the
/// descriptor.
pub proof fn law_param_map_advances(s: Seq<u8>)
    ensures
        advances(s, spec_param_map(s)),
{
    lemma_name_first_advances(s);
    lemma_type_first_advances(s);
}

/// What [`spec_eol`] leaves is an end piece of its input.
broadcast proof fn lemma_eol_advances(s: Seq<u8>)
    ensures
        advances(s, #[trigger] spec_eol(s)),
{
    broadcast use group_scanning;

}

/// What [`spec_comment_one_line`] leaves is an end piece of its input.
broadcast proof fn lemma_comment_one_line_advances(s: Seq<u8>)
    ensures
        advances(s, #[trigger] spec_comment_one_line(s)),
{
    broadcast use group_scanning, lemma_eol_advances;

}

/// What [`spec_comment_block`] leaves is an end piece of its input.
broadcast proof fn lemma_comment_block_advances(s: Seq<u8>)
    ensures
        advances(s, #[trigger] spec_comment_block(s)),
{
    broadcast use group_scanning;

}

/// What [`spec_blank`] leaves is an end piece of its input.
broadcast proof fn lemma_blank_leaves(s: Seq<u8>)
    ensures
        #[trigger] spec_blank(s) matches Some(rest) ==> leaves(s, rest),
{
    broadcast use
        group_scanning,
        lemma_comment_one_line_advances,
        lemma_comment_block_advances,
    ;

}

/// A piece of insignificant input is not empty.
pub proof fn lemma_blank_shrinks(s: Seq<u8>)
    ensures
        spec_blank(s) matches Some(rest) ==> rest.len() < s.len(),
{
    broadcast use
        group_scanning,
        lemma_comment_one_line_advances,
        lemma_comment_block_advances,
    ;

    reveal_strlit("//");
    reveal_strlit("#");
    reveal_strlit("/*");
    reveal_strlit("\\\n");
    vstd::string::is_ascii_spec_bytes("//");
    vstd::string::is_ascii_spec_bytes("#");
    vstd::string::is_ascii_spec_bytes("/*");
    vstd::string::is_ascii_spec_bytes("\\\n");
}

/// What [`spec_blanks`] leaves is an end piece of its input.
broadcast proof fn lemma_blanks_leaves(s: Seq<u8>)
    ensures
        leaves(s, #[trigger] spec_blanks(s)),
    decreases s.len(),
{
    broadcast use group_scanning, lemma_blank_leaves;

    lemma_blank_shrinks(s);
    if let Some(rest) = spec_blank(s) {
        lemma_blanks_leaves(rest);
    }
}

/// What [`spec_quoted_string`] leaves is an end piece of its input.
broadcast proof fn lemma_quoted_string_advances(s: Seq<u8>)
    ensures
        advances(s, #[trigger] spec_quoted_string(s)),
        spec_quoted_string(s) matches Ok((rest, _)) ==> rest.len() < s.len(),
{
    broadcast use group_scanning;

    reveal_strlit("\"");
    vstd::string::is_ascii_spec_bytes("\"");
}

/// What [`spec_quoted_avail_string`] leaves is an end piece of its input.
broadcast proof fn lemma_quoted_avail_string_advances(s: Seq<u8>)
    ensures
        advances(s, #[trigger] spec_quoted_avail_string(s)),
{
    broadcast use group_scanning;

}

/// What [`spec_module`] leaves is an end piece of its input.
broadcast proof fn lemma_module_advances(s: Seq<u8>)
    ensures
        advances(s, #[trigger] spec_module(s)),
{
    broadcast use lemma_quoted_string_advances;

}

/// What [`spec_permissions`] leaves is an end piece of its input.
broadcast proof fn lemma_permissions_advances(s: Seq<u8>)
    ensures
        advances(s, #[trigger] spec_permissions(s)),
{
    broadcast use lemma_quoted_string_advances;

}

/// What [`spec_availability`] leaves is an end piece of its input.
broadcast proof fn lemma_availability_advances(s: Seq<u8>)
    ensures
        advances(s, #[trigger] spec_availability(s)),
{
    broadcast use lemma_quoted_avail_string_advances;

}

/// What [`spec_flag`] leaves is an end piece of its input.
broadcast proof fn lemma_flag_advances(s: Seq<u8>)
    ensures
        advances(s, #[trigger] spec_flag(s)),
{
    broadcast use group_scanning;

}

/// A `|` and a flag are not empty.
pub proof fn lemma_next_flag_shrinks(s: Seq<u8>)
    ensures
        spec_tag(s, lit("|")) matches Ok((a, _)) ==> (spec_flag(a) matches Ok((b, _)) ==> b.len()
            < s.len()),
{
    broadcast use group_scanning, lemma_flag_advances;

    reveal_strlit("|");
    vstd::string::is_ascii_spec_bytes("|");
}

/// What [`spec_more_flags`] leaves is an end piece of its input.
broadcast proof fn lemma_more_flags_leaves(s: Seq<u8>)
    ensures
        leaves(s, (#[trigger] spec_more_flags(s)).0),
    decreases s.len(),
{
    broadcast use group_scanning, lemma_flag_advances;

    lemma_next_flag_shrinks(s);
    if let Ok((a, _)) = spec_tag(s, lit("|")) {
        if let Ok((b, _)) = spec_flag(a) {
            lemma_more_flags_leaves(b);
        }
    }
}

/// What [`spec_flags`] leaves is an end piece of its input.
broadcast proof fn lemma_flags_advances(s: Seq<u8>)
    ensures
        advances(s, #[trigger] spec_flags(s)),
{
    broadcast use group_scanning, lemma_blanks_leaves, lemma_flag_advances, lemma_more_flags_leaves;

}

/// What [`spec_optional_flags`] leaves is an end piece of its input.
broadcast proof fn lemma_optional_flags_advances(s: Seq<u8>)
    ensures
        advances(s, #[trigger] spec_optional_flags(s)),
{
    broadcast use group_scanning, lemma_flags_advances;

}

/// The opening of a command is not empty.
broadcast proof fn lemma_opening_advances(s: Seq<u8>)
    ensures
        advances(s, #[trigger] spec_opening(s)),
        spec_opening(s) matches Ok((rest, _)) ==> rest.len() < s.len(),
{
    broadcast use group_scanning;

    reveal_strlit("COMMAND(");
    reveal_strlit("COMMAND_WITH_FLAG(");
    vstd::string::is_ascii_spec_bytes("COMMAND(");
    vstd::string::is_ascii_spec_bytes("COMMAND_WITH_FLAG(");
}

/// What holds of the fields of a command.
broadcast group group_fields {
    lemma_blanks_leaves,
    lemma_quoted_string_advances,
    lemma_module_advances,
    lemma_permissions_advances,
    lemma_availability_advances,
    lemma_optional_flags_advances,
    lemma_opening_advances,
}

/// What [`spec_command_body`] leaves is an end piece of its input.
broadcast proof fn lemma_command_body_advances(s: Seq<u8>)
    ensures
        advances(s, #[trigger] spec_command_body(s)),
{
    broadcast use group_scanning, group_fields;

}

/// A command is read from the front of the input, and reading one takes
/// something away: what is left is an end piece of the input, and a shorter
/// one.
pub proof fn law_command_advances(s: Seq<u8>)
    ensures
        advances(s, spec_command(s)),
        spec_command(s) matches Ok((rest, _)) ==> rest.len() < s.len(),
{
    broadcast use group_scanning, group_fields, lemma_command_body_advances;

}

/// Every step through a document that finds a command takes something away
/// from the input: the reading of a document always comes to an end, and
/// never stops for want of progress.
pub proof fn law_step_advances(s: Seq<u8>)
    ensures
        advances(s, spec_step(s)),
        spec_step(s) matches Ok((rest, Some(_))) ==> rest.len() < s.len(),
{
    broadcast use group_scanning, group_fields, lemma_command_body_advances;

}

/// What the reading of a document leaves is an end piece of the document.
pub proof fn law_commands_advance(s: Seq<u8>)
    ensures
        advances(s, spec_commands(s)),
    decreases s.len(),
{
    broadcast use group_scanning;

    law_step_advances(s);
    if let Ok((rest, Some(_))) = spec_step(s) {
        law_commands_advance(rest);
    }
}

} // verus!
