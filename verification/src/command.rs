//! The framing grammar: insignificant input, quoted fields, flag lists,
//! commands, and the document made of them.

use crate::bytes::{
    eof, lit, model, multispace, not_line_ending, space, spec_eof, spec_tag,
    spec_take_until_and_consume, spec_take_while, spec_take_while1, spec_text, tag,
    take_until_and_consume, text, ByteClass, Failure, Outcome, Parsed,
};
use crate::signature::{dropped_words, signature_words, spec_signature};
use crate::suffix::{law_step_advances, lemma_blank_shrinks, lemma_next_flag_shrinks};
use crate::types::{
    Availability, Command, CommandView, Flag, Module, Permissions, Signature,
};
use vstd::prelude::*;

verus! {

/// The end of a line: a line feed, or a carriage return and a line feed, or
/// one of the two Unicode line separators.
pub open spec fn spec_eol(s: Seq<u8>) -> Outcome<()> {
    match spec_tag(s, lit("\n")) {
        Err(Failure::Error) => match spec_tag(s, lit("\r\n")) {
            Err(Failure::Error) => match spec_tag(s, lit("\u{2028}")) {
                Err(Failure::Error) => spec_tag(s, lit("\u{2029}")),
                other => other,
            },
            other => other,
        },
        other => other,
    }
}

/// A comment that runs to the end of its line: `//` or `#`, everything up to
/// the next carriage return or line feed, and then the end of the line or of
/// the input.
pub open spec fn spec_comment_one_line(s: Seq<u8>) -> Outcome<()> {
    let marker = match spec_tag(s, lit("//")) {
        Err(Failure::Error) => spec_tag(s, lit("#")),
        other => other,
    };
    match marker {
        Err(e) => Err(e),
        Ok((a, _)) => match spec_take_while(a, ByteClass::InLine) {
            Err(e) => Err(e),
            Ok((b, _)) => match spec_eof(b) {
                Ok((c, _)) => Ok((c, ())),
                Err(_) => spec_eol(b),
            },
        },
    }
}

/// A block comment: `/*`, and everything up to and including the next `*/`.
/// One that is not closed is no comment.
pub open spec fn spec_comment_block(s: Seq<u8>) -> Outcome<()> {
    match spec_tag(s, lit("/*")) {
        Err(e) => Err(e),
        Ok((a, _)) => match spec_take_until_and_consume(a, lit("*/")) {
            Err(e) => Err(e),
            Ok((b, _)) => Ok((b, ())),
        },
    }
}

/// What is left after one piece of insignificant input: a run of spaces,
/// tabs, carriage returns and line feeds, a one-line comment, a block comment,
/// or a backslash followed by a line feed. None where the input starts with no
/// such piece.
pub open spec fn spec_blank(s: Seq<u8>) -> Option<Seq<u8>> {
    if let Ok((rest, _)) = spec_take_while1(s, ByteClass::Space) {
        Some(rest)
    } else if let Ok((rest, _)) = spec_comment_one_line(s) {
        Some(rest)
    } else if let Ok((rest, _)) = spec_comment_block(s) {
        Some(rest)
    } else if let Ok((rest, _)) = spec_tag(s, lit("\\\n")) {
        Some(rest)
    } else {
        None
    }
}

/// What is left after all the insignificant input at the head of `s`.
pub open spec fn spec_blanks(s: Seq<u8>) -> Seq<u8>
    decreases s.len(),
    via spec_blanks_ends
{
    match spec_blank(s) {
        Some(rest) => spec_blanks(rest),
        None => s,
    }
}

#[via_fn]
proof fn spec_blanks_ends(s: Seq<u8>) {
    lemma_blank_shrinks(s);
}

/// Reads the end of a line.
fn eol<'a>(input: &'a [u8]) -> (r: Parsed<'a, ()>)
    ensures
        model(r) == spec_eol(input@),
{
    match tag(input, "\n") {
        Err(Failure::Error) => match tag(input, "\r\n") {
            Err(Failure::Error) => match tag(input, "\u{2028}") {
                Err(Failure::Error) => tag(input, "\u{2029}"),
                other => other,
            },
            other => other,
        },
        other => other,
    }
}

/// Reads a comment that runs to the end of its line.
fn comment_one_line<'a>(input: &'a [u8]) -> (r: Parsed<'a, ()>)
    ensures
        model(r) == spec_comment_one_line(input@),
{
    let marker = match tag(input, "//") {
        Err(Failure::Error) => tag(input, "#"),
        other => other,
    };
    let (a, _) = marker?;
    let (b, _) = not_line_ending(a)?;
    match eof(b) {
        Ok((c, _)) => Ok((c, ())),
        Err(_) => eol(b),
    }
}

/// Reads a block comment.
fn comment_block<'a>(input: &'a [u8]) -> (r: Parsed<'a, ()>)
    ensures
        model(r) == spec_comment_block(input@),
{
    let (a, _) = tag(input, "/*")?;
    let (b, _) = take_until_and_consume(a, "*/")?;
    Ok((b, ()))
}

/// Reads one piece of insignificant input.
fn blank<'a>(input: &'a [u8]) -> (r: Option<&'a [u8]>)
    ensures
        match r {
            Some(rest) => spec_blank(input@) == Some(rest@),
            None => spec_blank(input@) is None,
        },
{
    if let Ok((rest, _)) = multispace(input) {
        Some(rest)
    } else if let Ok((rest, _)) = comment_one_line(input) {
        Some(rest)
    } else if let Ok((rest, _)) = comment_block(input) {
        Some(rest)
    } else if let Ok((rest, _)) = tag(input, "\\\n") {
        Some(rest)
    } else {
        None
    }
}

/// Skips the insignificant input at the head of `input`: white space,
/// comments and line continuations, in any order and number. Never fails;
/// where nothing matches, nothing is read.
pub fn blanks<'a>(input: &'a [u8]) -> (r: Parsed<'a, ()>)
    ensures
        model(r) == Ok::<(Seq<u8>, ()), Failure>((spec_blanks(input@), ())),
{
    let mut cur = input;
    loop
        invariant
            spec_blanks(cur@) == spec_blanks(input@),
        ensures
            cur@ == spec_blanks(input@),
        decreases cur@.len(),
    {
        match blank(cur) {
            Some(rest) => {
                proof {
                    lemma_blank_shrinks(cur@);
                }
                cur = rest;
            },
            None => {
                break ;
            },
        }
    }
    Ok((cur, ()))
}

/// A quoted field that a comma follows: everything from the first `"` to the
/// next `",`, without the quotes. What stands before the first quote is
/// passed over, and the closing quote and the comma are read.
pub open spec fn spec_quoted_string(s: Seq<u8>) -> Outcome<Seq<char>> {
    match spec_take_until_and_consume(s, lit("\"")) {
        Err(e) => Err(e),
        Ok((a, _)) => match spec_take_until_and_consume(a, lit("\",")) {
            Err(e) => Err(e),
            Ok((b, inner)) => match spec_text(inner) {
                Err(e) => Err(e),
                Ok(t) => Ok((b, t)),
            },
        },
    }
}

/// The last quoted field: everything from the first `"` to the next `"`.
/// What stands before the first quote is passed over, the closing quote is
/// read, and what follows it is left.
pub open spec fn spec_quoted_avail_string(s: Seq<u8>) -> Outcome<Seq<char>> {
    let start = match spec_take_while1(s, ByteClass::Blank) {
        Ok((a, _)) => a,
        Err(_) => s,
    };
    match spec_take_until_and_consume(start, lit("\"")) {
        Err(e) => Err(e),
        Ok((a, _)) => match spec_take_until_and_consume(a, lit("\"")) {
            Err(e) => Err(e),
            Ok((b, inner)) => match spec_text(inner) {
                Err(e) => Err(e),
                Ok(t) => Ok((b, t)),
            },
        },
    }
}

/// Reads a quoted field that a comma follows.
pub fn quoted_string<'a>(input: &'a [u8]) -> (r: Parsed<'a, &'a str>)
    ensures
        model(r) == spec_quoted_string(input@),
{
    let (a, _) = take_until_and_consume(input, "\"")?;
    let (b, inner) = take_until_and_consume(a, "\",")?;
    let t = text(inner)?;
    Ok((b, t))
}

/// Reads the last quoted field of a command.
pub fn quoted_avail_string<'a>(input: &'a [u8]) -> (r: Parsed<'a, &'a str>)
    ensures
        model(r) == spec_quoted_avail_string(input@),
{
    let start = match space(input) {
        Ok((a, _)) => a,
        Err(_) => input,
    };
    let (a, _) = take_until_and_consume(start, "\"")?;
    let (b, inner) = take_until_and_consume(a, "\"")?;
    let t = text(inner)?;
    Ok((b, t))
}

/// The module field.
pub open spec fn spec_module(s: Seq<u8>) -> Outcome<Module> {
    match spec_quoted_string(s) {
        Err(e) => Err(e),
        Ok((rest, t)) => Ok((rest, Module::of(t))),
    }
}

/// The permissions field.
pub open spec fn spec_permissions(s: Seq<u8>) -> Outcome<Permissions> {
    match spec_quoted_string(s) {
        Err(e) => Err(e),
        Ok((rest, t)) => Ok((rest, Permissions::of(t))),
    }
}

/// The availability field.
pub open spec fn spec_availability(s: Seq<u8>) -> Outcome<Availability> {
    match spec_quoted_avail_string(s) {
        Err(e) => Err(e),
        Ok((rest, t)) => Ok((rest, Availability::of(t))),
    }
}

/// Reads the module field.
pub fn module<'a>(input: &'a [u8]) -> (r: Parsed<'a, Module>)
    ensures
        model(r) == spec_module(input@),
{
    let (rest, t) = quoted_string(input)?;
    Ok((rest, Module::from_str(t)))
}

/// Reads the permissions field.
pub fn permissions<'a>(input: &'a [u8]) -> (r: Parsed<'a, Permissions>)
    ensures
        model(r) == spec_permissions(input@),
{
    let (rest, t) = quoted_string(input)?;
    Ok((rest, Permissions::from_str(t)))
}

/// Reads the availability field.
pub fn availability<'a>(input: &'a [u8]) -> (r: Parsed<'a, Availability>)
    ensures
        model(r) == spec_availability(input@),
{
    let (rest, t) = quoted_avail_string(input)?;
    Ok((rest, Availability::from_str(t)))
}

/// One flag: the bare word `NOFORWARD`, or `FLAG(`, a name, and the next
/// `)`. A name that is no flag name stands for no flag.
pub open spec fn spec_flag(s: Seq<u8>) -> Outcome<Flag> {
    match spec_tag(s, lit("NOFORWARD")) {
        Ok((rest, _)) => Ok((rest, Flag::NoForward)),
        Err(_) => match spec_tag(s, lit("FLAG(")) {
            Err(e) => Err(e),
            Ok((a, _)) => match spec_take_until_and_consume(a, lit(")")) {
                Err(e) => Err(e),
                Ok((b, name)) => match spec_text(name) {
                    Err(e) => Err(e),
                    Ok(t) => Ok((b, Flag::of(t))),
                },
            },
        },
    }
}

/// The flags that follow the first: each a `|` and a flag. The list ends
/// before the first `|` that no flag follows.
pub open spec fn spec_more_flags(s: Seq<u8>) -> (Seq<u8>, Seq<Flag>)
    decreases s.len(),
    via spec_more_flags_ends
{
    match spec_tag(s, lit("|")) {
        Ok((a, _)) => match spec_flag(a) {
            Ok((b, f)) => {
                let (rest, more) = spec_more_flags(b);
                (rest, seq![f] + more)
            },
            Err(_) => (s, Seq::empty()),
        },
        Err(_) => (s, Seq::empty()),
    }
}

#[via_fn]
proof fn spec_more_flags_ends(s: Seq<u8>) {
    lemma_next_flag_shrinks(s);
}

/// A flag list: a comma, insignificant input, and one flag or more,
/// separated by `|`. A comma that no flag follows is a failure.
pub open spec fn spec_flags(s: Seq<u8>) -> Outcome<Seq<Flag>> {
    match spec_tag(s, lit(",")) {
        Err(e) => Err(e),
        Ok((a, _)) => {
            let b = spec_blanks(a);
            match spec_flag(b) {
                Err(e) => Err(e),
                Ok((c, f)) => {
                    let (rest, more) = spec_more_flags(c);
                    Ok((rest, seq![f] + more))
                },
            }
        },
    }
}

/// Reads one flag.
pub fn flag<'a>(input: &'a [u8]) -> (r: Parsed<'a, Flag>)
    ensures
        model(r) == spec_flag(input@),
{
    match tag(input, "NOFORWARD") {
        Ok((rest, _)) => Ok((rest, Flag::NoForward)),
        Err(_) => {
            let (a, _) = tag(input, "FLAG(")?;
            let (b, name) = take_until_and_consume(a, ")")?;
            let t = text(name)?;
            Ok((b, Flag::from_str(t)))
        },
    }
}

/// Reads a flag list.
pub fn flags<'a>(input: &'a [u8]) -> (r: Parsed<'a, Vec<Flag>>)
    ensures
        model(r) == spec_flags(input@),
{
    let (a, _) = tag(input, ",")?;
    let (b, _) = blanks(a)?;
    let mut res: Vec<Flag> = Vec::new();
    let (c, first) = flag(b)?;
    res.push(first);
    let mut cur = c;
    assert(res.deep_view() =~= seq![first]);
    assert(res.deep_view() + spec_more_flags(cur@).1 =~= seq![first] + spec_more_flags(c@).1);
    loop
        invariant
            spec_more_flags(c@).0 == spec_more_flags(cur@).0,
            seq![first] + spec_more_flags(c@).1 == res.deep_view() + spec_more_flags(cur@).1,
        ensures
            cur@ == spec_more_flags(c@).0,
            res.deep_view() == seq![first] + spec_more_flags(c@).1,
        decreases cur@.len(),
    {
        let ghost before = res.deep_view();
        match tag(cur, "|") {
            Ok((x, _)) => match flag(x) {
                Ok((y, f)) => {
                    res.push(f);
                    proof {
                        lemma_next_flag_shrinks(cur@);
                        assert(res.deep_view() =~= before.push(f));
                        assert(res.deep_view() + spec_more_flags(y@).1 =~= before + (seq![f]
                            + spec_more_flags(y@).1));
                    }
                    cur = y;
                },
                Err(_) => {
                    assert(before + Seq::<Flag>::empty() =~= before);
                    break ;
                },
            },
            Err(_) => {
                assert(before + Seq::<Flag>::empty() =~= before);
                break ;
            },
        }
    }
    Ok((cur, res))
}

/// The opening of a command: `COMMAND(` or `COMMAND_WITH_FLAG(`.
pub open spec fn spec_opening(s: Seq<u8>) -> Outcome<()> {
    match spec_tag(s, lit("COMMAND(")) {
        Err(Failure::Error) => spec_tag(s, lit("COMMAND_WITH_FLAG(")),
        other => other,
    }
}

/// The optional flag list of a command: none, with nothing read, where the
/// flag grammar does not match.
pub open spec fn spec_optional_flags(s: Seq<u8>) -> Outcome<Option<Seq<Flag>>> {
    match spec_flags(s) {
        Ok((rest, found)) => Ok((rest, Some(found))),
        Err(Failure::Error) => Ok((s, None)),
        Err(Failure::Incomplete) => Err(Failure::Incomplete),
    }
}

/// What follows the opening of a command: the signature and the help text,
/// insignificant input, the module, the permissions and the availability, an
/// optional flag list, the closing `)`, and insignificant input.
pub open spec fn spec_command_body(s: Seq<u8>) -> Outcome<CommandView> {
    match spec_quoted_string(s) {
        Err(e) => Err(e),
        Ok((a, signature)) => match spec_quoted_string(a) {
            Err(e) => Err(e),
            Ok((b, helpstring)) => match spec_module(spec_blanks(b)) {
                Err(e) => Err(e),
                Ok((c, module_name)) => match spec_permissions(c) {
                    Err(e) => Err(e),
                    Ok((d, permissions)) => match spec_availability(d) {
                        Err(e) => Err(e),
                        Ok((f, availability)) => match spec_optional_flags(f) {
                            Err(e) => Err(e),
                            Ok((g, flags)) => match spec_tag(g, lit(")")) {
                                Err(e) => Err(e),
                                Ok((h, _)) => Ok(
                                    (
                                        spec_blanks(h),
                                        CommandView {
                                            signature: spec_signature(signature),
                                            helpstring,
                                            module_name,
                                            permissions,
                                            availability,
                                            flags,
                                        },
                                    ),
                                ),
                            },
                        },
                    },
                },
            },
        },
    }
}

/// One command: insignificant input, the opening, and the body.
pub open spec fn spec_command(s: Seq<u8>) -> Outcome<CommandView> {
    match spec_opening(spec_blanks(s)) {
        Err(e) => Err(e),
        Ok((a, _)) => spec_command_body(a),
    }
}

/// Reads the opening of a command.
fn opening<'a>(input: &'a [u8]) -> (r: Parsed<'a, ()>)
    ensures
        model(r) == spec_opening(input@),
{
    match tag(input, "COMMAND(") {
        Err(Failure::Error) => tag(input, "COMMAND_WITH_FLAG("),
        other => other,
    }
}

/// Reads the optional flag list of a command.
fn optional_flags<'a>(input: &'a [u8]) -> (r: Parsed<'a, Option<Vec<Flag>>>)
    ensures
        model(r) == spec_optional_flags(input@),
{
    match flags(input) {
        Ok((rest, found)) => Ok((rest, Some(found))),
        Err(Failure::Error) => Ok((input, None)),
        Err(Failure::Incomplete) => Err(Failure::Incomplete),
    }
}

/// Reads what follows the opening of a command.
fn command_body<'a>(input: &'a [u8]) -> (r: Parsed<'a, Command>)
    ensures
        model(r) == spec_command_body(input@),
        r matches Ok((_, c)) ==> c.signature.wf(),
{
    let (a, signature) = quoted_string(input)?;
    let (b, helpstring) = quoted_string(a)?;
    let (b, _) = blanks(b)?;
    let (c, module_name) = module(b)?;
    let (d, permissions) = permissions(c)?;
    let (f, availability) = availability(d)?;
    let (g, flags) = optional_flags(f)?;
    let (h, _) = tag(g, ")")?;
    let (rest, _) = blanks(h)?;
    Ok(
        (
            rest,
            Command {
                signature: Signature::parse(signature),
                helpstring: helpstring.to_owned(),
                module_name,
                permissions,
                availability,
                flags,
            },
        ),
    )
}

impl Command {
    /// Reads one command, with the insignificant input before and after it.
    /// Any missing piece fails the whole command: no partial command is
    /// produced.
    pub fn parse<'a>(input: &'a [u8]) -> (r: Parsed<'a, Command>)
        ensures
            model(r) == spec_command(input@),
            r matches Ok((_, c)) ==> c.signature.wf(),
    {
        let (start, _) = blanks(input)?;
        let (a, _) = opening(start)?;
        command_body(a)
    }
}

/// The outcome `r` with `found` put before what it found itself.
pub open spec fn after<V>(found: Seq<V>, r: Outcome<Seq<V>>) -> Outcome<Seq<V>> {
    match r {
        Ok((rest, more)) => Ok((rest, found + more)),
        Err(e) => Err(e),
    }
}

/// One step through a document: insignificant input, and then either a
/// command, or, where no opening follows, nothing.
pub open spec fn spec_step(s: Seq<u8>) -> Outcome<Option<CommandView>> {
    let start = spec_blanks(s);
    if start.len() == 0 {
        Ok((start, None))
    } else {
        match spec_opening(start) {
            Err(Failure::Error) => Ok((start, None)),
            Err(Failure::Incomplete) => Err(Failure::Incomplete),
            Ok((a, _)) => match spec_command_body(a) {
                Err(e) => Err(e),
                Ok((rest, c)) => Ok((rest, Some(c))),
            },
        }
    }
}

/// A document: insignificant input, then commands, each followed by
/// insignificant input, as long as an opening follows. The commands come in
/// the order of the input. What follows the last command is left unread and is
/// no failure, as long as it does not start with an opening or with the
/// beginning of one cut off by the end of the input; a command that has its
/// opening and fails after it fails the whole document, with nothing
/// returned.
pub open spec fn spec_commands(s: Seq<u8>) -> Outcome<Seq<CommandView>>
    decreases s.len(),
    via spec_commands_ends
{
    match spec_step(s) {
        Err(e) => Err(e),
        Ok((rest, None)) => Ok((rest, Seq::empty())),
        Ok((rest, Some(c))) => after(seq![c], spec_commands(rest)),
    }
}

#[via_fn]
proof fn spec_commands_ends(s: Seq<u8>) {
    law_step_advances(s);
}

/// Takes one step through a document.
fn step<'a>(input: &'a [u8]) -> (r: Parsed<'a, Option<Command>>)
    ensures
        model(r) == spec_step(input@),
        r matches Ok((_, Some(c))) ==> c.signature.wf(),
{
    let (start, _) = blanks(input)?;
    if start.len() == 0 {
        return Ok((start, None));
    }
    match opening(start) {
        Err(Failure::Error) => Ok((start, None)),
        Err(Failure::Incomplete) => Err(Failure::Incomplete),
        Ok((a, _)) => {
            let (rest, c) = command_body(a)?;
            Ok((rest, Some(c)))
        },
    }
}

/// Putting two lists before an outcome one after the other is putting
/// them before it together.
proof fn lemma_after<V>(found: Seq<V>, more: Seq<V>, r: Outcome<Seq<V>>)
    ensures
        after(found, after(more, r)) == after(found + more, r),
{
    match r {
        Ok((rest, last)) => {
            assert(found + (more + last) =~= (found + more) + last);
        },
        Err(_) => {},
    }
}

/// Reads a whole document.
pub fn parse_commands<'a>(input: &'a [u8]) -> (r: Parsed<'a, Vec<Command>>)
    ensures
        model(r) == spec_commands(input@),
        r matches Ok((_, found)) ==> forall|i: int|
            0 <= i < found@.len() ==> (#[trigger] found@[i]).signature.wf(),
{
    let mut found: Vec<Command> = Vec::new();
    let mut cur = input;
    proof {
        assert(found.deep_view() =~= Seq::<CommandView>::empty());
        match spec_commands(input@) {
            Ok((rest, more)) => {
                assert(Seq::<CommandView>::empty() + more =~= more);
            },
            Err(_) => {},
        }
    }
    loop
        invariant
            after(found.deep_view(), spec_commands(cur@)) == spec_commands(input@),
            forall|i: int| 0 <= i < found@.len() ==> (#[trigger] found@[i]).signature.wf(),
        decreases cur@.len(),
    {
        let ghost before = found.deep_view();
        match step(cur) {
            Err(e) => {
                return Err(e);
            },
            Ok((rest, None)) => {
                assert(before + Seq::<CommandView>::empty() =~= before);
                return Ok((rest, found));
            },
            Ok((rest, Some(c))) => {
                let ghost view = c.deep_view();
                found.push(c);
                proof {
                    law_step_advances(cur@);
                    assert(found.deep_view() =~= before + seq![view]);
                    lemma_after(before, seq![view], spec_commands(rest@));
                }
                cur = rest;
            },
        }
    }
}

/// The text of the first field of the command at the head of `s`, behind
/// insignificant input and the opening; empty where there is none.
pub open spec fn spec_first_field(s: Seq<u8>) -> Seq<char> {
    match spec_opening(spec_blanks(s)) {
        Ok((a, _)) => match spec_quoted_string(a) {
            Ok((_, signature)) => signature,
            Err(_) => Seq::empty(),
        },
        Err(_) => Seq::empty(),
    }
}

/// One step through a document as [`spec_step`] takes it, with the
/// descriptors that cannot be read in the signature of the command in place
/// of the command.
pub open spec fn spec_dropped_step(s: Seq<u8>) -> Outcome<Option<Seq<Seq<char>>>> {
    match spec_step(s) {
        Err(e) => Err(e),
        Ok((rest, None)) => Ok((rest, None)),
        Ok((rest, Some(_))) => Ok(
            (rest, Some(dropped_words(signature_words(spec_first_field(s))))),
        ),
    }
}

/// The descriptors that cannot be read in the signatures of the commands of
/// a document, in the order of the document. It fails where the document
/// does, and with the same failure.
pub open spec fn spec_dropped_descriptors(s: Seq<u8>) -> Outcome<Seq<Seq<char>>>
    decreases s.len(),
    via spec_dropped_descriptors_ends
{
    match spec_dropped_step(s) {
        Err(e) => Err(e),
        Ok((rest, None)) => Ok((rest, Seq::empty())),
        Ok((rest, Some(dropped))) => after(dropped, spec_dropped_descriptors(rest)),
    }
}

#[via_fn]
proof fn spec_dropped_descriptors_ends(s: Seq<u8>) {
    law_step_advances(s);
}

/// A step that finds a command takes something away from the input.
proof fn lemma_dropped_step_shrinks(s: Seq<u8>)
    ensures
        spec_dropped_step(s) matches Ok((rest, Some(_))) ==> rest.len() < s.len(),
{
    law_step_advances(s);
}

/// Reads the text of the first field of the command at the head of `input`.
fn first_field<'a>(input: &'a [u8]) -> (r: &'a str)
    ensures
        r@ == spec_first_field(input@),
{
    proof {
        reveal_strlit("");
        assert(""@ =~= Seq::<char>::empty());
    }
    let start = match blanks(input) {
        Ok((start, _)) => start,
        Err(_) => input,
    };
    match opening(start) {
        Ok((a, _)) => match quoted_string(a) {
            Ok((_, signature)) => signature,
            Err(_) => "",
        },
        Err(_) => "",
    }
}

/// Takes one step through a document and names the descriptors that cannot
/// be read.
fn dropped_step<'a>(input: &'a [u8]) -> (r: Parsed<'a, Option<Vec<String>>>)
    ensures
        model(r) == spec_dropped_step(input@),
{
    match step(input) {
        Err(e) => Err(e),
        Ok((rest, None)) => Ok((rest, None)),
        Ok((rest, Some(_))) => Ok((rest, Some(Signature::dropped(first_field(input))))),
    }
}

/// Names the parameters that [`parse_commands`] leaves out of the commands
/// of a document without a word: the descriptors that cannot be read.
pub fn dropped_descriptors<'a>(input: &'a [u8]) -> (r: Parsed<'a, Vec<String>>)
    ensures
        model(r) == spec_dropped_descriptors(input@),
{
    let mut found: Vec<String> = Vec::new();
    let mut cur = input;
    proof {
        assert(found.deep_view() =~= Seq::<Seq<char>>::empty());
        match spec_dropped_descriptors(input@) {
            Ok((rest, more)) => {
                assert(Seq::<Seq<char>>::empty() + more =~= more);
            },
            Err(_) => {},
        }
    }
    loop
        invariant
            after(found.deep_view(), spec_dropped_descriptors(cur@)) == spec_dropped_descriptors(
                input@,
            ),
        decreases cur@.len(),
    {
        let ghost before = found.deep_view();
        match dropped_step(cur) {
            Err(e) => {
                return Err(e);
            },
            Ok((rest, None)) => {
                assert(before + Seq::<Seq<char>>::empty() =~= before);
                return Ok((rest, found));
            },
            Ok((rest, Some(dropped))) => {
                let mut dropped = dropped;
                let ghost more = dropped.deep_view();
                found.append(&mut dropped);
                proof {
                    lemma_dropped_step_shrinks(cur@);
                    assert(found.deep_view() =~= before + more);
                    lemma_after(before, more, spec_dropped_descriptors(rest@));
                }
                cur = rest;
            },
        }
    }
}

} // verus!
