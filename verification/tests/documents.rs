//! Parameters, signatures, commands and documents.

use ceph_command_parser::bytes::Failure;
use ceph_command_parser::command::{
    availability, blanks, dropped_descriptors, flag, flags, module, parse_commands, permissions,
    quoted_avail_string, quoted_string,
};
use ceph_command_parser::param::parse_param_map;
use ceph_command_parser::rename::{method_name, rename_duplicate_functions};
use ceph_command_parser::signature::insert;
use ceph_command_parser::types::{
    AllowedRepeats, Availability, CephEnum, CephType, Command, Flag, Module, Permissions,
    Signature,
};

const NOTHING: &[u8] = &[];

fn variant_of(descriptor: &str) -> CephType {
    let (rest, (name, ceph_type)) = parse_param_map(descriptor.as_bytes()).unwrap();
    assert_eq!(NOTHING, rest);
    assert_eq!("x", name);
    ceph_type
}

#[test]
fn every_type_tag_has_its_kind() {
    let plain = [
        ("CephSocketpath", CephEnum::CephSocketpath),
        ("CephIPAddr", CephEnum::CephIPAddr),
        ("CephEntityAddr", CephEnum::CephEntityAddr),
        ("CephObjectname", CephEnum::CephObjectname),
        ("CephPgid", CephEnum::CephPgid),
        ("CephName", CephEnum::CephName),
        ("CephOsdName", CephEnum::CephOsdName),
        ("CephFilepath", CephEnum::CephFilepath),
        ("CephFragment", CephEnum::CephFragment),
        ("CephUUID", CephEnum::CephUUID),
        ("CephPrefix", CephEnum::CephPrefix),
    ];
    for (tag, variant) in plain {
        assert_eq!(
            CephType { req: true, variant: variant.clone() },
            variant_of(&format!("name=x,type={}", tag))
        );
        assert_eq!(
            CephType { req: false, variant: variant.clone() },
            variant_of(&format!("name=x,type={},req=false", tag))
        );
        assert_eq!(
            CephType { req: true, variant },
            variant_of(&format!("type={},name=x,req=true", tag))
        );
    }
    assert_eq!(
        CephType { req: true, variant: CephEnum::CephInt { min: None, max: None } },
        variant_of("name=x,type=CephInt")
    );
    assert_eq!(
        CephType { req: false, variant: CephEnum::CephInt { min: Some(1), max: Some(32) } },
        variant_of("name=x,type=CephInt,range=1|32,req=false")
    );
    assert_eq!(
        CephType { req: true, variant: CephEnum::CephFloat { min: None, max: None } },
        variant_of("name=x,type=CephFloat")
    );
    assert_eq!(
        CephType {
            req: true,
            variant: CephEnum::CephString { goodchars: None, allowed_repeats: AllowedRepeats::One }
        },
        variant_of("name=x,type=CephString")
    );
    assert_eq!(
        CephType {
            req: false,
            variant: CephEnum::CephString {
                goodchars: Some("[A-Za-z0-9-_.".to_string()),
                allowed_repeats: AllowedRepeats::Many
            }
        },
        variant_of("name=x,type=CephString,n=N,goodchars=[[A-Za-z0-9-_.],req=false")
    );
    assert_eq!(
        CephType {
            req: true,
            variant: CephEnum::CephPoolname { allowed_repeats: Some(AllowedRepeats::One) }
        },
        variant_of("name=x,type=CephPoolname")
    );
    assert_eq!(
        CephType {
            req: true,
            variant: CephEnum::CephPoolname { allowed_repeats: Some(AllowedRepeats::Many) }
        },
        variant_of("name=x,type=CephPoolname,n=N")
    );
    assert_eq!(
        CephType { req: false, variant: CephEnum::CephPoolname { allowed_repeats: None } },
        variant_of("name=x,type=CephPoolname,req=false")
    );
    assert_eq!(
        CephType {
            req: false,
            variant: CephEnum::CephChoices {
                choices: vec!["a".to_string(), "b".to_string()],
                allowed_repeats: AllowedRepeats::One
            }
        },
        variant_of("name=x,type=CephChoices,strings=a|b,req=false")
    );
}

#[test]
fn an_unknown_type_tag_is_no_failure() {
    assert_eq!(
        Ok((NOTHING, ("x".to_string(), CephType { req: false, variant: CephEnum::Unknown }))),
        parse_param_map(b"name=x,type=CephBogus")
    );
    assert_eq!(
        Ok((&b"range=1,req=true"[..], ("x".to_string(), CephType { req: false, variant: CephEnum::Unknown }))),
        parse_param_map(b"name=x,type=cephint,range=1,req=true")
    );
}

#[test]
fn descriptors_that_cannot_be_read() {
    assert_eq!(Err(Failure::Error), parse_param_map(b"range=1,name=x,type=CephInt"));
    assert_eq!(Err(Failure::Error), parse_param_map(b"name=x"));
    assert_eq!(Err(Failure::Error), parse_param_map(b"name=x,kind=CephInt"));
    assert_eq!(Err(Failure::Error), parse_param_map(b"type=CephInt,nam=x"));
    assert_eq!(Err(Failure::Incomplete), parse_param_map(b"type=CephInt,name="));
    assert_eq!(Err(Failure::Error), parse_param_map(b"name=x,type=CephInt,bogus=1"));
    assert_eq!(Err(Failure::Error), parse_param_map(b"name=x,type=CephInt,range=,req=false"));
    assert_eq!(Err(Failure::Error), parse_param_map(b"name=x,type=CephChoices,req=false"));
    assert_eq!(Err(Failure::Incomplete), parse_param_map(b"name=x,type="));
    assert_eq!(Err(Failure::Incomplete), parse_param_map(b"na"));
    assert_eq!(Err(Failure::Incomplete), parse_param_map(b"ty"));
    assert_eq!(Err(Failure::Incomplete), parse_param_map(b""));
    assert_eq!(Err(Failure::Incomplete), parse_param_map(b"name=x,type=CephChoices,strings="));
}

fn names(s: &Signature) -> Vec<&str> {
    s.parameters.iter().map(|p| p.0.as_str()).collect()
}

#[test]
fn a_signature_is_a_prefix_and_parameters() {
    let s = Signature::parse("osd pool get name=pool,type=CephPoolname name=var,type=CephChoices,strings=size|min_size");
    assert_eq!("osd pool get", s.prefix);
    assert!(!s.duplicate);
    assert_eq!(vec!["pool", "var"], names(&s));
    assert_eq!(
        CephType {
            req: true,
            variant: CephEnum::CephChoices {
                choices: vec!["size".to_string(), "min_size".to_string()],
                allowed_repeats: AllowedRepeats::One
            }
        },
        s.parameters[1].1
    );
}

#[test]
fn literal_words_and_descriptors_may_alternate() {
    let s = Signature::parse("osd name=id,type=CephOsdName down name=force,type=CephString,req=false now");
    assert_eq!("osd down now", s.prefix);
    assert_eq!(vec!["id", "force"], names(&s));
}

#[test]
fn what_holds_the_pieces_together_is_taken_out() {
    let s = Signature::parse("pg  scrub \" \\\n        \"name=pgid,type=CephPgid\" \\\n\t\"name=deep,type=CephString,req=false ");
    assert_eq!("pg scrub", s.prefix);
    assert_eq!(vec!["pgid", "deep"], names(&s));
    assert_eq!("", Signature::parse("").prefix);
    assert_eq!("", Signature::parse("  \" \\ \n").prefix);
    assert_eq!("ab", Signature::parse("a    b").prefix);
    assert_eq!("a b", Signature::parse("a     b").prefix);
    assert_eq!("a\u{e9} b", Signature::parse("a\u{e9}\u{a0}b").prefix);
}

#[test]
fn a_descriptor_that_cannot_be_read_is_left_out() {
    let s = Signature::parse("mon add name=x name=addr,type=CephIPAddr kind=CephInt,name=y");
    assert_eq!("mon add", s.prefix);
    assert_eq!(vec!["addr"], names(&s));
}

#[test]
fn the_last_type_of_a_name_counts() {
    let s = Signature::parse("set name=a,type=CephInt name=b,type=CephName name=a,type=CephUUID,req=false");
    assert_eq!(vec!["a", "b"], names(&s));
    assert_eq!(CephType { req: false, variant: CephEnum::CephUUID }, s.parameters[0].1);
    assert_eq!(CephType { req: true, variant: CephEnum::CephName }, s.parameters[1].1);
}

#[test]
fn inserting_a_parameter() {
    let t = |v| CephType { req: true, variant: v };
    let mut parameters = Vec::new();
    insert(&mut parameters, "a".to_string(), t(CephEnum::CephPgid));
    insert(&mut parameters, "b".to_string(), t(CephEnum::CephName));
    insert(&mut parameters, "a".to_string(), t(CephEnum::CephUUID));
    assert_eq!(
        vec![("a".to_string(), t(CephEnum::CephUUID)), ("b".to_string(), t(CephEnum::CephName))],
        parameters
    );
}

/// The text that a signature is written back as: its prefix, and then the
/// descriptors among the words of `source`.
fn rendering(source: &str, s: &Signature) -> String {
    let cleaned = source.replace("\\", "").replace("\"", "").replace("\n", "").replace("    ", "");
    let mut out = s.prefix.clone();
    for word in cleaned.split_whitespace().filter(|w| w.contains("name=")) {
        out.push(' ');
        out.push_str(word);
    }
    out
}

#[test]
fn reading_a_signature_again_gives_it_again() {
    let sources = [
        "pg dump_pools_json",
        "osd name=id,type=CephOsdName down name=force,type=CephString,req=false now",
        "pg ls-by-osd \" \\\n        \"name=osd,type=CephOsdName \" \\\n    \t\"name=states,type=CephChoices,strings=active|clean,n=N,req=false ",
        "set name=a,type=CephInt,range=1|5 name=b name=a,type=CephFloat,range=0.5|1.5,req=false",
        "",
        "name=w,type=CephString,goodchars=[A-Za-z0-9-_.],req=false",
    ];
    for source in sources {
        let first = Signature::parse(source);
        let second = Signature::parse(&rendering(source, &first));
        assert_eq!(first.prefix, second.prefix);
        assert_eq!(first.parameters, second.parameters);
    }
}

#[test]
fn insignificant_input() {
    let rest = |input: &'static [u8]| blanks(input).unwrap().0;
    assert_eq!(b"X", rest(b"X"));
    assert_eq!(NOTHING, rest(b""));
    assert_eq!(b"X", rest(b" \t\r\n X"));
    assert_eq!(b"X", rest(b"// a comment\nX"));
    assert_eq!(b"X", rest(b"# a comment\r\nX"));
    assert_eq!(NOTHING, rest(b"# a comment to the end"));
    assert_eq!(b"X", rest(b"/* a\n * block */X"));
    assert_eq!(b"X", rest(b"\\\nX"));
    assert_eq!(b"X", rest(b"  /* one */ // two\n\\\n\t# three\n  X"));
    assert_eq!(b"X /* later */", rest(b" X /* later */"));
    assert_eq!(b"/* open", rest(b"  /* open"));
    assert_eq!(b"/*", rest(b" /*"));
    assert_eq!(b"/", rest(b" /"));
    assert_eq!(b"\\ \n", rest(b" \\ \n"));
    assert_eq!(b"\\", rest(b" \\"));
    assert_eq!(b"# a comment\rX", rest(b"# a comment\rX"));
    assert_eq!(b"# a comment\r", rest(b" # a comment\r"));
}

#[test]
fn quoted_fields() {
    assert_eq!(Ok((&b" \"r\""[..], "pg")), quoted_string(b" \"pg\", \"r\""));
    assert_eq!(Ok((NOTHING, "a \"quoted\" word")), quoted_string(b"\\\n\t\"a \"quoted\" word\","));
    assert_eq!(Ok((NOTHING, "")), quoted_string(b"\"\","));
    assert_eq!(Err(Failure::Error), quoted_string(b"\"pg\")"));
    assert_eq!(Err(Failure::Error), quoted_string(b"pg, r"));
    assert_eq!(Err(Failure::Error), quoted_string(b"\"\xff\","));
    assert_eq!(Err(Failure::Incomplete), quoted_string(b""));
    assert_eq!(Err(Failure::Incomplete), quoted_string(b"\"p"));

    assert_eq!(Ok((&b")"[..], "cli,rest")), quoted_avail_string(b" \"cli,rest\")"));
    assert_eq!(Ok((&b", FLAG(X))"[..], "cli")), quoted_avail_string(b"\\\n \"cli\", FLAG(X))"));
    assert_eq!(Err(Failure::Error), quoted_avail_string(b" \"cli"));
    assert_eq!(Err(Failure::Error), quoted_avail_string(b"cli"));
    assert_eq!(Err(Failure::Incomplete), quoted_avail_string(b" \""));
    assert_eq!(Err(Failure::Incomplete), quoted_avail_string(b"  \t "));
    assert_eq!(Err(Failure::Incomplete), quoted_avail_string(b""));
    assert_eq!(Err(Failure::Error), quoted_avail_string(b"\n"));
}

#[test]
fn fields_of_a_command() {
    assert_eq!(Ok((NOTHING, Module::ConfigKey)), module(b" \"config-key\","));
    assert_eq!(Ok((NOTHING, Module::Unknown)), module(b" \"fs\","));
    assert_eq!(Ok((NOTHING, Permissions { read: true, write: true, execute: true })), permissions(b" \"rwx\","));
    assert_eq!(Ok((&b")"[..], Availability::Rest)), availability(b" \"rest\")"));
    assert_eq!(Ok((&b")"[..], Availability::Unknown)), availability(b" \"\")"));
    assert_eq!(Err(Failure::Error), module(b" \"fs\""));
}

#[test]
fn flag_lists() {
    assert_eq!(Ok((&b")"[..], Flag::NoForward)), flag(b"NOFORWARD)"));
    assert_eq!(Ok((&b")"[..], Flag::Obsolete)), flag(b"FLAG(OBSOLETE))"));
    assert_eq!(Ok((&b")"[..], Flag::NoFlag)), flag(b"FLAG(NONE))"));
    assert_eq!(Ok((&b")"[..], Flag::NoFlag)), flag(b"FLAG(SHINY))"));
    assert_eq!(Ok((NOTHING, Flag::Deprecated)), flag(b"FLAG(DEPRECATED)"));
    assert_eq!(Err(Failure::Error), flag(b" FLAG(DEPRECATED)"));
    assert_eq!(Err(Failure::Error), flag(b"junk FLAG(DEPRECATED)"));
    assert_eq!(Ok((&b")"[..], vec![Flag::Deprecated])), flags(b", \\\n /* c */ FLAG(DEPRECATED))"));
    assert_eq!(Ok((&b"| FLAG(X))"[..], vec![Flag::Deprecated])), flags(b",FLAG(DEPRECATED)| FLAG(X))"));
    assert_eq!(Err(Failure::Error), flag(b"OBSOLETE)"));
    assert_eq!(Err(Failure::Error), flag(b"FLAG(OBSOLETE"));
    assert_eq!(Err(Failure::Incomplete), flag(b"FLAG"));
    assert_eq!(Err(Failure::Incomplete), flag(b"FLAG("));

    assert_eq!(Ok((&b")"[..], vec![Flag::NoForward])), flags(b", NOFORWARD)"));
    assert_eq!(Ok((&b")"[..], vec![Flag::Obsolete, Flag::NoForward, Flag::NoFlag])), flags(b",FLAG(OBSOLETE)|NOFORWARD|FLAG(X))"));
    assert_eq!(Ok((&b"|)"[..], vec![Flag::Obsolete])), flags(b", FLAG(OBSOLETE)|)"));
    assert_eq!(Err(Failure::Error), flags(b", /* none */ ) and more"));
    assert_eq!(Err(Failure::Error), flags(b", /* none */ )"));
    assert_eq!(Err(Failure::Incomplete), flags(b", /* none */ FLA"));
    assert_eq!(Err(Failure::Error), flags(b")"));
    assert_eq!(Err(Failure::Incomplete), flags(b""));
    assert_eq!(Err(Failure::Incomplete), flags(b", "));
}

#[test]
fn a_command_needs_all_its_pieces() {
    assert!(Command::parse(b"COMMAND(\"a\", \"b\", \"pg\", \"r\", \"cli\")").is_ok());
    assert!(Command::parse(b" /* c */ COMMAND(\"a\", \"b\", \"pg\", \"r\", \"cli\") // d").is_ok());
    assert_eq!(Err(Failure::Error), Command::parse(b"COMAND(\"a\", \"b\", \"pg\", \"r\", \"cli\")"));
    assert_eq!(Err(Failure::Incomplete), Command::parse(b"COMMAND(\"a\", \"b\", \"pg\", \"r\", \"cli\""));
    assert_eq!(Err(Failure::Error), Command::parse(b"COMMAND(\"a\", \"b\", \"pg\", \"r\", \"cli\" "));
    assert_eq!(Err(Failure::Error), Command::parse(b"COMMAND(\"a\", \"b\", \"pg\", \"r\", \"cli\"]"));
    assert_eq!(Err(Failure::Error), Command::parse(b"COMMAND(\"a\", \"b\", \"pg\", \"r\")"));
    assert_eq!(Err(Failure::Error), Command::parse(b"COMMAND(a, b, pg, r, cli)"));
    assert_eq!(Err(Failure::Incomplete), Command::parse(b"COMMAND_WITH_FLAG(\"a\", \"b\", \"pg\", \"r\", \"cli\", FLAG(X)"));
    assert_eq!(Err(Failure::Error), Command::parse(b"COMMAND_WITH_FLAG(\"a\", \"b\", \"pg\", \"r\", \"cli\", FLAG(X) "));
    assert_eq!(Err(Failure::Incomplete), Command::parse(b"COMMAND(\"a\", \"b\", \"pg\", \"r\", \"cli\","));
    assert_eq!(Err(Failure::Incomplete), Command::parse(b"COMMAND("));
    assert_eq!(Err(Failure::Incomplete), Command::parse(b"COMM"));
    assert_eq!(Err(Failure::Incomplete), Command::parse(b""));
    assert_eq!(Err(Failure::Incomplete), Command::parse(b"  // nothing here"));
}

#[test]
fn a_command_may_lose_parameters_silently() {
    let (rest, command) = Command::parse(b"COMMAND(\"auth add name=entity name=caps,type=CephString,n=N,req=false\", \"add\", \"auth\", \"rwx\", \"cli,rest\")").unwrap();
    assert_eq!(NOTHING, rest);
    assert_eq!("auth add", command.signature.prefix);
    assert_eq!(vec!["caps"], names(&command.signature));
    assert_eq!(Module::Auth, command.module_name);
    assert_eq!(Permissions { read: true, write: true, execute: true }, command.permissions);
}

fn prefixes(commands: &[Command]) -> Vec<&str> {
    commands.iter().map(|c| c.signature.prefix.as_str()).collect()
}

const TWO: &[u8] = b"/* the table */\nCOMMAND(\"pg stat\", \"show status\", \"pg\", \"r\", \"cli,rest\")\n// more\nCOMMAND_WITH_FLAG(\"mon compact\", \"compact\", \\\n\t\"mon\", \"rw\", \"cli\", NOFORWARD)\n";

#[test]
fn a_document_is_commands_in_order() {
    let (rest, commands) = parse_commands(TWO).unwrap();
    assert_eq!(NOTHING, rest);
    assert_eq!(vec!["pg stat", "mon compact"], prefixes(&commands));
    assert_eq!(Module::Mon, commands[1].module_name);
    assert_eq!(Availability::Cli, commands[1].availability);
    assert_eq!(Some(vec![Flag::NoForward]), commands[1].flags);
    assert_eq!(None, commands[0].flags);
}

#[test]
fn a_document_may_hold_no_command() {
    assert_eq!(Ok((NOTHING, vec![])), parse_commands(b""));
    assert_eq!(Ok((NOTHING, vec![])), parse_commands(b"  \n"));
    assert_eq!(Ok((NOTHING, vec![])), parse_commands(b"/* nothing */ // at all"));
    assert_eq!(Ok((NOTHING, vec![])), parse_commands(b"\\\n#define X"));
    assert_eq!(Ok((&b"int x;"[..], vec![])), parse_commands(b"  int x;"));
}

#[test]
fn what_follows_the_last_command_is_left() {
    let mut input = TWO.to_vec();
    input.extend_from_slice(b"  and the rest COMMAND(");
    let (rest, commands) = parse_commands(&input).unwrap();
    assert_eq!(b"and the rest COMMAND(", rest);
    assert_eq!(vec!["pg stat", "mon compact"], prefixes(&commands));
}

#[test]
fn a_command_that_fails_fails_the_document() {
    let mut input = TWO.to_vec();
    input.extend_from_slice(b"COMMAND(\"pg dump\", \"dump\", \"pg\", \"r\")\n");
    assert_eq!(Err(Failure::Error), parse_commands(&input));

    let mut input = TWO.to_vec();
    input.extend_from_slice(b"COMMAND(\"pg dump\", \"dump\", \"pg\", \"r\", \"cli\"");
    assert_eq!(Err(Failure::Incomplete), parse_commands(&input));

    let mut input = b"COMMAND(\"pg dump\", \"dump\" \"pg\" \"r\" \"cli\")\n".to_vec();
    input.extend_from_slice(TWO);
    assert_eq!(Err(Failure::Error), parse_commands(&input));
}

#[test]
fn a_document_cut_off_in_an_opening_fails() {
    let mut input = TWO.to_vec();
    input.extend_from_slice(b"COMMAND_WITH");
    assert_eq!(Err(Failure::Incomplete), parse_commands(&input));
    assert_eq!(Err(Failure::Incomplete), parse_commands(b"C"));
    assert_eq!(Err(Failure::Incomplete), parse_commands(b"COMMAND("));
    assert_eq!(Err(Failure::Incomplete), parse_commands(b"COMMAND(\"a"));
}

#[test]
fn method_names() {
    assert_eq!("pg_ls_by_osd", method_name("pg ls-by-osd"));
    assert_eq!("pg_dump_pools_json", method_name("pg dump_pools_json"));
    assert_eq!("", method_name(""));
    assert_eq!("__a__", method_name("- a -"));
    assert_eq!("a\tb", method_name("a\tb"));
}

fn command(prefix: &str) -> Command {
    Command {
        signature: Signature { prefix: prefix.to_string(), duplicate: false, parameters: Vec::new() },
        helpstring: String::new(),
        module_name: Module::Pg,
        permissions: Permissions { read: true, write: false, execute: false },
        availability: Availability::Both,
        flags: None,
    }
}

#[test]
fn the_second_of_a_name_is_a_duplicate() {
    let mut commands = vec![command("pg dump"), command("pg stat"), command("pg-dump"), command("pg_dump"), command("pg stat"), command("pg scrub")];
    let before = commands.clone();
    rename_duplicate_functions(&mut commands);
    let marks: Vec<bool> = commands.iter().map(|c| c.signature.duplicate).collect();
    assert_eq!(vec![false, false, true, true, true, false], marks);
    for (after, before) in commands.iter_mut().zip(before.iter()) {
        after.signature.duplicate = false;
        assert_eq!(before, after);
    }
}

#[test]
fn commands_of_a_document_that_collide() {
    let input = b"COMMAND(\"osd pool get\", \"get\", \"osd\", \"r\", \"cli,rest\")\nCOMMAND(\"osd pool-get name=pool,type=CephPoolname\", \"get more\", \"osd\", \"r\", \"cli,rest\")";
    let (_, mut commands) = parse_commands(input).unwrap();
    assert_eq!(vec![false, false], commands.iter().map(|c| c.signature.duplicate).collect::<Vec<bool>>());
    rename_duplicate_functions(&mut commands);
    assert!(!commands[0].signature.duplicate);
    assert!(commands[1].signature.duplicate);
    assert_eq!("osd_pool_get", commands[0].method_name());
    assert_eq!("osd_pool_get_2", commands[1].method_name());
}

#[test]
fn commands_of_different_modules_do_not_collide() {
    let mut commands = vec![command("dump"), command("dump"), command("dump"), command("stat")];
    commands[1].module_name = Module::Osd;
    commands[3].module_name = Module::Osd;
    rename_duplicate_functions(&mut commands);
    let marks: Vec<bool> = commands.iter().map(|c| c.signature.duplicate).collect();
    assert_eq!(vec![false, false, true, false], marks);
}

#[test]
fn looking_a_parameter_up() {
    let s = Signature::parse("set name=a,type=CephInt name=b,type=CephName name=a,type=CephUUID,req=false");
    assert_eq!(Some(&CephType { req: false, variant: CephEnum::CephUUID }), s.get("a"));
    assert_eq!(Some(&CephType { req: true, variant: CephEnum::CephName }), s.get("b"));
    assert_eq!(None, s.get("c"));
    assert_eq!(None, s.get(""));
    assert_eq!(None, Signature::parse("set").get("a"));
}

#[test]
fn a_marked_command_stays_marked() {
    let mut commands = vec![command("a"), command("b")];
    commands[0].signature.duplicate = true;
    rename_duplicate_functions(&mut commands);
    assert!(commands[0].signature.duplicate);
    assert!(!commands[1].signature.duplicate);
    let mut none: Vec<Command> = Vec::new();
    rename_duplicate_functions(&mut none);
    assert!(none.is_empty());
}

const TABLE: &str = r#"// -*- mode:C++; tab-width:8; c-basic-offset:2; indent-tabs-mode:t -*-
/*
 * Define commands that are reported by the monitor's
 * "get_command_descriptions" command.
 *
 * COMMAND(signature, helpstring, modulename, req perms, availability)
 */

/*
 * pg commands
 */

COMMAND("pg stat", "show placement group status.", "pg", "r", "cli,rest")
COMMAND("pg send_pg_creates", "trigger pg creates to be issued",\
	"pg", "rw", "cli,rest")
COMMAND("pg dump " \
	"name=dumpcontents,type=CephChoices,strings=all|summary|sum|delta|pools|osds|pgs|pgs_brief,n=N,req=false", \
	"show human-readable versions of pg map (only 'all' valid with plain)", "pg", "r", "cli,rest")
COMMAND("pg set_full_ratio name=ratio,type=CephFloat,range=0.0|1.0", \
	"set ratio at which pgs are considered full", "pg", "rw", "cli,rest")

// auth commands

COMMAND("auth import", "auth import: read keyring file from -i <file>", \
	"auth", "rwx", "cli,rest")
COMMAND_WITH_FLAG("compact", "cause compaction of monitor's leveldb storage", \
	     "mon", "rw", "cli,rest", \
             FLAG(NOFORWARD)|FLAG(DEPRECATED))
COMMAND("osd pool create " \
	"name=pool,type=CephPoolname " \
	"name=pg_num,type=CephInt,range=0 " \
	"name=pgp_num,type=CephInt,range=0,req=false " \
	"name=pool_type,type=CephChoices,strings=replicated|erasure,req=false " \
	"name=erasure_code_profile,type=CephString,req=false,goodchars=[A-Za-z0-9-_.] ", \
	"create pool", "osd", "rw", "cli,rest")
COMMAND("config-key get " \
	"name=key,type=CephString", \
	"get <key>", "config-key", "r", "cli,rest")
"#;

#[test]
fn a_table_as_it_is_written() {
    let (rest, commands) = parse_commands(TABLE.as_bytes()).unwrap();
    assert_eq!(NOTHING, rest);
    assert_eq!(
        vec![
            "pg stat",
            "pg send_pg_creates",
            "pg dump",
            "pg set_full_ratio",
            "auth import",
            "compact",
            "osd pool create",
            "config-key get"
        ],
        prefixes(&commands)
    );
    assert_eq!(
        vec![Module::Pg, Module::Pg, Module::Pg, Module::Pg, Module::Auth, Module::Mon, Module::Osd, Module::ConfigKey],
        commands.iter().map(|c| c.module_name).collect::<Vec<Module>>()
    );
    assert_eq!(
        Some(&CephType {
            req: false,
            variant: CephEnum::CephChoices {
                choices: ["all", "summary", "sum", "delta", "pools", "osds", "pgs", "pgs_brief"]
                    .iter()
                    .map(|c| c.to_string())
                    .collect(),
                allowed_repeats: AllowedRepeats::Many
            }
        }),
        commands[2].signature.get("dumpcontents")
    );
    assert_eq!(
        "show human-readable versions of pg map (only 'all' valid with plain)",
        commands[2].helpstring
    );
    assert_eq!(
        Some(&CephType {
            req: true,
            variant: CephEnum::CephFloat { min: Some("0.0".to_string()), max: Some("1.0".to_string()) }
        }),
        commands[3].signature.get("ratio")
    );
    assert_eq!(Permissions { read: true, write: true, execute: true }, commands[4].permissions);
    assert_eq!(Some(vec![Flag::NoForward, Flag::Deprecated]), commands[5].flags);
    assert_eq!(
        vec!["pool", "pg_num", "pgp_num", "pool_type", "erasure_code_profile"],
        names(&commands[6].signature)
    );
    assert_eq!(
        Some(&CephType { req: true, variant: CephEnum::CephInt { min: Some(0), max: None } }),
        commands[6].signature.get("pg_num")
    );
    // The attributes behind `req=` are left unread.
    assert_eq!(
        Some(&CephType {
            req: false,
            variant: CephEnum::CephString { goodchars: None, allowed_repeats: AllowedRepeats::One }
        }),
        commands[6].signature.get("erasure_code_profile")
    );
    assert_eq!(
        Some(&CephType {
            req: true,
            variant: CephEnum::CephString { goodchars: None, allowed_repeats: AllowedRepeats::One }
        }),
        commands[7].signature.get("key")
    );
}

#[test]
fn a_descriptor_may_end_at_its_name() {
    assert_eq!(
        Ok((
            NOTHING,
            ("pool".to_string(), CephType { req: true, variant: CephEnum::CephInt { min: None, max: None } })
        )),
        parse_param_map(b"type=CephInt,name=pool")
    );
    assert_eq!(
        Ok((NOTHING, ("pool".to_string(), CephType { req: true, variant: CephEnum::CephOsdName }))),
        parse_param_map(b"type=CephOsdName,name=pool")
    );
    assert_eq!(
        Ok((
            NOTHING,
            (
                "s".to_string(),
                CephType {
                    req: true,
                    variant: CephEnum::CephString { goodchars: None, allowed_repeats: AllowedRepeats::One }
                }
            )
        )),
        parse_param_map(b"type=CephString,name=s")
    );
    // With attributes the name still ends at the comma.
    assert_eq!(
        Ok((
            NOTHING,
            ("pool".to_string(), CephType { req: false, variant: CephEnum::CephInt { min: Some(1), max: None } })
        )),
        parse_param_map(b"type=CephInt,name=pool,range=1,req=false")
    );
    let s = Signature::parse("osd pool get type=CephPoolname,name=pool");
    assert_eq!("osd pool get", s.prefix);
    assert_eq!(
        Some(&CephType {
            req: true,
            variant: CephEnum::CephPoolname { allowed_repeats: Some(AllowedRepeats::One) }
        }),
        s.get("pool")
    );
}

#[test]
fn a_comma_needs_a_flag_behind_it() {
    assert_eq!(
        Err(Failure::Error),
        Command::parse(b"COMMAND_WITH_FLAG(\"a\", \"b\", \"pg\", \"r\", \"cli,rest\", ) and more")
    );
    assert_eq!(
        Err(Failure::Error),
        Command::parse(b"COMMAND_WITH_FLAG(\"a\", \"b\", \"pg\", \"r\", \"cli,rest\", DEPRECATED) and more")
    );
    let (_, c) = Command::parse(b"COMMAND_WITH_FLAG(\"a\", \"b\", \"pg\", \"r\", \"cli,rest\", FLAG(OBSOLETE))").unwrap();
    assert_eq!(Some(vec![Flag::Obsolete]), c.flags);
    let (_, c) = Command::parse(b"COMMAND_WITH_FLAG(\"a\", \"b\", \"pg\", \"r\", \"cli,rest\")").unwrap();
    assert_eq!(None, c.flags);
}

#[test]
fn the_descriptors_that_are_left_out_are_named() {
    assert_eq!(
        vec!["name=x", "kind=CephInt,name=y"],
        Signature::dropped("mon add name=x name=addr,type=CephIPAddr kind=CephInt,name=y")
    );
    assert_eq!(Vec::<String>::new(), Signature::dropped("mon add name=addr,type=CephIPAddr"));
    assert_eq!(Vec::<String>::new(), Signature::dropped(""));
    assert_eq!(
        vec!["name=a,type=CephInt,range=x"],
        Signature::dropped("set \" \\\n    \"name=a,type=CephInt,range=x\" \\\n type=CephBogus,name=b")
    );
    // What is left out and what is kept are all the descriptors there are.
    let source = "a name=x,type=CephInt b name=y c type=CephFloat,name=z,range=1.2.3 name=w,type=";
    let kept = Signature::parse(source).parameters.len();
    let dropped = Signature::dropped(source);
    assert_eq!(vec!["name=y", "type=CephFloat,name=z,range=1.2.3", "name=w,type="], dropped);
    assert_eq!(1, kept);
}

#[test]
fn the_descriptors_that_a_document_leaves_out() {
    let input = b"COMMAND(\"auth add name=entity name=caps,type=CephString,n=N,req=false\", \"add\", \"auth\", \"rwx\", \"cli,rest\")\n\
COMMAND(\"pg stat\", \"s\", \"pg\", \"r\", \"cli\")\n\
COMMAND(\"pg set name=a,type=CephInt,range=,req=false \" \\\n \"name=b,type=CephInt name=c,kind=x\", \"s\", \"pg\", \"r\", \"cli\") rest";
    assert_eq!(
        Ok((&b"rest"[..], vec!["name=entity".to_string(), "name=a,type=CephInt,range=,req=false".to_string(), "name=c,kind=x".to_string()])),
        dropped_descriptors(input)
    );
    assert_eq!(Ok((NOTHING, vec![])), dropped_descriptors(b" // nothing"));
    assert_eq!(Err(Failure::Error), dropped_descriptors(b"COMMAND(\"a name=x"));
    assert_eq!(Err(Failure::Incomplete), dropped_descriptors(b"COMMAND(\""));
    assert_eq!(Err(Failure::Error), dropped_descriptors(b"COMMAND(\"a name=x\", \"b\", \"pg\", \"r\") and more"));
    // It fails exactly where the reading of the document fails.
    for text in [&input[..], b"", b"COMM", b"COMMAND(\"a\", \"b\", \"pg\", \"r\", \"cli\") x"] {
        assert_eq!(
            parse_commands(text).map(|(rest, _)| rest),
            dropped_descriptors(text).map(|(rest, _)| rest)
        );
    }
}

#[test]
fn descriptors_as_they_are_written_back() {
    let d = |req, variant: CephEnum| CephType { req, variant }.descriptor("x");
    assert_eq!("name=x,type=CephInt", d(true, CephEnum::CephInt { min: None, max: None }));
    assert_eq!("name=x,type=CephInt,req=false", d(false, CephEnum::CephInt { min: None, max: None }));
    assert_eq!("name=x,type=CephInt,range=1|32", d(true, CephEnum::CephInt { min: Some(1), max: Some(32) }));
    assert_eq!("name=x,type=CephInt,range=0,req=false", d(false, CephEnum::CephInt { min: Some(0), max: None }));
    assert_eq!("name=x,type=CephInt,|7,req=false", d(false, CephEnum::CephInt { min: None, max: Some(7) }));
    assert_eq!(
        "name=x,type=CephFloat,range=-1.5|.5",
        d(true, CephEnum::CephFloat { min: Some("-1.5".to_string()), max: Some(".5".to_string()) })
    );
    assert_eq!(
        "name=x,type=CephString",
        d(true, CephEnum::CephString { goodchars: None, allowed_repeats: AllowedRepeats::One })
    );
    assert_eq!(
        "name=x,type=CephString,n=N,goodchars=[a-z],req=false",
        d(false, CephEnum::CephString { goodchars: Some("a-z".to_string()), allowed_repeats: AllowedRepeats::Many })
    );
    assert_eq!("name=x,type=CephPoolname", d(true, CephEnum::CephPoolname { allowed_repeats: Some(AllowedRepeats::One) }));
    assert_eq!("name=x,type=CephPoolname,n=1,req=false", d(false, CephEnum::CephPoolname { allowed_repeats: Some(AllowedRepeats::One) }));
    assert_eq!("name=x,type=CephPoolname,n=N", d(true, CephEnum::CephPoolname { allowed_repeats: Some(AllowedRepeats::Many) }));
    assert_eq!("name=x,type=CephPoolname,req=true", d(true, CephEnum::CephPoolname { allowed_repeats: None }));
    assert_eq!("name=x,type=CephPoolname,req=false", d(false, CephEnum::CephPoolname { allowed_repeats: None }));
    assert_eq!(
        "name=x,type=CephChoices,strings=a|b,",
        d(true, CephEnum::CephChoices { choices: vec!["a".to_string(), "b".to_string()], allowed_repeats: AllowedRepeats::One })
    );
    assert_eq!(
        "name=x,type=CephChoices,strings=a,n=N,req=false",
        d(false, CephEnum::CephChoices { choices: vec!["a".to_string()], allowed_repeats: AllowedRepeats::Many })
    );
    assert_eq!(
        "name=x,type=CephChoices,strings=,req=false",
        d(false, CephEnum::CephChoices { choices: vec!["".to_string()], allowed_repeats: AllowedRepeats::One })
    );
    assert_eq!("name=x,type=CephUUID,req=false", d(false, CephEnum::CephUUID));
    assert_eq!("name=x,type=CephOsdName", d(true, CephEnum::CephOsdName));
    assert_eq!("name=x,type=Unknown", d(false, CephEnum::Unknown));
    assert_eq!("CephFilepath", CephEnum::CephFilepath.tag());
}

#[test]
fn a_signature_written_back_reads_as_itself() {
    let sources = [
        "pg dump_pools_json",
        "",
        "osd name=id,type=CephOsdName down name=force,type=CephString,req=false now",
        "pg ls-by-osd \" \\\n        \"name=osd,type=CephOsdName \" \\\n    \t\"name=states,type=CephChoices,strings=active|clean,n=N,req=false ",
        "set name=a,type=CephInt,range=1|5 name=b name=a,type=CephFloat,range=-0.5|1.5,req=false",
        "name=w,type=CephString,goodchars=[A-Za-z0-9-_.],req=false",
        "name=w,type=CephString,n=N,goodchars=[a,b=c] name=v,type=CephString,n=N name=u,type=CephString,n=7,req=true",
        "x type=CephInt,name=n y type=CephFloat,name=f,range=.5 z",
        "p name=a,type=CephPoolname name=b,type=CephPoolname,req=false name=c,type=CephPoolname,n=N,req=false name=d,type=CephPoolname,n=2,req=false name=e,type=CephPoolname,req=true",
        "c name=a,type=CephChoices,strings=,req=false name=b,type=CephChoices,strings=--yes|no name=c,type=CephChoices,strings=a||b,n=N",
        "i name=a,type=CephInt,|5 name=b,type=CephInt,range=4294967295,req=false name=c,type=CephInt,range=007|09",
        "u name=a,type=CephBogus,req=true name=,type=CephUUID name=\u{e9}t\u{e9},type=CephName,req=false",
        "k name=a,type=CephSocketpath name=b,type=CephIPAddr,req=false name=c,type=CephEntityAddr name=d,type=CephObjectname name=e,type=CephPgid name=f,type=CephFilepath name=g,type=CephFragment name=h,type=CephPrefix",
        "dropped name=x name=y,type=CephInt,range=,req=false kept name=z,type=CephInt",
    ];
    for source in sources {
        let first = Signature::parse(source);
        let second = Signature::parse(&first.rendering());
        assert_eq!(first.prefix, second.prefix);
        assert_eq!(first.parameters, second.parameters);
        assert_eq!(Vec::<String>::new(), Signature::dropped(&first.rendering()));
    }
    assert_eq!(
        "osd down name=id,type=CephOsdName name=force,type=CephString,req=false",
        Signature::parse("osd name=id,type=CephOsdName down name=force,type=CephString,req=false").rendering()
    );
}
