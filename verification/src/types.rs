//! The data model: what a parsed command holds.

use crate::bytes::str_eq;
use vstd::prelude::*;

verus! {

/// A modifier of a whole command.
#[derive(Clone, Copy, Debug, PartialEq, Eq, Structural)]
pub enum Flag {
    /// No flag assigned.
    NoFlag,
    /// The command may not be forwarded.
    NoForward,
    /// The command is considered obsolete.
    Obsolete,
    /// The command is considered deprecated.
    Deprecated,
}

impl DeepView for Flag {
    type V = Flag;

    open spec fn deep_view(&self) -> Flag {
        *self
    }
}

impl Flag {
    /// The flag that a flag name stands for; an unknown name is no flag.
    pub open spec fn of(m: Seq<char>) -> Flag {
        if m == "NOFORWARD"@ {
            Flag::NoForward
        } else if m == "OBSOLETE"@ {
            Flag::Obsolete
        } else if m == "DEPRECATED"@ {
            Flag::Deprecated
        } else {
            Flag::NoFlag
        }
    }

    /// Maps a flag name to its flag.
    pub fn from_str(m: &str) -> (r: Flag)
        ensures
            r == Flag::of(m@),
    {
        if str_eq(m, "NOFORWARD") {
            Flag::NoForward
        } else if str_eq(m, "OBSOLETE") {
            Flag::Obsolete
        } else if str_eq(m, "DEPRECATED") {
            Flag::Deprecated
        } else {
            Flag::NoFlag
        }
    }
}

/// Through which interfaces a command can be reached.
#[derive(Clone, Copy, Debug, PartialEq, Eq, Structural)]
pub enum Availability {
    Cli,
    Rest,
    Both,
    Unknown,
}

impl DeepView for Availability {
    type V = Availability;

    open spec fn deep_view(&self) -> Availability {
        *self
    }
}

impl Availability {
    /// `cli`, `rest` and `cli,rest` are the three known values; every other
    /// text is unknown.
    pub open spec fn of(m: Seq<char>) -> Availability {
        if m == "cli"@ {
            Availability::Cli
        } else if m == "rest"@ {
            Availability::Rest
        } else if m == "cli,rest"@ {
            Availability::Both
        } else {
            Availability::Unknown
        }
    }

    /// Maps an availability literal to its value.
    pub fn from_str(m: &str) -> (r: Availability)
        ensures
            r == Availability::of(m@),
    {
        if str_eq(m, "cli") {
            Availability::Cli
        } else if str_eq(m, "rest") {
            Availability::Rest
        } else if str_eq(m, "cli,rest") {
            Availability::Both
        } else {
            Availability::Unknown
        }
    }
}

/// The subsystem a command belongs to.
#[derive(Clone, Copy, Debug, PartialEq, Eq, Structural)]
pub enum Module {
    Mds,
    Osd,
    Pg,
    Mon,
    Auth,
    Log,
    ConfigKey,
    Unknown,
}

impl DeepView for Module {
    type V = Module;

    open spec fn deep_view(&self) -> Module {
        *self
    }
}

impl Module {
    /// The module that a module literal names; every other text is unknown.
    pub open spec fn of(m: Seq<char>) -> Module {
        if m == "mds"@ {
            Module::Mds
        } else if m == "osd"@ {
            Module::Osd
        } else if m == "pg"@ {
            Module::Pg
        } else if m == "mon"@ {
            Module::Mon
        } else if m == "auth"@ {
            Module::Auth
        } else if m == "log"@ {
            Module::Log
        } else if m == "config-key"@ {
            Module::ConfigKey
        } else {
            Module::Unknown
        }
    }

    /// The name of the class that groups the module's commands.
    pub open spec fn class_name(self) -> Seq<char> {
        match self {
            Module::Mds => "MdsCommand"@,
            Module::Osd => "OsdCommand"@,
            Module::Pg => "PlacementGroupCommand"@,
            Module::Mon => "MonitorCommand"@,
            Module::Auth => "AuthCommand"@,
            Module::Log => "LogCommand"@,
            Module::ConfigKey => "ConfigKeyCommand"@,
            Module::Unknown => "UnknownCommand"@,
        }
    }

    /// Maps a module literal to its module.
    pub fn from_str(m: &str) -> (r: Module)
        ensures
            r == Module::of(m@),
    {
        if str_eq(m, "mds") {
            Module::Mds
        } else if str_eq(m, "osd") {
            Module::Osd
        } else if str_eq(m, "pg") {
            Module::Pg
        } else if str_eq(m, "mon") {
            Module::Mon
        } else if str_eq(m, "auth") {
            Module::Auth
        } else if str_eq(m, "log") {
            Module::Log
        } else if str_eq(m, "config-key") {
            Module::ConfigKey
        } else {
            Module::Unknown
        }
    }

    /// The name of the class that groups the module's commands.
    pub fn to_string(self) -> (r: String)
        ensures
            r@ == self.class_name(),
    {
        match self {
            Module::Mds => "MdsCommand".to_owned(),
            Module::Osd => "OsdCommand".to_owned(),
            Module::Pg => "PlacementGroupCommand".to_owned(),
            Module::Mon => "MonitorCommand".to_owned(),
            Module::Auth => "AuthCommand".to_owned(),
            Module::Log => "LogCommand".to_owned(),
            Module::ConfigKey => "ConfigKeyCommand".to_owned(),
            Module::Unknown => "UnknownCommand".to_owned(),
        }
    }
}

/// Who may run a command.
#[derive(Clone, Copy, Debug, PartialEq, Eq, Structural)]
pub struct Permissions {
    pub read: bool,
    pub write: bool,
    pub execute: bool,
}

impl DeepView for Permissions {
    type V = Permissions;

    open spec fn deep_view(&self) -> Permissions {
        *self
    }
}

impl Permissions {
    /// Each permission is granted exactly when its letter stands somewhere in
    /// the literal; order, repetition and other characters do not matter.
    pub open spec fn of(perms: Seq<char>) -> Permissions {
        Permissions {
            read: perms.contains('r'),
            write: perms.contains('w'),
            execute: perms.contains('x'),
        }
    }

    /// Reads a permissions literal such as `rw`.
    pub fn from_str(perms: &str) -> (r: Permissions)
        ensures
            r == Permissions::of(perms@),
    {
        let mut read: bool = false;
        let mut write: bool = false;
        let mut execute: bool = false;
        for c in it: perms.chars()
            invariant
                it.seq() == perms@,
                read == it.seq().take(it.index() as int).contains('r'),
                write == it.seq().take(it.index() as int).contains('w'),
                execute == it.seq().take(it.index() as int).contains('x'),
        {
            proof {
                let i = it.index() as int;
                let before = it.seq().take(i);
                let after = it.seq().take(i + 1);
                assert(after =~= before.push(c));
                assert forall|x: char| after.contains(x) <==> (before.contains(x) || x == c) by {
                    if before.contains(x) {
                        let k = choose|k: int| 0 <= k < before.len() && before[k] == x;
                        assert(after[k] == x);
                    }
                    if x == c {
                        assert(after[i] == x);
                    }
                }
            }
            if c == 'r' {
                read = true;
            }
            if c == 'w' {
                write = true;
            }
            if c == 'x' {
                execute = true;
            }
        }
        proof {
            assert(perms@.take(perms@.len() as int) =~= perms@);
        }
        Permissions { read, write, execute }
    }
}

/// How often an argument may be given.
#[derive(Clone, Copy, Debug, PartialEq, Eq, Structural)]
pub enum AllowedRepeats {
    /// The argument is allowed only once.
    One,
    /// The argument is allowed one or more times.
    Many,
}

impl DeepView for AllowedRepeats {
    type V = AllowedRepeats;

    open spec fn deep_view(&self) -> AllowedRepeats {
        *self
    }
}

impl AllowedRepeats {
    /// `N` means many; every other text means one.
    pub open spec fn of(repeats: Seq<char>) -> AllowedRepeats {
        if repeats == "N"@ {
            AllowedRepeats::Many
        } else {
            AllowedRepeats::One
        }
    }

    /// The word the cardinality is printed as.
    pub open spec fn word(self) -> Seq<char> {
        match self {
            AllowedRepeats::Many => "many"@,
            AllowedRepeats::One => "one"@,
        }
    }

    /// Reads the value of an `n=` attribute.
    pub fn from_str(repeats: &str) -> (r: AllowedRepeats)
        ensures
            r == AllowedRepeats::of(repeats@),
    {
        if str_eq(repeats, "N") {
            AllowedRepeats::Many
        } else {
            AllowedRepeats::One
        }
    }

    /// The word the cardinality is printed as.
    pub fn to_string(self) -> (r: String)
        ensures
            r@ == self.word(),
    {
        match self {
            AllowedRepeats::Many => "many".to_owned(),
            AllowedRepeats::One => "one".to_owned(),
        }
    }
}

/// The kind of a parameter, with the attributes that the kind admits.
#[allow(inconsistent_fields)]
#[derive(Clone, Debug, PartialEq, Eq)]
pub enum CephEnum {
    /// An integer, with an optional range.
    CephInt { min: Option<u32>, max: Option<u32> },
    /// A decimal number, with an optional range. Each bound is kept as it is
    /// written: digits with at most one full stop among them.
    CephFloat { min: Option<String>, max: Option<String> },
    /// A string, with an optional set of allowed characters.
    CephString { goodchars: Option<String>, allowed_repeats: AllowedRepeats },
    /// The path of a socket.
    CephSocketpath,
    /// An IPv4 or IPv6 address with an optional port.
    CephIPAddr,
    /// An address with an optional nonce.
    CephEntityAddr,
    /// The name of a pool.
    CephPoolname { allowed_repeats: Option<AllowedRepeats> },
    /// The name of an object.
    CephObjectname,
    /// The identifier of a placement group.
    CephPgid,
    /// The name of a daemon.
    CephName,
    /// The name of an object storage daemon.
    CephOsdName,
    /// One of a list of words.
    CephChoices { choices: Vec<String>, allowed_repeats: AllowedRepeats },
    /// The path of a file.
    CephFilepath,
    /// The identifier of a fragment.
    CephFragment,
    /// A UUID.
    CephUUID,
    /// The kind given to literal words.
    CephPrefix,
    /// A kind this crate does not know.
    Unknown,
}

/// The mathematical value of a [`CephEnum`].
#[allow(inconsistent_fields)]
pub enum CephEnumView {
    CephInt { min: Option<u32>, max: Option<u32> },
    CephFloat { min: Option<Seq<char>>, max: Option<Seq<char>> },
    CephString { goodchars: Option<Seq<char>>, allowed_repeats: AllowedRepeats },
    CephSocketpath,
    CephIPAddr,
    CephEntityAddr,
    CephPoolname { allowed_repeats: Option<AllowedRepeats> },
    CephObjectname,
    CephPgid,
    CephName,
    CephOsdName,
    CephChoices { choices: Seq<Seq<char>>, allowed_repeats: AllowedRepeats },
    CephFilepath,
    CephFragment,
    CephUUID,
    CephPrefix,
    Unknown,
}

impl DeepView for CephEnum {
    type V = CephEnumView;

    open spec fn deep_view(&self) -> CephEnumView {
        match self {
            CephEnum::CephInt { min, max } => CephEnumView::CephInt { min: *min, max: *max },
            CephEnum::CephFloat { min, max } => CephEnumView::CephFloat {
                min: min.deep_view(),
                max: max.deep_view(),
            },
            CephEnum::CephString { goodchars, allowed_repeats } => CephEnumView::CephString {
                goodchars: goodchars.deep_view(),
                allowed_repeats: *allowed_repeats,
            },
            CephEnum::CephSocketpath => CephEnumView::CephSocketpath,
            CephEnum::CephIPAddr => CephEnumView::CephIPAddr,
            CephEnum::CephEntityAddr => CephEnumView::CephEntityAddr,
            CephEnum::CephPoolname { allowed_repeats } => CephEnumView::CephPoolname {
                allowed_repeats: *allowed_repeats,
            },
            CephEnum::CephObjectname => CephEnumView::CephObjectname,
            CephEnum::CephPgid => CephEnumView::CephPgid,
            CephEnum::CephName => CephEnumView::CephName,
            CephEnum::CephOsdName => CephEnumView::CephOsdName,
            CephEnum::CephChoices { choices, allowed_repeats } => CephEnumView::CephChoices {
                choices: choices.deep_view(),
                allowed_repeats: *allowed_repeats,
            },
            CephEnum::CephFilepath => CephEnumView::CephFilepath,
            CephEnum::CephFragment => CephEnumView::CephFragment,
            CephEnum::CephUUID => CephEnumView::CephUUID,
            CephEnum::CephPrefix => CephEnumView::CephPrefix,
            CephEnum::Unknown => CephEnumView::Unknown,
        }
    }
}

/// A parameter's type: its kind, and whether the parameter must be given.
#[derive(Clone, Debug, PartialEq, Eq)]
pub struct CephType {
    pub req: bool,
    pub variant: CephEnum,
}

/// The mathematical value of a [`CephType`].
pub struct CephTypeView {
    pub req: bool,
    pub variant: CephEnumView,
}

impl DeepView for CephType {
    type V = CephTypeView;

    open spec fn deep_view(&self) -> CephTypeView {
        CephTypeView { req: self.req, variant: self.variant.deep_view() }
    }
}

/// The map that a list of named parameters stands for: where a name occurs
/// more than once, the entry nearest the end counts.
pub open spec fn entries_map(entries: Seq<(Seq<char>, CephTypeView)>) -> Map<
    Seq<char>,
    CephTypeView,
>
    decreases entries.len(),
{
    if entries.len() == 0 {
        Map::empty()
    } else {
        entries_map(entries.drop_last()).insert(entries.last().0, entries.last().1)
    }
}

/// Whether no name occurs twice.
pub open spec fn distinct_names(entries: Seq<(Seq<char>, CephTypeView)>) -> bool {
    forall|i: int, j: int|
        0 <= i < j < entries.len() ==> (#[trigger] entries[i]).0 != (#[trigger] entries[j]).0
}

/// A command's literal words and its named, typed parameters.
#[derive(Clone, Debug, PartialEq, Eq)]
pub struct Signature {
    /// The literal words, joined by single spaces.
    pub prefix: String,
    /// Set when an earlier command of the same module has the same method
    /// name.
    pub duplicate: bool,
    /// The parameters in the order in which their names first appear; no
    /// name occurs twice.
    pub parameters: Vec<(String, CephType)>,
}

/// The mathematical value of a [`Signature`].
pub struct SignatureView {
    pub prefix: Seq<char>,
    pub duplicate: bool,
    /// The parameters by name, in the order in which the names first appear.
    pub parameters: Seq<(Seq<char>, CephTypeView)>,
}

impl SignatureView {
    /// The parameters as a map from name to type.
    pub open spec fn map(self) -> Map<Seq<char>, CephTypeView> {
        entries_map(self.parameters)
    }

    /// The invariant of a signature: no parameter name occurs twice.
    pub open spec fn wf(self) -> bool {
        distinct_names(self.parameters)
    }
}

impl DeepView for Signature {
    type V = SignatureView;

    open spec fn deep_view(&self) -> SignatureView {
        SignatureView {
            prefix: self.prefix@,
            duplicate: self.duplicate,
            parameters: self.parameters.deep_view(),
        }
    }
}

impl Signature {
    /// The invariant of a signature: no parameter name occurs twice.
    pub open spec fn wf(&self) -> bool {
        self.deep_view().wf()
    }
}

/// One command of the table.
#[derive(Clone, Debug, PartialEq, Eq)]
pub struct Command {
    pub signature: Signature,
    pub helpstring: String,
    pub module_name: Module,
    pub permissions: Permissions,
    pub availability: Availability,
    pub flags: Option<Vec<Flag>>,
}

/// The mathematical value of a [`Command`].
pub struct CommandView {
    pub signature: SignatureView,
    pub helpstring: Seq<char>,
    pub module_name: Module,
    pub permissions: Permissions,
    pub availability: Availability,
    pub flags: Option<Seq<Flag>>,
}

impl DeepView for Command {
    type V = CommandView;

    open spec fn deep_view(&self) -> CommandView {
        CommandView {
            signature: self.signature.deep_view(),
            helpstring: self.helpstring@,
            module_name: self.module_name,
            permissions: self.permissions,
            availability: self.availability,
            flags: self.flags.deep_view(),
        }
    }
}

} // verus!
