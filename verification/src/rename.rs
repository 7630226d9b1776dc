//! Method names, and the pass that marks the commands whose method name was
//! taken by an earlier command.

use crate::types::{Command, CommandView, Module, SignatureView};
use vstd::hash_set::StringHashSet;
use vstd::prelude::*;

verus! {

/// The character of a method name that stands for `c`: spaces and hyphens
/// become underscores.
pub open spec fn name_char(c: char) -> char {
    if c == ' ' || c == '-' {
        '_'
    } else {
        c
    }
}

/// The method name that a prefix gives.
pub open spec fn spec_method_name(prefix: Seq<char>) -> Seq<char> {
    prefix.map_values(|c: char| name_char(c))
}

/// The method name that a prefix gives.
pub fn method_name(prefix: &str) -> (r: String)
    ensures
        r@ == spec_method_name(prefix@),
{
    let mut out = String::new();
    for c in it: prefix.chars()
        invariant
            it.seq() == prefix@,
            out@ == spec_method_name(it.seq().take(it.index() as int)),
    {
        proof {
            let i = it.index() as int;
            assert(spec_method_name(it.seq().take(i + 1)) =~= spec_method_name(
                it.seq().take(i),
            ).push(name_char(c)));
        }
        if c == ' ' || c == '-' {
            out.push('_');
        } else {
            out.push(c);
        }
    }
    proof {
        assert(prefix@.take(prefix@.len() as int) =~= prefix@);
    }
    out
}

/// Whether two commands would get the same method of the same class: they
/// belong to one module and their prefixes give one method name.
pub open spec fn same_method(a: CommandView, b: CommandView) -> bool {
    a.module_name == b.module_name && spec_method_name(a.signature.prefix) == spec_method_name(
        b.signature.prefix,
    )
}

/// Whether a command before the one at `i` has the same method.
pub open spec fn taken_before(commands: Seq<CommandView>, i: int) -> bool {
    exists|j: int| 0 <= j < i && same_method(#[trigger] commands[j], commands[i])
}

/// The command `c` marked as a duplicate.
pub open spec fn marked(c: CommandView) -> CommandView {
    CommandView { signature: SignatureView { duplicate: true, ..c.signature }, ..c }
}

/// The list after the pass: every command whose method an earlier command of
/// the list has is marked, and nothing else changes.
pub open spec fn renamed(commands: Seq<CommandView>) -> Seq<CommandView> {
    Seq::new(
        commands.len(),
        |i: int|
            if taken_before(commands, i) {
                marked(commands[i])
            } else {
                commands[i]
            },
    )
}

/// The method names of the commands of `module` before index `i`.
pub open spec fn names_before(commands: Seq<CommandView>, i: int, module: Module) -> Set<
    Seq<char>,
> {
    Set::new(
        |name: Seq<char>|
            exists|j: int|
                0 <= j < i && (#[trigger] commands[j]).module_name == module && spec_method_name(
                    commands[j].signature.prefix,
                ) == name,
    )
}

/// One command further, the names of its own module have its name among
/// them, and the names of the other modules are what they were.
proof fn lemma_names_step(commands: Seq<CommandView>, i: int, module: Module)
    requires
        0 <= i < commands.len(),
    ensures
        names_before(commands, i + 1, module) == if commands[i].module_name == module {
            names_before(commands, i, module).insert(spec_method_name(commands[i].signature.prefix))
        } else {
            names_before(commands, i, module)
        },
{
    let here = spec_method_name(commands[i].signature.prefix);
    let next = names_before(commands, i + 1, module);
    let now = names_before(commands, i, module);
    assert forall|name: Seq<char>| next.contains(name) <==> (now.contains(name) || (
    commands[i].module_name == module && name == here)) by {
        if next.contains(name) {
            let j = choose|j: int|
                0 <= j < i + 1 && (#[trigger] commands[j]).module_name == module
                    && spec_method_name(commands[j].signature.prefix) == name;
            if j < i {
                assert(now.contains(name));
            }
        }
        if now.contains(name) {
            let j = choose|j: int|
                0 <= j < i && (#[trigger] commands[j]).module_name == module && spec_method_name(
                    commands[j].signature.prefix,
                ) == name;
            assert(0 <= j < i + 1);
        }
        if commands[i].module_name == module && name == here {
            assert(commands[i].module_name == module);
        }
    }
    if commands[i].module_name == module {
        assert(next =~= now.insert(here));
    } else {
        assert(next =~= now);
    }
}

/// A command's method is taken exactly when its name is among the names of
/// its module.
proof fn lemma_taken(commands: Seq<CommandView>, i: int)
    requires
        0 <= i < commands.len(),
    ensures
        taken_before(commands, i) == names_before(commands, i, commands[i].module_name).contains(
            spec_method_name(commands[i].signature.prefix),
        ),
{
    let here = spec_method_name(commands[i].signature.prefix);
    if taken_before(commands, i) {
        let j = choose|j: int| 0 <= j < i && same_method(#[trigger] commands[j], commands[i]);
        assert(commands[j].module_name == commands[i].module_name);
    }
    if names_before(commands, i, commands[i].module_name).contains(here) {
        let j = choose|j: int|
            0 <= j < i && (#[trigger] commands[j]).module_name == commands[i].module_name
                && spec_method_name(commands[j].signature.prefix) == here;
        assert(same_method(commands[j], commands[i]));
    }
}

/// Marks every command whose method an earlier command of the list has: the
/// first command of each method name of a module stays as it is, and every
/// later one of that module and name is a duplicate. Nothing else changes,
/// and commands of different modules never collide.
pub fn rename_duplicate_functions(v: &mut Vec<Command>)
    ensures
        final(v).deep_view() == renamed(old(v).deep_view()),
{
    let ghost before = v.deep_view();
    let mut mds = StringHashSet::new();
    let mut osd = StringHashSet::new();
    let mut pg = StringHashSet::new();
    let mut mon = StringHashSet::new();
    let mut auth = StringHashSet::new();
    let mut log = StringHashSet::new();
    let mut config_key = StringHashSet::new();
    let mut unknown = StringHashSet::new();
    let mut i: usize = 0;
    proof {
        assert(mds@ =~= names_before(before, 0, Module::Mds));
        assert(osd@ =~= names_before(before, 0, Module::Osd));
        assert(pg@ =~= names_before(before, 0, Module::Pg));
        assert(mon@ =~= names_before(before, 0, Module::Mon));
        assert(auth@ =~= names_before(before, 0, Module::Auth));
        assert(log@ =~= names_before(before, 0, Module::Log));
        assert(config_key@ =~= names_before(before, 0, Module::ConfigKey));
        assert(unknown@ =~= names_before(before, 0, Module::Unknown));
    }
    while i < v.len()
        invariant
            0 <= i <= v@.len(),
            v@.len() == before.len(),
            before == old(v).deep_view(),
            mds@ == names_before(before, i as int, Module::Mds),
            osd@ == names_before(before, i as int, Module::Osd),
            pg@ == names_before(before, i as int, Module::Pg),
            mon@ == names_before(before, i as int, Module::Mon),
            auth@ == names_before(before, i as int, Module::Auth),
            log@ == names_before(before, i as int, Module::Log),
            config_key@ == names_before(before, i as int, Module::ConfigKey),
            unknown@ == names_before(before, i as int, Module::Unknown),
            forall|k: int| i <= k < before.len() ==> (#[trigger] v.deep_view()[k]) == before[k],
            forall|k: int| 0 <= k < i ==> (#[trigger] v.deep_view()[k]) == renamed(before)[k],
        decreases v@.len() - i,
    {
        let ghost now = v.deep_view();
        assert(now[i as int] == before[i as int]);
        proof {
            lemma_taken(before, i as int);
            lemma_names_step(before, i as int, Module::Mds);
            lemma_names_step(before, i as int, Module::Osd);
            lemma_names_step(before, i as int, Module::Pg);
            lemma_names_step(before, i as int, Module::Mon);
            lemma_names_step(before, i as int, Module::Auth);
            lemma_names_step(before, i as int, Module::Log);
            lemma_names_step(before, i as int, Module::ConfigKey);
            lemma_names_step(before, i as int, Module::Unknown);
        }
        let prefix_method_name = method_name(v[i].signature.prefix.as_str());
        let fresh = match v[i].module_name {
            Module::Mds => mds.insert(prefix_method_name),
            Module::Osd => osd.insert(prefix_method_name),
            Module::Pg => pg.insert(prefix_method_name),
            Module::Mon => mon.insert(prefix_method_name),
            Module::Auth => auth.insert(prefix_method_name),
            Module::Log => log.insert(prefix_method_name),
            Module::ConfigKey => config_key.insert(prefix_method_name),
            Module::Unknown => unknown.insert(prefix_method_name),
        };
        if !fresh {
            v[i].signature.duplicate = true;
            proof {
                assert(v.deep_view()[i as int] == marked(before[i as int]));
                assert forall|k: int| 0 <= k < before.len() && k != i implies (
                #[trigger] v.deep_view()[k]) == now[k] by {}
            }
        }
        i += 1;
    }
    proof {
        assert(v.deep_view() =~= renamed(before));
    }
}

} // verus!
