//! The signature of a command: the text of its first field is cleaned,
//! split into words, and each word is either a literal word of the prefix or
//! the descriptor of a parameter.

use crate::bytes::str_eq;
use crate::param::{parse_param_map, spec_param_map};
use crate::text::{
    chars_of, contains, join, remove, spec_contains, spec_join, spec_remove, spec_words, words,
};
use crate::types::{
    distinct_names, entries_map, CephType, CephTypeView, Signature, SignatureView,
};
use vstd::prelude::*;
use vstd::utf8::encode_utf8;

verus! {

/// The text of a signature without what only holds its pieces together in
/// the source: backslashes, quotes, line feeds, and runs of four spaces, taken
/// out in this order.
pub open spec fn spec_clean(s: Seq<char>) -> Seq<char> {
    spec_remove(spec_remove(spec_remove(spec_remove(s, "\\"@), "\""@), "\n"@), "    "@)
}

/// The words of a signature.
pub open spec fn signature_words(s: Seq<char>) -> Seq<Seq<char>> {
    spec_words(spec_clean(s))
}

/// Whether a word describes a parameter: it does when `name=` stands in it.
pub open spec fn is_descriptor(word: Seq<char>) -> bool {
    spec_contains(word, "name="@)
}

/// The words that describe no parameter, in order.
pub open spec fn prefix_words(words: Seq<Seq<char>>) -> Seq<Seq<char>>
    decreases words.len(),
{
    if words.len() == 0 {
        Seq::empty()
    } else if is_descriptor(words.last()) {
        prefix_words(words.drop_last())
    } else {
        prefix_words(words.drop_last()).push(words.last())
    }
}

/// Whether `i` is the first place in the list at which `name` stands.
pub open spec fn is_first_with_name(
    entries: Seq<(Seq<char>, CephTypeView)>,
    name: Seq<char>,
    i: int,
) -> bool {
    &&& 0 <= i < entries.len()
    &&& entries[i].0 == name
    &&& forall|j: int| 0 <= j < i ==> (#[trigger] entries[j]).0 != name
}

/// The first place in the list at which `name` stands, if it stands
/// anywhere.
pub open spec fn first_with_name(entries: Seq<(Seq<char>, CephTypeView)>, name: Seq<char>) -> Option<
    int,
> {
    if exists|i: int| is_first_with_name(entries, name, i) {
        Some(choose|i: int| is_first_with_name(entries, name, i))
    } else {
        None
    }
}

/// The list with a parameter put into it: under a name that is there
/// already the type is replaced, where the name stands, and a new name goes to
/// the end.
pub open spec fn spec_insert(
    entries: Seq<(Seq<char>, CephTypeView)>,
    name: Seq<char>,
    ceph_type: CephTypeView,
) -> Seq<(Seq<char>, CephTypeView)> {
    match first_with_name(entries, name) {
        Some(i) => entries.update(i, (name, ceph_type)),
        None => entries.push((name, ceph_type)),
    }
}

/// The parameters with one more word taken in. A word that is no descriptor
/// changes nothing, and neither does a descriptor that cannot be read. What
/// a descriptor leaves unread does not count against it. A name that was
/// there already gets the new type.
pub open spec fn with_word(
    parameters: Seq<(Seq<char>, CephTypeView)>,
    word: Seq<char>,
) -> Seq<(Seq<char>, CephTypeView)> {
    if is_descriptor(word) {
        match spec_param_map(encode_utf8(word)) {
            Ok((_, (name, ceph_type))) => spec_insert(parameters, name, ceph_type),
            Err(_) => parameters,
        }
    } else {
        parameters
    }
}

/// The parameters that the words describe, in the order in which their names
/// first appear.
pub open spec fn described(words: Seq<Seq<char>>) -> Seq<(Seq<char>, CephTypeView)>
    decreases words.len(),
{
    if words.len() == 0 {
        Seq::empty()
    } else {
        with_word(described(words.drop_last()), words.last())
    }
}

/// Whether a word is a descriptor that cannot be read.
pub open spec fn is_dropped(word: Seq<char>) -> bool {
    is_descriptor(word) && spec_param_map(encode_utf8(word)) is Err
}

/// The descriptors among the words that cannot be read, in order: the
/// parameters that a signature leaves out.
pub open spec fn dropped_words(words: Seq<Seq<char>>) -> Seq<Seq<char>>
    decreases words.len(),
{
    if words.len() == 0 {
        Seq::empty()
    } else if is_dropped(words.last()) {
        dropped_words(words.drop_last()).push(words.last())
    } else {
        dropped_words(words.drop_last())
    }
}

/// The signature that the text of a command's first field describes: the
/// prefix is the literal words joined by single spaces, in their order, and
/// the parameters are those of the descriptors that can be read.
pub open spec fn spec_signature(s: Seq<char>) -> SignatureView {
    SignatureView {
        prefix: spec_join(prefix_words(signature_words(s)), ' '),
        duplicate: false,
        parameters: described(signature_words(s)),
    }
}

/// There is at most one first place of a name.
pub proof fn lemma_first_with_name_is(
    entries: Seq<(Seq<char>, CephTypeView)>,
    name: Seq<char>,
    i: int,
)
    requires
        is_first_with_name(entries, name, i),
    ensures
        first_with_name(entries, name) == Some(i),
{
    let k = choose|k: int| is_first_with_name(entries, name, k);
    if k < i {
        assert(entries[k].0 != name);
    }
    if i < k {
        assert(entries[i].0 != name);
    }
}

/// A name that no entry has has no first place.
pub proof fn lemma_first_with_name_none(entries: Seq<(Seq<char>, CephTypeView)>, name: Seq<char>)
    requires
        forall|j: int| 0 <= j < entries.len() ==> (#[trigger] entries[j]).0 != name,
    ensures
        first_with_name(entries, name) is None,
{
}

/// A list with one more entry stands for the map with one more insertion.
pub proof fn lemma_entries_map_push(
    entries: Seq<(Seq<char>, CephTypeView)>,
    entry: (Seq<char>, CephTypeView),
)
    ensures
        entries_map(entries.push(entry)) == entries_map(entries).insert(entry.0, entry.1),
{
    assert(entries.push(entry).drop_last() =~= entries);
}

/// Where no name occurs twice, giving an entry a new type is an insertion
/// under its name.
pub proof fn lemma_entries_map_update(
    entries: Seq<(Seq<char>, CephTypeView)>,
    i: int,
    ceph_type: CephTypeView,
)
    requires
        distinct_names(entries),
        0 <= i < entries.len(),
    ensures
        entries_map(entries.update(i, (entries[i].0, ceph_type))) == entries_map(entries).insert(
            entries[i].0,
            ceph_type,
        ),
        distinct_names(entries.update(i, (entries[i].0, ceph_type))),
    decreases entries.len(),
{
    let name = entries[i].0;
    let updated = entries.update(i, (name, ceph_type));
    let init = entries.drop_last();
    assert forall|a: int, b: int| 0 <= a < b < updated.len() implies (#[trigger] updated[a]).0 != (
    #[trigger] updated[b]).0 by {
        assert(entries[a].0 != entries[b].0);
    }
    if i == entries.len() - 1 {
        assert(updated.drop_last() =~= init);
        assert(entries_map(updated) =~= entries_map(entries).insert(name, ceph_type));
    } else {
        assert forall|a: int, b: int| 0 <= a < b < init.len() implies (#[trigger] init[a]).0 != (
        #[trigger] init[b]).0 by {
            assert(entries[a].0 != entries[b].0);
        }
        lemma_entries_map_update(init, i, ceph_type);
        assert(updated.drop_last() =~= init.update(i, (name, ceph_type)));
        assert(entries.last().0 != entries[i].0);
        assert(entries_map(updated) =~= entries_map(entries).insert(name, ceph_type));
    }
}

/// The last entry under a name is what the map holds under that name.
pub proof fn lemma_entries_map_last(
    entries: Seq<(Seq<char>, CephTypeView)>,
    k: int,
    name: Seq<char>,
)
    requires
        0 <= k < entries.len(),
        entries[k].0 == name,
        forall|j: int| k < j < entries.len() ==> (#[trigger] entries[j]).0 != name,
    ensures
        entries_map(entries).contains_key(name),
        entries_map(entries)[name] == entries[k].1,
    decreases entries.len(),
{
    if k < entries.len() - 1 {
        let init = entries.drop_last();
        assert forall|j: int| k < j < init.len() implies (#[trigger] init[j]).0 != name by {
            assert(init[j] == entries[j]);
        }
        lemma_entries_map_last(init, k, name);
        assert(entries[entries.len() - 1].0 != name);
    }
}

/// A name that no entry has is no key of the map.
pub proof fn lemma_entries_map_absent(entries: Seq<(Seq<char>, CephTypeView)>, name: Seq<char>)
    requires
        forall|j: int| 0 <= j < entries.len() ==> (#[trigger] entries[j]).0 != name,
    ensures
        !entries_map(entries).contains_key(name),
    decreases entries.len(),
{
    if entries.len() > 0 {
        let init = entries.drop_last();
        assert forall|j: int| 0 <= j < init.len() implies (#[trigger] init[j]).0 != name by {
            assert(init[j] == entries[j]);
        }
        lemma_entries_map_absent(init, name);
        assert(entries[entries.len() - 1].0 != name);
    }
}

/// Putting a parameter into a list in which no name occurs twice leaves
/// such a list, and is an insertion into the map that the list stands for:
/// of the types given to one name, the last one counts.
pub proof fn lemma_insert(
    entries: Seq<(Seq<char>, CephTypeView)>,
    name: Seq<char>,
    ceph_type: CephTypeView,
)
    requires
        distinct_names(entries),
    ensures
        distinct_names(spec_insert(entries, name, ceph_type)),
        entries_map(spec_insert(entries, name, ceph_type)) == entries_map(entries).insert(
            name,
            ceph_type,
        ),
{
    match first_with_name(entries, name) {
        Some(i) => {
            assert(is_first_with_name(entries, name, i));
            lemma_entries_map_update(entries, i, ceph_type);
        },
        None => {
            lemma_entries_map_push(entries, (name, ceph_type));
            let longer = entries.push((name, ceph_type));
            assert forall|a: int, b: int| 0 <= a < b < longer.len() implies (#[trigger] longer[a]).0
                != (#[trigger] longer[b]).0 by {
                if b == entries.len() {
                    if entries[a].0 == name {
                        lemma_some_first(entries, name, a);
                    }
                } else {
                    assert(entries[a].0 != entries[b].0);
                }
            }
        },
    }
}

/// A name that stands somewhere has a first place.
proof fn lemma_some_first(entries: Seq<(Seq<char>, CephTypeView)>, name: Seq<char>, k: int)
    requires
        0 <= k < entries.len(),
        entries[k].0 == name,
    ensures
        first_with_name(entries, name) is Some,
    decreases k,
{
    if forall|j: int| 0 <= j < k ==> (#[trigger] entries[j]).0 != name {
        assert(is_first_with_name(entries, name, k));
    } else {
        let j = choose|j: int| 0 <= j < k && (#[trigger] entries[j]).0 == name;
        lemma_some_first(entries, name, j);
    }
}

/// No name occurs twice among the parameters that words describe.
pub proof fn lemma_described_distinct(words: Seq<Seq<char>>)
    ensures
        distinct_names(described(words)),
    decreases words.len(),
{
    if words.len() > 0 {
        lemma_described_distinct(words.drop_last());
        let before = described(words.drop_last());
        if is_descriptor(words.last()) {
            if let Ok((_, (name, ceph_type))) = spec_param_map(encode_utf8(words.last())) {
                lemma_insert(before, name, ceph_type);
            }
        }
    }
}

/// Puts a parameter into the list: under a name that is there already the
/// type is replaced, and a new name goes to the end.
pub fn insert(parameters: &mut Vec<(String, CephType)>, name: String, ceph_type: CephType)
    ensures
        final(parameters).deep_view() == spec_insert(
            old(parameters).deep_view(),
            name@,
            ceph_type.deep_view(),
        ),
{
    let ghost before = parameters.deep_view();
    let mut i: usize = 0;
    while i < parameters.len()
        invariant
            0 <= i <= parameters@.len(),
            parameters.deep_view() == before,
            before == old(parameters).deep_view(),
            forall|j: int| 0 <= j < i ==> (#[trigger] before[j]).0 != name@,
        decreases parameters@.len() - i,
    {
        if str_eq(parameters[i].0.as_str(), name.as_str()) {
            proof {
                lemma_first_with_name_is(before, name@, i as int);
            }
            parameters[i] = (name, ceph_type);
            proof {
                assert(parameters.deep_view() =~= before.update(
                    i as int,
                    (name@, ceph_type.deep_view()),
                ));
            }
            return ;
        }
        i += 1;
    }
    proof {
        lemma_first_with_name_none(before, name@);
    }
    parameters.push((name, ceph_type));
    proof {
        assert(parameters.deep_view() =~= before.push((name@, ceph_type.deep_view())));
    }
}

/// Splits the text of a command's first field into its words.
fn parts_of(input: &str) -> (r: Vec<String>)
    ensures
        r.deep_view() == signature_words(input@),
{
    let raw = chars_of(input);
    let cleaned = remove(&remove(&remove(&remove(&raw, "\\"), "\""), "\n"), "    ");
    words(&cleaned)
}

impl Signature {
    /// The descriptors in the text of a command's first field that cannot be
    /// read, in order. [`Signature::parse`] leaves their parameters out
    /// without a word; this names them, for whoever wants to report them.
    pub fn dropped(input: &str) -> (r: Vec<String>)
        ensures
            r.deep_view() == dropped_words(signature_words(input@)),
    {
        let parts = parts_of(input);
        let mut out: Vec<String> = Vec::new();
        let mut i: usize = 0;
        while i < parts.len()
            invariant
                0 <= i <= parts@.len(),
                out.deep_view() == dropped_words(parts.deep_view().take(i as int)),
            decreases parts@.len() - i,
        {
            proof {
                assert(parts.deep_view().take(i + 1).drop_last() =~= parts.deep_view().take(
                    i as int,
                ));
            }
            let part = parts[i].as_str();
            if contains(part, "name=") && parse_param_map(part.as_bytes()).is_err() {
                let ghost before = out.deep_view();
                out.push(part.to_owned());
                proof {
                    assert(out.deep_view() =~= before.push(part@));
                }
            }
            i += 1;
        }
        proof {
            assert(parts.deep_view().take(parts@.len() as int) =~= parts.deep_view());
        }
        out
    }

    /// The type of the parameter `name`, where the signature has a parameter
    /// of that name.
    pub fn get(&self, name: &str) -> (r: Option<&CephType>)
        ensures
            match r {
                Some(ceph_type) => self.deep_view().map().contains_key(name@)
                    && self.deep_view().map()[name@] == ceph_type.deep_view(),
                None => !self.deep_view().map().contains_key(name@),
            },
    {
        let ghost entries = self.parameters.deep_view();
        let mut i: usize = self.parameters.len();
        while i > 0
            invariant
                0 <= i <= self.parameters@.len(),
                entries == self.parameters.deep_view(),
                forall|j: int| i <= j < entries.len() ==> (#[trigger] entries[j]).0 != name@,
            decreases i,
        {
            i -= 1;
            if str_eq(self.parameters[i].0.as_str(), name) {
                proof {
                    lemma_entries_map_last(entries, i as int, name@);
                }
                return Some(&self.parameters[i].1);
            }
        }
        proof {
            lemma_entries_map_absent(entries, name@);
        }
        None
    }

    /// Reads the text of a command's first field.
    pub fn parse(input: &str) -> (r: Signature)
        ensures
            r.deep_view() == spec_signature(input@),
            r.wf(),
    {
        let parts = parts_of(input);
        let mut prefix: Vec<String> = Vec::new();
        let mut parameters: Vec<(String, CephType)> = Vec::new();
        let mut i: usize = 0;
        while i < parts.len()
            invariant
                0 <= i <= parts@.len(),
                prefix.deep_view() == prefix_words(parts.deep_view().take(i as int)),
                parameters.deep_view() == described(parts.deep_view().take(i as int)),
            decreases parts@.len() - i,
        {
            proof {
                assert(parts.deep_view().take(i + 1).drop_last() =~= parts.deep_view().take(
                    i as int,
                ));
            }
            let part = parts[i].as_str();
            if contains(part, "name=") {
                match parse_param_map(part.as_bytes()) {
                    Ok((_, (name, ceph_type))) => {
                        insert(&mut parameters, name, ceph_type);
                    },
                    Err(_) => {},
                }
            } else {
                let ghost before = prefix.deep_view();
                prefix.push(part.to_owned());
                proof {
                    assert(prefix.deep_view() =~= before.push(part@));
                }
            }
            i += 1;
        }
        proof {
            assert(parts.deep_view().take(parts@.len() as int) =~= parts.deep_view());
            lemma_described_distinct(parts.deep_view());
        }
        Signature { prefix: join(&prefix, ' '), duplicate: false, parameters }
    }
}

} // verus!
