//! What holds of the grammar as a whole.

use crate::param::spec_param_map;
use crate::rename::{renamed, same_method, taken_before};
use crate::signature::{
    described, is_descriptor, lemma_described_distinct, lemma_insert, prefix_words,
    signature_words, spec_clean, spec_signature,
};
use crate::text::{
    is_white, spec_join, spec_remove, spec_scan, spec_split, spec_words, stands_at,
};
use crate::types::{distinct_names, entries_map, CommandView};
use vstd::prelude::*;
use vstd::utf8::encode_utf8;

verus! {

/// Whether `word` is not empty, holds no white space, and holds only
/// characters of `x`.
pub open spec fn word_of(word: Seq<char>, x: Seq<char>) -> bool {
    &&& word.len() > 0
    &&& forall|k: int| 0 <= k < word.len() ==> !is_white(#[trigger] word[k]) && x.contains(word[k])
}

/// What a scan has found is made of words of the text, and the open word
/// holds no white space and only characters of the text.
proof fn lemma_scan_shape(x: Seq<char>)
    ensures
        forall|i: int| 0 <= i < spec_scan(x).0.len() ==> word_of(#[trigger] spec_scan(x).0[i], x),
        forall|k: int|
            0 <= k < spec_scan(x).1.len() ==> !is_white(#[trigger] spec_scan(x).1[k]) && x.contains(
                spec_scan(x).1[k],
            ),
    decreases x.len(),
{
    if x.len() > 0 {
        let init = x.drop_last();
        lemma_scan_shape(init);
        let (done, cur) = spec_scan(init);
        assert forall|c: char| init.contains(c) implies x.contains(c) by {
            let k = choose|k: int| 0 <= k < init.len() && init[k] == c;
            assert(x[k] == c);
        }
        assert(x.contains(x.last())) by {
            assert(x[x.len() - 1] == x.last());
        }
        assert forall|i: int| 0 <= i < spec_scan(x).0.len() implies word_of(
            #[trigger] spec_scan(x).0[i],
            x,
        ) by {
            if i < done.len() {
                assert(word_of(done[i], init));
            }
        }
    }
}

/// Every word of a text is not empty, holds no white space, and holds only
/// characters of the text.
pub proof fn lemma_words_shape(x: Seq<char>)
    ensures
        forall|i: int| 0 <= i < spec_words(x).len() ==> word_of(#[trigger] spec_words(x)[i], x),
{
    lemma_scan_shape(x);
}

/// Removing a pattern brings no new character in.
proof fn lemma_remove_subset(x: Seq<char>, pat: Seq<char>)
    ensures
        forall|c: char| spec_remove(x, pat).contains(c) ==> x.contains(c),
    decreases x.len(),
{
    if pat.len() == 0 || x.len() < pat.len() {
    } else if x.subrange(0, pat.len() as int) == pat {
        let t = x.skip(pat.len() as int);
        lemma_remove_subset(t, pat);
        assert forall|c: char| spec_remove(x, pat).contains(c) implies x.contains(c) by {
            assert(spec_remove(t, pat).contains(c));
            assert(t.contains(c));
            let k = choose|k: int| 0 <= k < t.len() && t[k] == c;
            assert(x[k + pat.len()] == c);
        }
    } else {
        let t = x.skip(1);
        lemma_remove_subset(t, pat);
        let r = spec_remove(t, pat);
        assert forall|c: char| spec_remove(x, pat).contains(c) implies x.contains(c) by {
            let k = choose|k: int| 0 <= k < spec_remove(x, pat).len() && spec_remove(x, pat)[k] == c;
            assert(spec_remove(x, pat) =~= seq![x[0]] + r);
            if k == 0 {
                assert(x[0] == c);
            } else {
                assert(spec_remove(x, pat) =~= seq![x[0]] + r);
                assert(r[k - 1] == c);
                assert(r.contains(c));
                assert(t.contains(c));
                let j = choose|j: int| 0 <= j < t.len() && t[j] == c;
                assert(x[j + 1] == c);
            }
        }
    }
}

/// Removing a character leaves none of it.
proof fn lemma_remove_char(x: Seq<char>, c: char)
    ensures
        !spec_remove(x, seq![c]).contains(c),
    decreases x.len(),
{
    let pat = seq![c];
    if x.len() < 1 {
    } else if x.subrange(0, 1) == pat {
        lemma_remove_char(x.skip(1), c);
    } else {
        lemma_remove_char(x.skip(1), c);
        let r = spec_remove(x.skip(1), pat);
        if spec_remove(x, pat).contains(c) {
            let k = choose|k: int| 0 <= k < spec_remove(x, pat).len() && spec_remove(x, pat)[k] == c;
            if k == 0 {
                assert(x.subrange(0, 1) =~= pat);
            } else {
                assert(r[k - 1] == c);
            }
        }
    }
}

/// Removing a pattern that stands nowhere changes nothing.
proof fn lemma_remove_absent(x: Seq<char>, pat: Seq<char>)
    requires
        forall|i: int| !stands_at(x, pat, i),
    ensures
        spec_remove(x, pat) == x,
    decreases x.len(),
{
    if pat.len() == 0 || x.len() < pat.len() {
    } else {
        assert(!stands_at(x, pat, 0));
        let t = x.skip(1);
        assert forall|i: int| !stands_at(t, pat, i) by {
            if stands_at(t, pat, i) {
                assert(t.subrange(i, i + pat.len()) =~= x.subrange(i + 1, i + 1 + pat.len()));
                assert(stands_at(x, pat, i + 1));
            }
        }
        lemma_remove_absent(t, pat);
        assert(seq![x[0]] + t =~= x);
    }
}

/// A character that a text does not hold is removed from it without a
/// change.
proof fn lemma_remove_absent_char(x: Seq<char>, c: char)
    requires
        !x.contains(c),
    ensures
        spec_remove(x, seq![c]) == x,
{
    assert forall|i: int| !stands_at(x, seq![c], i) by {
        if stands_at(x, seq![c], i) {
            assert(x.subrange(i, i + 1)[0] == c);
            assert(x[i] == c);
        }
    }
    lemma_remove_absent(x, seq![c]);
}

/// Scanning on through a stretch without white space lengthens the open
/// word by it.
proof fn lemma_scan_word(x: Seq<char>, word: Seq<char>)
    requires
        forall|k: int| 0 <= k < word.len() ==> !is_white(#[trigger] word[k]),
    ensures
        spec_scan(x + word) == (spec_scan(x).0, spec_scan(x).1 + word),
    decreases word.len(),
{
    if word.len() == 0 {
        assert(x + word =~= x);
        assert(spec_scan(x).1 + word =~= spec_scan(x).1);
    } else {
        let init = word.drop_last();
        lemma_scan_word(x, init);
        assert((x + word).drop_last() =~= x + init);
        assert((x + word).last() == word.last());
        assert(!is_white(word[word.len() - 1]));
        assert((spec_scan(x).1 + init).push(word.last()) =~= spec_scan(x).1 + word);
    }
}

/// Whether every word is not empty and holds no white space.
pub open spec fn plain_words(words: Seq<Seq<char>>) -> bool {
    forall|i: int|
        0 <= i < words.len() ==> (#[trigger] words[i]).len() > 0 && forall|k: int|
            0 <= k < words[i].len() ==> !is_white(#[trigger] words[i][k])
}

/// Joining words with single spaces and splitting the result gives the words
/// back.
pub proof fn lemma_words_of_join(words: Seq<Seq<char>>)
    requires
        plain_words(words),
    ensures
        words.len() > 0 ==> spec_scan(spec_join(words, ' ')) == (words.drop_last(), words.last()),
        spec_words(spec_join(words, ' ')) == words,
    decreases words.len(),
{
    if words.len() == 0 {
        assert(spec_words(spec_join(words, ' ')) =~= words);
    } else if words.len() == 1 {
        let word = words[0];
        assert(forall|k: int| 0 <= k < word.len() ==> !is_white(#[trigger] word[k]));
        lemma_scan_word(Seq::empty(), word);
        assert(Seq::<char>::empty() + word =~= word);
        assert(words.drop_last() =~= Seq::<Seq<char>>::empty());
        assert(spec_scan(word) == (Seq::<Seq<char>>::empty(), word));
        assert(Seq::<Seq<char>>::empty().push(word) =~= words);
    } else {
        let init = words.drop_last();
        let word = words.last();
        assert(plain_words(init)) by {
            assert forall|i: int| 0 <= i < init.len() implies (#[trigger] init[i]).len() > 0
                && forall|k: int| 0 <= k < init[i].len() ==> !is_white(#[trigger] init[i][k]) by {
                assert(init[i] == words[i]);
            }
        }
        lemma_words_of_join(init);
        let joined = spec_join(init, ' ');
        let spaced = joined.push(' ');
        assert(spaced.drop_last() =~= joined);
        assert(is_white(' '));
        assert(init.last().len() > 0) by {
            assert(init.last() == words[words.len() - 2]);
        }
        assert(spec_scan(spaced) == (init.drop_last().push(init.last()), Seq::<char>::empty()));
        assert(init.drop_last().push(init.last()) =~= init);
        assert(forall|k: int| 0 <= k < word.len() ==> !is_white(#[trigger] word[k])) by {
            assert(word == words[words.len() - 1]);
        }
        lemma_scan_word(spaced, word);
        assert(Seq::<char>::empty() + word =~= word);
        assert(word.len() > 0) by {
            assert(word == words[words.len() - 1]);
        }
        assert(init.push(word) =~= words);
    }
}

/// What joined words hold is a space or a character of one of the words,
/// no two spaces stand side by side, and the last character is no space.
proof fn lemma_join_shape(words: Seq<Seq<char>>)
    requires
        plain_words(words),
    ensures
        forall|c: char|
            spec_join(words, ' ').contains(c) ==> c == ' ' || exists|i: int|
                0 <= i < words.len() && (#[trigger] words[i]).contains(c),
        forall|i: int|
            0 <= i < spec_join(words, ' ').len() - 1 ==> !(#[trigger] spec_join(words, ' ')[i] == ' '
                && spec_join(words, ' ')[i + 1] == ' '),
        spec_join(words, ' ').len() > 0 ==> spec_join(words, ' ').last() != ' ',
        words.len() > 0 ==> spec_join(words, ' ').len() > 0,
    decreases words.len(),
{
    let r = spec_join(words, ' ');
    assert(is_white(' '));
    if words.len() == 0 {
    } else if words.len() == 1 {
        let word = words[0];
        assert forall|c: char| r.contains(c) implies c == ' ' || exists|i: int|
            0 <= i < words.len() && (#[trigger] words[i]).contains(c) by {
            assert(words[0].contains(c));
        }
        assert forall|i: int| 0 <= i < r.len() implies r[i] != ' ' by {
            assert(!is_white(word[i]));
        }
    } else {
        let init = words.drop_last();
        let word = words.last();
        assert(word == words[words.len() - 1]);
        assert(plain_words(init)) by {
            assert forall|i: int| 0 <= i < init.len() implies (#[trigger] init[i]).len() > 0
                && forall|k: int| 0 <= k < init[i].len() ==> !is_white(#[trigger] init[i][k]) by {
                assert(init[i] == words[i]);
            }
        }
        lemma_join_shape(init);
        let r0 = spec_join(init, ' ');
        assert(r =~= r0.push(' ') + word);
        assert forall|k: int| 0 <= k < word.len() implies word[k] != ' ' by {
            assert(!is_white(word[k]));
        }
        assert forall|c: char| r.contains(c) implies c == ' ' || exists|i: int|
            0 <= i < words.len() && (#[trigger] words[i]).contains(c) by {
            let k = choose|k: int| 0 <= k < r.len() && r[k] == c;
            if k < r0.len() {
                assert(r0[k] == c);
                assert(r0.contains(c));
                if c != ' ' {
                    let i = choose|i: int| 0 <= i < init.len() && (#[trigger] init[i]).contains(c);
                    assert(words[i] == init[i]);
                }
            } else if k == r0.len() {
            } else {
                assert(word[k - r0.len() - 1] == c);
                assert(words[words.len() - 1].contains(c));
            }
        }
        assert forall|i: int| 0 <= i < r.len() - 1 implies !(#[trigger] r[i] == ' ' && r[i + 1]
            == ' ') by {
            if i < r0.len() - 1 {
                assert(r[i] == r0[i] && r[i + 1] == r0[i + 1]);
            } else if i == r0.len() - 1 {
                assert(r[i] == r0.last());
            } else if i == r0.len() {
                assert(r[i + 1] == word[0]);
            } else {
                assert(r[i] == word[i - r0.len() - 1]);
            }
        }
        assert(r.last() == word[word.len() - 1]);
    }
}

/// The words that describe a parameter, in order.
pub open spec fn descriptor_words(words: Seq<Seq<char>>) -> Seq<Seq<char>>
    decreases words.len(),
{
    if words.len() == 0 {
        Seq::empty()
    } else if is_descriptor(words.last()) {
        descriptor_words(words.drop_last()).push(words.last())
    } else {
        descriptor_words(words.drop_last())
    }
}

/// Sorting the words of two lists into literal words and descriptors can be
/// done list by list.
proof fn lemma_sorting_add(a: Seq<Seq<char>>, b: Seq<Seq<char>>)
    ensures
        prefix_words(a + b) == prefix_words(a) + prefix_words(b),
        descriptor_words(a + b) == descriptor_words(a) + descriptor_words(b),
    decreases b.len(),
{
    if b.len() == 0 {
        assert(a + b =~= a);
        assert(prefix_words(a) + prefix_words(b) =~= prefix_words(a));
        assert(descriptor_words(a) + descriptor_words(b) =~= descriptor_words(a));
    } else {
        lemma_sorting_add(a, b.drop_last());
        assert((a + b).drop_last() =~= a + b.drop_last());
        assert((a + b).last() == b.last());
        if is_descriptor(b.last()) {
            assert((descriptor_words(a) + descriptor_words(b.drop_last())).push(b.last())
                =~= descriptor_words(a) + descriptor_words(b));
        } else {
            assert((prefix_words(a) + prefix_words(b.drop_last())).push(b.last()) =~= prefix_words(
                a,
            ) + prefix_words(b));
        }
    }
}

/// The literal words of a list are words of the list and no descriptors;
/// its descriptors are words of the list and descriptors.
proof fn lemma_sorted_members(words: Seq<Seq<char>>)
    ensures
        forall|i: int|
            0 <= i < prefix_words(words).len() ==> !is_descriptor(#[trigger] prefix_words(words)[i])
                && words.contains(prefix_words(words)[i]),
        forall|i: int|
            0 <= i < descriptor_words(words).len() ==> is_descriptor(
                #[trigger] descriptor_words(words)[i],
            ) && words.contains(descriptor_words(words)[i]),
    decreases words.len(),
{
    if words.len() > 0 {
        let init = words.drop_last();
        lemma_sorted_members(init);
        assert forall|w: Seq<char>| init.contains(w) implies words.contains(w) by {
            let k = choose|k: int| 0 <= k < init.len() && init[k] == w;
            assert(words[k] == w);
        }
        assert(words.contains(words.last())) by {
            assert(words[words.len() - 1] == words.last());
        }
        assert forall|i: int| 0 <= i < prefix_words(words).len() implies !is_descriptor(
            #[trigger] prefix_words(words)[i],
        ) && words.contains(prefix_words(words)[i]) by {
            if i < prefix_words(init).len() {
                assert(prefix_words(words)[i] == prefix_words(init)[i]);
            }
        }
        assert forall|i: int| 0 <= i < descriptor_words(words).len() implies is_descriptor(
            #[trigger] descriptor_words(words)[i],
        ) && words.contains(descriptor_words(words)[i]) by {
            if i < descriptor_words(init).len() {
                assert(descriptor_words(words)[i] == descriptor_words(init)[i]);
            }
        }
    }
}

/// A list without descriptors is its own list of literal words and has no
/// descriptors.
proof fn lemma_all_literal(words: Seq<Seq<char>>)
    requires
        forall|i: int| 0 <= i < words.len() ==> !is_descriptor(#[trigger] words[i]),
    ensures
        prefix_words(words) == words,
        descriptor_words(words) == Seq::<Seq<char>>::empty(),
    decreases words.len(),
{
    if words.len() > 0 {
        let init = words.drop_last();
        assert forall|i: int| 0 <= i < init.len() implies !is_descriptor(#[trigger] init[i]) by {
            assert(init[i] == words[i]);
        }
        lemma_all_literal(init);
        assert(!is_descriptor(words[words.len() - 1]));
        assert(init.push(words.last()) =~= words);
    } else {
        assert(prefix_words(words) =~= words);
    }
}

/// A list of descriptors is its own list of descriptors and has no literal
/// words.
proof fn lemma_all_descriptors(words: Seq<Seq<char>>)
    requires
        forall|i: int| 0 <= i < words.len() ==> is_descriptor(#[trigger] words[i]),
    ensures
        descriptor_words(words) == words,
        prefix_words(words) == Seq::<Seq<char>>::empty(),
    decreases words.len(),
{
    if words.len() > 0 {
        let init = words.drop_last();
        assert forall|i: int| 0 <= i < init.len() implies is_descriptor(#[trigger] init[i]) by {
            assert(init[i] == words[i]);
        }
        lemma_all_descriptors(init);
        assert(is_descriptor(words[words.len() - 1]));
        assert(init.push(words.last()) =~= words);
    } else {
        assert(descriptor_words(words) =~= words);
    }
}

/// The parameters of a list of words are those of its descriptors alone.
proof fn lemma_described_by_descriptors(words: Seq<Seq<char>>)
    ensures
        described(words) == described(descriptor_words(words)),
    decreases words.len(),
{
    if words.len() > 0 {
        let init = words.drop_last();
        lemma_described_by_descriptors(init);
        if is_descriptor(words.last()) {
            assert(descriptor_words(words).drop_last() =~= descriptor_words(init));
        }
    }
}

/// The text that a signature is written back as: its literal words and
/// then its descriptors, word for word, with single spaces between them.
pub open spec fn rendering(s: Seq<char>) -> Seq<char> {
    spec_join(prefix_words(signature_words(s)) + descriptor_words(signature_words(s)), ' ')
}

/// The cleaned text of a signature holds neither a backslash nor a quote.
proof fn lemma_clean_shape(s: Seq<char>)
    ensures
        !spec_clean(s).contains('\\'),
        !spec_clean(s).contains('"'),
{
    reveal_strlit("\\");
    reveal_strlit("\"");
    assert("\\"@ =~= seq!['\\']);
    assert("\""@ =~= seq!['"']);
    let c1 = spec_remove(s, seq!['\\']);
    let c2 = spec_remove(c1, seq!['"']);
    let c3 = spec_remove(c2, "\n"@);
    lemma_remove_char(s, '\\');
    lemma_remove_char(c1, '"');
    lemma_remove_subset(c1, seq!['"']);
    lemma_remove_subset(c2, "\n"@);
    lemma_remove_subset(c3, "    "@);
}

/// Words made of the characters of a cleaned text and joined by single
/// spaces are read back, as the words of a signature, as they are.
proof fn lemma_words_read_back(cleaned: Seq<char>, words: Seq<Seq<char>>)
    requires
        !cleaned.contains('\\'),
        !cleaned.contains('"'),
        forall|i: int| 0 <= i < words.len() ==> word_of(#[trigger] words[i], cleaned),
    ensures
        signature_words(spec_join(words, ' ')) == words,
{
    reveal_strlit("\\");
    reveal_strlit("\"");
    reveal_strlit("\n");
    reveal_strlit("    ");
    assert("\\"@ =~= seq!['\\']);
    assert("\""@ =~= seq!['"']);
    assert("\n"@ =~= seq!['\n']);
    assert(plain_words(words)) by {
        assert forall|i: int| 0 <= i < words.len() implies (#[trigger] words[i]).len() > 0
            && forall|k: int| 0 <= k < words[i].len() ==> !is_white(#[trigger] words[i][k]) by {
            assert(word_of(words[i], cleaned));
        }
    }
    // Cleaning the joined words changes nothing.
    let r = spec_join(words, ' ');
    lemma_join_shape(words);
    assert(is_white('\n'));
    assert forall|c: char| c == '\\' || c == '"' || c == '\n' implies !r.contains(c) by {
        if r.contains(c) {
            let i = choose|i: int| 0 <= i < words.len() && (#[trigger] words[i]).contains(c);
            assert(word_of(words[i], cleaned));
            let k = choose|k: int| 0 <= k < words[i].len() && words[i][k] == c;
            assert(!is_white(words[i][k]) && cleaned.contains(words[i][k]));
        }
    }
    lemma_remove_absent_char(r, '\\');
    lemma_remove_absent_char(r, '"');
    lemma_remove_absent_char(r, '\n');
    assert forall|i: int| !stands_at(r, "    "@, i) by {
        if stands_at(r, "    "@, i) {
            let piece = r.subrange(i, i + 4);
            assert(piece[0] == ' ' && piece[1] == ' ');
            assert(r[i] == ' ' && r[i + 1] == ' ');
        }
    }
    lemma_remove_absent(r, "    "@);
    assert(spec_clean(r) == r);
    // And its words are the words.
    lemma_words_of_join(words);
}

/// Reading a signature, writing it back as its prefix followed by its
/// parameter descriptors, and reading that again gives the same prefix and
/// the same parameters.
pub proof fn law_signature_round_trip(s: Seq<char>)
    ensures
        spec_signature(rendering(s)).prefix == spec_signature(s).prefix,
        spec_signature(rendering(s)).parameters == spec_signature(s).parameters,
{
    let cleaned = spec_clean(s);
    let words = signature_words(s);
    let literal = prefix_words(words);
    let descriptors = descriptor_words(words);
    let sorted = literal + descriptors;
    // The sorted words are words of the cleaned text.
    lemma_clean_shape(s);
    lemma_words_shape(cleaned);
    lemma_sorted_members(words);
    assert forall|i: int| 0 <= i < sorted.len() implies word_of(#[trigger] sorted[i], cleaned) by {
        let w = sorted[i];
        assert(words.contains(w)) by {
            if i < literal.len() {
                assert(w == literal[i]);
            } else {
                assert(w == descriptors[i - literal.len()]);
            }
        }
        let k = choose|k: int| 0 <= k < words.len() && words[k] == w;
        assert(word_of(words[k], cleaned));
    }
    // So the words of the rendering are the sorted words.
    lemma_words_read_back(cleaned, sorted);
    // Sorting the sorted words changes nothing.
    lemma_sorting_add(literal, descriptors);
    lemma_all_literal(literal);
    lemma_all_descriptors(descriptors);
    assert(prefix_words(sorted) =~= literal);
    assert(descriptor_words(sorted) =~= descriptors);
    lemma_described_by_descriptors(sorted);
    lemma_described_by_descriptors(words);
}

/// Reading a signature, writing its words back in their own order with
/// single spaces between them, and reading that again gives the same prefix
/// and the same parameters.
pub proof fn law_signature_words_round_trip(s: Seq<char>)
    ensures
        spec_signature(spec_join(signature_words(s), ' ')).prefix == spec_signature(s).prefix,
        spec_signature(spec_join(signature_words(s), ' ')).parameters == spec_signature(
            s,
        ).parameters,
{
    lemma_clean_shape(s);
    lemma_words_shape(spec_clean(s));
    lemma_words_read_back(spec_clean(s), signature_words(s));
}

/// No parameter name occurs twice in a signature, and of the types that the
/// descriptors of a signature give to one name, the last one counts: a
/// descriptor that can be read puts its type under its name, whatever stood
/// there, and changes nothing else.
pub proof fn law_last_descriptor_counts(words: Seq<Seq<char>>, word: Seq<char>)
    requires
        is_descriptor(word),
        spec_param_map(encode_utf8(word)) is Ok,
    ensures
        distinct_names(described(words.push(word))),
        entries_map(described(words.push(word))) == entries_map(described(words)).insert(
            spec_param_map(encode_utf8(word))->Ok_0.1.0,
            spec_param_map(encode_utf8(word))->Ok_0.1.1,
        ),
{
    assert(words.push(word).drop_last() =~= words);
    lemma_described_distinct(words);
    let (name, ceph_type) = spec_param_map(encode_utf8(word))->Ok_0.1;
    lemma_insert(described(words), name, ceph_type);
}

/// Lengthening the last of the joined words lengthens the text.
proof fn lemma_join_push(words: Seq<Seq<char>>, sep: char, c: char)
    requires
        words.len() > 0,
    ensures
        spec_join(words.drop_last().push(words.last().push(c)), sep) == spec_join(words, sep).push(
            c,
        ),
{
    let longer = words.drop_last().push(words.last().push(c));
    assert(longer.drop_last() =~= words.drop_last());
    assert(longer.last() == words.last().push(c));
    if words.len() == 1 {
        assert(longer[0] == words[0].push(c));
    } else {
        assert(spec_join(words.drop_last(), sep).push(sep) + words.last().push(c) =~= (spec_join(
            words.drop_last(),
            sep,
        ).push(sep) + words.last()).push(c));
    }
}

/// Splitting a text at a separator and joining the pieces with the
/// separator gives the text back: a list of choices is kept as it is written,
/// whatever characters the choices hold.
pub proof fn law_split_round_trip(s: Seq<char>, sep: char)
    ensures
        spec_split(s, sep).len() > 0,
        spec_join(spec_split(s, sep), sep) == s,
    decreases s.len(),
{
    if s.len() == 0 {
        assert(spec_split(s, sep)[0] =~= s);
    } else {
        let init = s.drop_last();
        law_split_round_trip(init, sep);
        let before = spec_split(init, sep);
        if s.last() == sep {
            let pieces = before.push(Seq::empty());
            assert(pieces.drop_last() =~= before);
            assert(spec_join(before, sep).push(sep) + Seq::<char>::empty() =~= init.push(sep));
        } else {
            lemma_join_push(before, sep, s.last());
        }
        assert(init.push(s.last()) =~= s);
    }
}

/// Of two commands of one list that belong to the same module and have the
/// same method name, the later one is a duplicate after the pass, and the
/// earlier one, where it is the first of that name in its module and was no
/// duplicate before, is none after it.
pub proof fn law_second_of_a_name_is_duplicate(commands: Seq<CommandView>, i: int, j: int)
    requires
        0 <= i < j < commands.len(),
        same_method(commands[i], commands[j]),
        !taken_before(commands, i),
        !commands[i].signature.duplicate,
    ensures
        renamed(commands)[j].signature.duplicate,
        !renamed(commands)[i].signature.duplicate,
{
    assert(taken_before(commands, j));
}

/// Commands of different modules do not make each other duplicates: a
/// command that is the only one of its module in the list stays as it is.
pub proof fn law_modules_do_not_collide(commands: Seq<CommandView>, i: int)
    requires
        0 <= i < commands.len(),
        forall|j: int|
            0 <= j < commands.len() && j != i ==> (#[trigger] commands[j]).module_name
                != commands[i].module_name,
    ensures
        renamed(commands)[i] == commands[i],
{
}

} // verus!
