//! Operations on text, character by character.

use vstd::prelude::*;

verus! {

/// `String::push`: appends one character to the end of the string.
pub assume_specification[ String::push ](s: &mut String, ch: char)
    ensures
        final(s)@ == old(s)@.push(ch),
;

/// The pieces of `s` between the occurrences of `sep`, in order. There is
/// always one piece more than there are separators, so a text without one is
/// its own single piece, and pieces may be empty.
pub open spec fn spec_split(s: Seq<char>, sep: char) -> Seq<Seq<char>>
    decreases s.len(),
{
    if s.len() == 0 {
        seq![Seq::empty()]
    } else {
        let before = spec_split(s.drop_last(), sep);
        if s.last() == sep {
            before.push(Seq::empty())
        } else {
            before.drop_last().push(before.last().push(s.last()))
        }
    }
}

/// Splits `s` at every occurrence of `sep`.
pub fn split(s: &str, sep: char) -> (r: Vec<String>)
    ensures
        r.deep_view() == spec_split(s@, sep),
{
    let mut pieces: Vec<String> = Vec::new();
    let mut cur: String = String::new();
    for c in it: s.chars()
        invariant
            it.seq() == s@,
            pieces.deep_view().push(cur@) == spec_split(it.seq().take(it.index() as int), sep),
    {
        proof {
            let i = it.index() as int;
            assert(it.seq().take(i + 1).drop_last() =~= it.seq().take(i));
            assert(pieces.deep_view().push(cur@).drop_last() =~= pieces.deep_view());
        }
        if c == sep {
            let ghost before = pieces.deep_view();
            pieces.push(cur);
            cur = String::new();
            proof {
                assert(pieces.deep_view() =~= before.push(pieces@[pieces@.len() - 1]@));
            }
        } else {
            cur.push(c);
        }
    }
    proof {
        assert(s@.take(s@.len() as int) =~= s@);
    }
    let ghost before = pieces.deep_view();
    let ghost last = cur@;
    pieces.push(cur);
    proof {
        assert(pieces.deep_view() =~= before.push(last));
    }
    pieces
}

/// The characters of `s`.
pub fn chars_of(s: &str) -> (r: Vec<char>)
    ensures
        r@ == s@,
{
    let mut out: Vec<char> = Vec::new();
    for c in it: s.chars()
        invariant
            it.seq() == s@,
            out@ == it.seq().take(it.index() as int),
    {
        proof {
            assert(it.seq().take(it.index() + 1) =~= it.seq().take(it.index() as int).push(c));
        }
        out.push(c);
    }
    proof {
        assert(s@.take(s@.len() as int) =~= s@);
    }
    out
}

/// Whether `pat` stands in `s` at index `i`.
pub open spec fn stands_at(s: Seq<char>, pat: Seq<char>, i: int) -> bool {
    &&& 0 <= i
    &&& i + pat.len() <= s.len()
    &&& s.subrange(i, i + pat.len()) == pat
}

/// Whether `pat` stands somewhere in `s`.
pub open spec fn spec_contains(s: Seq<char>, pat: Seq<char>) -> bool {
    exists|i: int| stands_at(s, pat, i)
}

/// Whether `pat` stands in `s` at index `i`.
pub fn matches_at(s: &Vec<char>, pat: &Vec<char>, i: usize) -> (r: bool)
    ensures
        r == stands_at(s@, pat@, i as int),
{
    if i > s.len() || pat.len() > s.len() - i {
        return false;
    }
    let mut k: usize = 0;
    while k < pat.len()
        invariant
            0 <= k <= pat@.len(),
            i + pat@.len() <= s@.len(),
            s@.len() <= usize::MAX,
            forall|j: int| 0 <= j < k ==> s@[i + j] == pat@[j],
        decreases pat@.len() - k,
    {
        if s[i + k] != pat[k] {
            proof {
                if stands_at(s@, pat@, i as int) {
                    assert(s@.subrange(i as int, i + pat@.len())[k as int] == pat@[k as int]);
                }
            }
            return false;
        }
        k += 1;
    }
    proof {
        assert(s@.subrange(i as int, i + pat@.len()) =~= pat@);
    }
    true
}

/// Whether the text `pat` stands somewhere in `s`.
pub fn contains(s: &str, pat: &str) -> (r: bool)
    ensures
        r == spec_contains(s@, pat@),
{
    let text = chars_of(s);
    let key = chars_of(pat);
    let mut i: usize = 0;
    while i < text.len()
        invariant
            0 <= i <= text@.len(),
            text@ == s@,
            key@ == pat@,
            forall|j: int| 0 <= j < i ==> !stands_at(text@, key@, j),
        decreases text@.len() - i,
    {
        if matches_at(&text, &key, i) {
            return true;
        }
        i += 1;
    }
    matches_at(&text, &key, i)
}

/// `s` without the occurrences of `pat`, which are found from the left and
/// do not overlap. An empty `pat` removes nothing.
pub open spec fn spec_remove(s: Seq<char>, pat: Seq<char>) -> Seq<char>
    decreases s.len(),
{
    if pat.len() == 0 || s.len() < pat.len() {
        s
    } else if s.subrange(0, pat.len() as int) == pat {
        spec_remove(s.skip(pat.len() as int), pat)
    } else {
        seq![s[0]] + spec_remove(s.skip(1), pat)
    }
}

/// Removes every occurrence of the text `pat` from `s`.
pub fn remove(s: &Vec<char>, pat: &str) -> (r: Vec<char>)
    ensures
        r@ == spec_remove(s@, pat@),
{
    let key = chars_of(pat);
    let mut out: Vec<char> = Vec::new();
    let mut i: usize = 0;
    proof {
        assert(s@.skip(0) =~= s@);
        assert(out@ + spec_remove(s@, key@) =~= spec_remove(s@, key@));
    }
    while i < s.len()
        invariant
            0 <= i <= s@.len(),
            key@ == pat@,
            out@ + spec_remove(s@.skip(i as int), key@) == spec_remove(s@, key@),
        decreases s@.len() - i,
    {
        let ghost here = s@.skip(i as int);
        if key.len() > 0 && matches_at(s, &key, i) {
            proof {
                assert(here.subrange(0, key@.len() as int) =~= s@.subrange(i as int, i + key@.len()));
                assert(here.skip(key@.len() as int) =~= s@.skip(i + key@.len()));
            }
            i += key.len();
        } else {
            proof {
                assert(here.skip(1) =~= s@.skip(i + 1));
                if key@.len() > 0 && here.len() >= key@.len() {
                    assert(here.subrange(0, key@.len() as int) =~= s@.subrange(
                        i as int,
                        i + key@.len(),
                    ));
                    assert(out@.push(s@[i as int]) + spec_remove(s@.skip(i + 1), key@) =~= out@ + (
                    seq![here[0]] + spec_remove(here.skip(1), key@)));
                } else {
                    lemma_remove_nothing(here, key@);
                    lemma_remove_nothing(s@.skip(i + 1), key@);
                    assert(out@.push(s@[i as int]) + s@.skip(i + 1) =~= out@ + here);
                }
            }
            out.push(s[i]);
            i += 1;
        }
    }
    proof {
        assert(out@ + s@.skip(s@.len() as int) =~= out@);
    }
    out
}

/// Nothing is removed from a text shorter than the pattern, and an empty
/// pattern removes nothing.
pub proof fn lemma_remove_nothing(s: Seq<char>, pat: Seq<char>)
    requires
        s.len() < pat.len() || pat.len() == 0,
    ensures
        spec_remove(s, pat) == s,
{
}

/// The characters that separate words: the Unicode code points with the
/// property White_Space.
pub open spec fn is_white(c: char) -> bool {
    let u = c as u32;
    ||| 0x09 <= u <= 0x0d
    ||| u == 0x20
    ||| u == 0x85
    ||| u == 0xa0
    ||| u == 0x1680
    ||| 0x2000 <= u <= 0x200a
    ||| u == 0x2028
    ||| u == 0x2029
    ||| u == 0x202f
    ||| u == 0x205f
    ||| u == 0x3000
}

/// Whether `c` separates words.
pub fn is_whitespace(c: char) -> (r: bool)
    ensures
        r == is_white(c),
{
    let u: u32 = c as u32;
    (0x09 <= u && u <= 0x0d) || u == 0x20 || u == 0x85 || u == 0xa0 || u == 0x1680 || (0x2000 <= u
        && u <= 0x200a) || u == 0x2028 || u == 0x2029 || u == 0x202f || u == 0x205f || u == 0x3000
}

/// Reading `s` from the left: the words that have ended, and the word that is
/// still open (empty between words).
pub open spec fn spec_scan(s: Seq<char>) -> (Seq<Seq<char>>, Seq<char>)
    decreases s.len(),
{
    if s.len() == 0 {
        (Seq::empty(), Seq::empty())
    } else {
        let (done, cur) = spec_scan(s.drop_last());
        if is_white(s.last()) {
            if cur.len() > 0 {
                (done.push(cur), Seq::empty())
            } else {
                (done, cur)
            }
        } else {
            (done, cur.push(s.last()))
        }
    }
}

/// The words of `s`: its longest runs of characters that are not white
/// space, in order. No word is empty.
pub open spec fn spec_words(s: Seq<char>) -> Seq<Seq<char>> {
    let (done, cur) = spec_scan(s);
    if cur.len() > 0 {
        done.push(cur)
    } else {
        done
    }
}

/// Splits `s` into its words.
pub fn words(s: &Vec<char>) -> (r: Vec<String>)
    ensures
        r.deep_view() == spec_words(s@),
{
    let mut done: Vec<String> = Vec::new();
    let mut cur: String = String::new();
    let mut i: usize = 0;
    while i < s.len()
        invariant
            0 <= i <= s@.len(),
            (done.deep_view(), cur@) == spec_scan(s@.take(i as int)),
        decreases s@.len() - i,
    {
        proof {
            assert(s@.take(i + 1).drop_last() =~= s@.take(i as int));
        }
        let c = s[i];
        if is_whitespace(c) {
            if !cur.as_str().is_empty() {
                let ghost before = done.deep_view();
                let ghost word = cur@;
                done.push(cur);
                cur = String::new();
                proof {
                    assert(done.deep_view() =~= before.push(word));
                }
            }
        } else {
            cur.push(c);
        }
        i += 1;
    }
    proof {
        assert(s@.take(s@.len() as int) =~= s@);
    }
    if !cur.as_str().is_empty() {
        let ghost before = done.deep_view();
        let ghost word = cur@;
        done.push(cur);
        proof {
            assert(done.deep_view() =~= before.push(word));
        }
    }
    done
}

/// The words put together again, with `sep` between each two of them.
pub open spec fn spec_join(words: Seq<Seq<char>>, sep: char) -> Seq<char>
    decreases words.len(),
{
    if words.len() == 0 {
        Seq::empty()
    } else if words.len() == 1 {
        words[0]
    } else {
        spec_join(words.drop_last(), sep).push(sep) + words.last()
    }
}

/// Joins the words, with `sep` between each two of them.
pub fn join(words: &Vec<String>, sep: char) -> (r: String)
    ensures
        r@ == spec_join(words.deep_view(), sep),
{
    let mut out: String = String::new();
    let mut i: usize = 0;
    while i < words.len()
        invariant
            0 <= i <= words@.len(),
            out@ == spec_join(words.deep_view().take(i as int), sep),
        decreases words@.len() - i,
    {
        let ghost before = out@;
        proof {
            assert(words.deep_view().take(i + 1).drop_last() =~= words.deep_view().take(i as int));
        }
        if i > 0 {
            out.push(sep);
        }
        let ghost start = out@;
        let word = words[i].as_str();
        for c in it: word.chars()
            invariant
                it.seq() == word@,
                out@ == start + it.seq().take(it.index() as int),
        {
            proof {
                assert(it.seq().take(it.index() + 1) =~= it.seq().take(it.index() as int).push(c));
            }
            out.push(c);
        }
        proof {
            assert(word@.take(word@.len() as int) =~= word@);
            assert(start + Seq::<char>::empty() =~= start);
            if i == 0 {
                assert(Seq::<char>::empty() + word@ =~= word@);
            }
        }
        i += 1;
    }
    proof {
        assert(words.deep_view().take(words@.len() as int) =~= words.deep_view());
    }
    out
}

} // verus!
