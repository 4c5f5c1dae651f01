//! Searching and rewriting of sequences: prefixes, suffixes, occurrences
//! and the replacement of every occurrence of a pattern.

use vstd::prelude::*;
use vstd::string::*;

verus! {

/// `pattern` stands in `text` at position `at`.
pub open spec fn occurs_at<T>(text: Seq<T>, pattern: Seq<T>, at: int) -> bool {
    0 <= at && at + pattern.len() <= text.len() && text.subrange(at, at + pattern.len())
        == pattern
}

/// `text` begins with `pattern`.
pub open spec fn has_prefix<T>(text: Seq<T>, pattern: Seq<T>) -> bool {
    occurs_at(text, pattern, 0)
}

/// `text` ends with `pattern`.
pub open spec fn has_suffix<T>(text: Seq<T>, pattern: Seq<T>) -> bool {
    occurs_at(text, pattern, text.len() - pattern.len())
}

/// `pattern` stands somewhere in `text`.
pub open spec fn contains<T>(text: Seq<T>, pattern: Seq<T>) -> bool {
    exists|at: int| occurs_at(text, pattern, at)
}

/// `text` with every occurrence of `from` replaced by `to`. Occurrences
/// are taken from the left and do not overlap; an empty pattern occurs
/// nowhere.
pub open spec fn replace_all<T>(text: Seq<T>, from: Seq<T>, to: Seq<T>) -> Seq<T>
    decreases text.len(),
{
    if from.len() == 0 || text.len() < from.len() {
        text
    } else if has_prefix(text, from) {
        to + replace_all(text.skip(from.len() as int), from, to)
    } else {
        seq![text[0]] + replace_all(text.skip(1), from, to)
    }
}

/// What occurs in a text still occurs in it behind any other text.
pub proof fn lemma_contains_behind<T>(head: Seq<T>, text: Seq<T>, word: Seq<T>)
    requires
        contains(text, word),
    ensures
        contains(head + text, word),
{
    let at = choose|at: int| occurs_at(text, word, at);
    let whole = head + text;
    assert(whole.subrange(head.len() + at, head.len() + at + word.len()) =~= text.subrange(
        at,
        at + word.len(),
    ));
    assert(occurs_at(whole, word, head.len() + at));
}

/// A replacement leaves a text as it is up to the first occurrence of the
/// pattern: where `from` stands at none of the first `k` positions of
/// `text`, the first `k` elements of the result are those of `text`.
pub proof fn lemma_replace_keeps_front<T>(text: Seq<T>, from: Seq<T>, to: Seq<T>, k: int)
    requires
        0 <= k <= text.len(),
        forall|j: int| 0 <= j < k ==> !occurs_at(text, from, j),
    ensures
        replace_all(text, from, to).len() >= k,
        replace_all(text, from, to).take(k) == text.take(k),
    decreases k,
{
    let result = replace_all(text, from, to);
    if k == 0 {
        assert(result.take(0) =~= text.take(0));
    } else if from.len() == 0 || text.len() < from.len() {
    } else {
        assert(!occurs_at(text, from, 0));
        let rest = text.skip(1);
        assert forall|j: int| 0 <= j < k - 1 implies !occurs_at(rest, from, j) by {
            if occurs_at(rest, from, j) {
                assert(text.subrange(j + 1, j + 1 + from.len()) =~= rest.subrange(
                    j,
                    j + from.len(),
                ));
                assert(occurs_at(text, from, j + 1));
            }
        }
        lemma_replace_keeps_front(rest, from, to, k - 1);
        let tail = replace_all(rest, from, to);
        assert(result == seq![text[0]] + tail);
        assert(result.take(k) =~= seq![text[0]] + tail.take(k - 1));
        assert(text.take(k) =~= seq![text[0]] + rest.take(k - 1));
    }
}

/// A replacement keeps a word that the pattern cannot touch: where `from`
/// is no shorter than `word` and holds neither the first nor the last
/// element of `word`, a text that holds `word` holds it after every `from`
/// was replaced.
pub proof fn lemma_replace_keeps_word<T>(text: Seq<T>, from: Seq<T>, to: Seq<T>, word: Seq<T>)
    requires
        contains(text, word),
        0 < word.len() <= from.len(),
        forall|i: int| 0 <= i < from.len() ==> from[i] != word[0] && from[i] != word[word.len() - 1],
    ensures
        contains(replace_all(text, from, to), word),
    decreases text.len(),
{
    let at = choose|at: int| occurs_at(text, word, at);
    let result = replace_all(text, from, to);
    let found = text.subrange(at, at + word.len());
    assert(found[0] == text[at]);
    assert(found[word.len() - 1] == text[at + word.len() - 1]);
    if from.len() == 0 || text.len() < from.len() {
    } else if has_prefix(text, from) {
        if at < from.len() {
            assert(text.subrange(0, from.len() as int)[at] == text[at]);
        }
        let rest = text.skip(from.len() as int);
        assert(rest.subrange(at - from.len(), at - from.len() + word.len()) =~= text.subrange(
            at,
            at + word.len(),
        ));
        assert(occurs_at(rest, word, at - from.len()));
        lemma_replace_keeps_word(rest, from, to, word);
        lemma_contains_behind(to, replace_all(rest, from, to), word);
    } else if at >= 1 {
        let rest = text.skip(1);
        assert(rest.subrange(at - 1, at - 1 + word.len()) =~= text.subrange(at, at + word.len()));
        assert(occurs_at(rest, word, at - 1));
        lemma_replace_keeps_word(rest, from, to, word);
        lemma_contains_behind(seq![text[0]], replace_all(rest, from, to), word);
    } else {
        let k = word.len() as int;
        assert forall|j: int| 0 <= j < k implies !occurs_at(text, from, j) by {
            if occurs_at(text, from, j) {
                assert(text.subrange(j, j + from.len())[k - 1 - j] == text[k - 1]);
                assert(from[k - 1 - j] == word[k - 1]);
            }
        }
        lemma_replace_keeps_front(text, from, to, k);
        assert(result.subrange(0, k) =~= text.subrange(0, k));
        assert(occurs_at(result, word, 0));
    }
}

/// Tells whether `pattern` stands in `text` at position `at`.
pub fn bytes_occur_at(text: &[u8], pattern: &[u8], at: usize) -> (found: bool)
    ensures
        found == occurs_at(text@, pattern@, at as int),
{
    if at > text.len() || pattern.len() > text.len() - at {
        return false;
    }
    let mut k: usize = 0;
    while k < pattern.len()
        invariant
            k <= pattern.len(),
            at + pattern.len() <= text.len(),
            forall|j: int| 0 <= j < k ==> text@[at + j] == pattern@[j],
        decreases pattern.len() - k,
    {
        if text[at + k] != pattern[k] {
            proof {
                assert(text@.subrange(at as int, at + pattern.len())[k as int] == text@[at + k]);
            }
            return false;
        }
        k += 1;
    }
    proof {
        assert(text@.subrange(at as int, at + pattern.len()) =~= pattern@);
    }
    true
}

/// Tells whether `pattern` stands somewhere in `text`.
pub fn bytes_contain(text: &[u8], pattern: &[u8]) -> (found: bool)
    ensures
        found == contains(text@, pattern@),
{
    if pattern.len() > text.len() {
        return false;
    }
    let last: usize = text.len() - pattern.len();
    let mut at: usize = 0;
    loop
        invariant
            last == text.len() - pattern.len(),
            at <= last,
            forall|j: int| 0 <= j < at ==> !occurs_at(text@, pattern@, j),
        decreases last - at,
    {
        if bytes_occur_at(text, pattern, at) {
            return true;
        }
        if at == last {
            return false;
        }
        at += 1;
    }
}

/// Replaces every occurrence of `from` in `text` by `to`.
pub fn replace_bytes(text: &[u8], from: &[u8], to: &[u8]) -> (result: Vec<u8>)
    ensures
        result@ == replace_all(text@, from@, to@),
{
    let mut result: Vec<u8> = Vec::new();
    let mut at: usize = 0;
    proof {
        assert(text@.skip(0) =~= text@);
        assert(result@ + replace_all(text@, from@, to@) =~= replace_all(text@, from@, to@));
    }
    while at < text.len()
        invariant
            at <= text.len(),
            result@ + replace_all(text@.skip(at as int), from@, to@) == replace_all(
                text@,
                from@,
                to@,
            ),
        decreases text.len() - at,
    {
        let ghost rest = text@.skip(at as int);
        let ghost before = result@;
        if from.len() > 0 && bytes_occur_at(text, from, at) {
            proof {
                assert(rest.subrange(0, from@.len() as int) =~= text@.subrange(
                    at as int,
                    at + from@.len(),
                ));
                assert(rest.skip(from@.len() as int) =~= text@.skip(at + from@.len()));
                assert((before + to@) + replace_all(text@.skip(at + from@.len()), from@, to@)
                    =~= before + replace_all(rest, from@, to@));
            }
            result.extend_from_slice(to);
            at += from.len();
        } else {
            proof {
                assert(rest.skip(1) =~= text@.skip(at + 1));
                if from@.len() > 0 && rest.len() >= from@.len() {
                    assert(rest.subrange(0, from@.len() as int) =~= text@.subrange(
                        at as int,
                        at + from@.len(),
                    ));
                }
                assert(before.push(text@[at as int]) + replace_all(rest.skip(1), from@, to@)
                    =~= before + replace_all(rest, from@, to@));
            }
            result.push(text[at]);
            at += 1;
        }
    }
    proof {
        assert(text@.skip(text@.len() as int) =~= Seq::<u8>::empty());
        assert(result@ + Seq::<u8>::empty() =~= result@);
    }
    result
}

/// The characters of a string, one by one.
pub fn chars_of(s: &str) -> (chars: Vec<char>)
    ensures
        chars@ == s@,
{
    let mut chars: Vec<char> = Vec::new();
    for c in it: s.chars()
        invariant
            it.seq() == s@,
            chars@ == s@.take(it.index() as int),
    {
        proof {
            assert(s@.take(it.index() + 1) =~= s@.take(it.index() as int).push(c));
        }
        chars.push(c);
    }
    proof {
        assert(s@.take(s@.len() as int) =~= s@);
    }
    chars
}

/// The string made of the given characters.
pub fn string_of(chars: &[char]) -> (s: String)
    ensures
        s@ == chars@,
{
    let mut s = String::new();
    let mut i: usize = 0;
    while i < chars.len()
        invariant
            i <= chars.len(),
            s@ == chars@.take(i as int),
        decreases chars.len() - i,
    {
        proof {
            assert(chars@.take(i + 1) =~= chars@.take(i as int).push(chars@[i as int]));
        }
        s.push(chars[i]);
        i += 1;
    }
    proof {
        assert(chars@.take(chars@.len() as int) =~= chars@);
    }
    s
}

/// Tells whether `pattern` stands in `text` at position `at`.
pub fn chars_occur_at(text: &[char], pattern: &[char], at: usize) -> (found: bool)
    ensures
        found == occurs_at(text@, pattern@, at as int),
{
    if at > text.len() || pattern.len() > text.len() - at {
        return false;
    }
    let mut k: usize = 0;
    while k < pattern.len()
        invariant
            k <= pattern.len(),
            at + pattern.len() <= text.len(),
            forall|j: int| 0 <= j < k ==> text@[at + j] == pattern@[j],
        decreases pattern.len() - k,
    {
        if text[at + k] != pattern[k] {
            proof {
                assert(text@.subrange(at as int, at + pattern.len())[k as int] == text@[at + k]);
            }
            return false;
        }
        k += 1;
    }
    proof {
        assert(text@.subrange(at as int, at + pattern.len()) =~= pattern@);
    }
    true
}

/// Tells whether `text` ends with `pattern`.
pub fn chars_end_with(text: &[char], pattern: &[char]) -> (found: bool)
    ensures
        found == has_suffix(text@, pattern@),
{
    if pattern.len() > text.len() {
        return false;
    }
    chars_occur_at(text, pattern, text.len() - pattern.len())
}

} // verus!
