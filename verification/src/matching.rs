//! Testing one line against a query.

use vstd::prelude::*;
use crate::text::{chars_of, push_char};

verus! {

/// How the letter case of a line and of the query is treated.
#[derive(Clone, Copy, Debug, PartialEq, Eq, Structural)]
pub enum SearchMode {
    /// Characters are compared as they stand.
    CaseSensitive,
    /// Line and query are both lowercased, character by character, before
    /// they are compared.
    CaseInsensitive,
}

/// `needle` stands in `hay` at position `i`.
pub open spec fn occurs_at(hay: Seq<char>, needle: Seq<char>, i: int) -> bool {
    &&& 0 <= i
    &&& i + needle.len() <= hay.len()
    &&& hay.subrange(i, i + needle.len()) == needle
}

/// `needle` is a contiguous part of `hay`.
pub open spec fn has_substring(hay: Seq<char>, needle: Seq<char>) -> bool {
    exists|i: int| occurs_at(hay, needle, i)
}

/// The lowercase form of one character, as `char::to_lowercase` gives it:
/// one character or a few.
pub uninterp spec fn lowercase_char(c: char) -> Seq<char>;

/// The lowercase form of a text: each character folded on its own, whatever
/// stands around it, and the results joined in order.
pub open spec fn lowercase(s: Seq<char>) -> Seq<char>
    decreases s.len(),
{
    if s.len() == 0 {
        Seq::empty()
    } else {
        lowercase(s.drop_last()) + lowercase_char(s.last())
    }
}

/// The text that is compared under `mode`.
pub open spec fn folded(s: Seq<char>, mode: SearchMode) -> Seq<char> {
    match mode {
        SearchMode::CaseSensitive => s,
        SearchMode::CaseInsensitive => lowercase(s),
    }
}

/// `line` contains `query` under `mode`.
pub open spec fn line_matches(query: Seq<char>, line: Seq<char>, mode: SearchMode) -> bool {
    has_substring(folded(line, mode), folded(query, mode))
}

/// The lowercase form of the character `c`.
///
/// Trusted: stands for `char::to_lowercase`, which yields the lowercase
/// mapping of a character as one or more characters. The result is fixed by
/// the character alone; the contract gives it the name `lowercase_char` and
/// claims nothing else of it.
#[verifier::external_body]
pub(crate) fn char_to_lowercase(c: char) -> (lower: Vec<char>)
    ensures
        lower@ == lowercase_char(c),
{
    c.to_lowercase().collect()
}

/// The lowercase form of `s`, folded character by character.
pub fn to_lowercase(s: &str) -> (lower: String)
    ensures
        lower@ == lowercase(s@),
{
    let mut lower = String::new();
    for c in it: s.chars()
        invariant
            it.seq() == s@,
            lower@ == lowercase(s@.take(it.index() as int)),
    {
        let ghost done = lower@;
        let ghost index = it.index() as int;
        let folded_char = char_to_lowercase(c);
        let mut at: usize = 0;
        while at < folded_char.len()
            invariant
                at <= folded_char.len(),
                lower@ == done + folded_char@.take(at as int),
            decreases folded_char.len() - at,
        {
            push_char(&mut lower, folded_char[at]);
            assert(folded_char@.take(at + 1) =~= folded_char@.take(at as int).push(
                folded_char@[at as int],
            ));
            at += 1;
        }
        proof {
            assert(folded_char@.take(at as int) =~= folded_char@);
            assert(s@.take(index + 1).drop_last() =~= s@.take(index));
        }
    }
    assert(s@.take(s@.len() as int) =~= s@);
    lower
}

/// Whether `needle` stands in `hay` at position `at`.
fn matches_at(hay: &Vec<char>, needle: &Vec<char>, at: usize) -> (found: bool)
    requires
        at + needle.len() <= hay.len(),
    ensures
        found == occurs_at(hay@, needle@, at as int),
{
    let mut k: usize = 0;
    while k < needle.len()
        invariant
            k <= needle.len(),
            at + needle.len() <= hay.len(),
            forall|j: int| 0 <= j < k ==> hay@[at + j] == needle@[j],
        decreases needle.len() - k,
    {
        if hay[at + k] != needle[k] {
            assert(hay@.subrange(at as int, at + needle.len())[k as int] != needle@[k as int]);
            return false;
        }
        k += 1;
    }
    assert(hay@.subrange(at as int, at + needle.len()) =~= needle@);
    true
}

/// Whether `needle` is a contiguous part of `hay`.
pub fn contains_chars(hay: &Vec<char>, needle: &Vec<char>) -> (found: bool)
    ensures
        found == has_substring(hay@, needle@),
{
    if needle.len() > hay.len() {
        return false;
    }
    let last: usize = hay.len() - needle.len();
    let mut at: usize = 0;
    loop
        invariant
            last == hay.len() - needle.len(),
            at <= last,
            forall|i: int| 0 <= i < at ==> !occurs_at(hay@, needle@, i),
        decreases last - at,
    {
        if matches_at(hay, needle, at) {
            return true;
        }
        if at == last {
            return false;
        }
        at += 1;
    }
}

/// Whether `needle` is a contiguous part of `hay`, character by character.
pub fn contains(hay: &str, needle: &str) -> (found: bool)
    ensures
        found == has_substring(hay@, needle@),
{
    let hay_chars = chars_of(hay);
    let needle_chars = chars_of(needle);
    contains_chars(&hay_chars, &needle_chars)
}

/// The empty text is a part of every text.
pub proof fn lemma_empty_is_substring(hay: Seq<char>)
    ensures
        has_substring(hay, Seq::empty()),
{
    assert(hay.subrange(0, 0) =~= Seq::<char>::empty());
    assert(occurs_at(hay, Seq::empty(), 0));
}

} // verus!
