//! Splitting a document into its lines.
//!
//! A line ends at a line feed; a carriage return directly before that line
//! feed belongs to the terminator. Text after the last line feed is a line
//! of its own when it is not empty.

use vstd::prelude::*;
use crate::text::push_char;

verus! {

/// The position of the first line feed in `s`, or `s.len()` when it has none.
pub open spec fn first_newline(s: Seq<char>) -> int
    decreases s.len(),
{
    if s.len() == 0 || s[0] == '\n' {
        0
    } else {
        1 + first_newline(s.drop_first())
    }
}

/// `line` without the carriage return that ends it, if one does.
pub open spec fn without_cr(line: Seq<char>) -> Seq<char> {
    if line.len() > 0 && line.last() == '\r' {
        line.drop_last()
    } else {
        line
    }
}

/// The lines of the document `s`, in order, each without its terminator.
pub open spec fn lines_of(s: Seq<char>) -> Seq<Seq<char>>
    decreases s.len(),
{
    let n = first_newline(s);
    if s.len() == 0 {
        Seq::empty()
    } else if 0 <= n < s.len() {
        seq![without_cr(s.take(n))] + lines_of(s.skip(n + 1))
    } else {
        seq![s]
    }
}

/// The contents of a vector of strings, string by string.
pub open spec fn texts(v: Seq<String>) -> Seq<Seq<char>> {
    Seq::new(v.len(), |i: int| v[i]@)
}

/// `first_newline` finds `k` when no line feed stands before `k` and either
/// one stands at `k` or `s` ends there.
pub proof fn lemma_first_newline(s: Seq<char>, k: int)
    requires
        0 <= k <= s.len(),
        forall|j: int| 0 <= j < k ==> s[j] != '\n',
        k == s.len() || s[k] == '\n',
    ensures
        first_newline(s) == k,
    decreases k,
{
    if k > 0 {
        let rest = s.drop_first();
        assert forall|j: int| 0 <= j < k - 1 implies rest[j] != '\n' by {
            assert(rest[j] == s[j + 1]);
        }
        lemma_first_newline(rest, k - 1);
    }
}

/// `first_newline` lies within `s`, no line feed stands before it, and one
/// stands at it unless `s` has none.
pub proof fn lemma_first_newline_is_first(s: Seq<char>)
    ensures
        0 <= first_newline(s) <= s.len(),
        forall|j: int| 0 <= j < first_newline(s) ==> s[j] != '\n',
        first_newline(s) < s.len() ==> s[first_newline(s)] == '\n',
    decreases s.len(),
{
    if s.len() > 0 && s[0] != '\n' {
        let rest = s.drop_first();
        lemma_first_newline_is_first(rest);
        assert forall|j: int| 0 <= j < first_newline(s) implies s[j] != '\n' by {
            if j > 0 {
                assert(s[j] == rest[j - 1]);
            }
        }
    }
}

/// No line of a document holds a line feed.
pub proof fn lemma_lines_hold_no_newline(s: Seq<char>)
    ensures
        forall|i: int, j: int|
            0 <= i < lines_of(s).len() && 0 <= j < lines_of(s)[i].len() ==> lines_of(s)[i][j]
                != '\n',
    decreases s.len(),
{
    let n = first_newline(s);
    lemma_first_newline_is_first(s);
    if s.len() > 0 && n < s.len() {
        let rest = lines_of(s.skip(n + 1));
        lemma_lines_hold_no_newline(s.skip(n + 1));
        let first = without_cr(s.take(n));
        assert forall|i: int, j: int|
            0 <= i < lines_of(s).len() && 0 <= j < lines_of(s)[i].len() implies lines_of(s)[i][j]
            != '\n' by {
            if i == 0 {
                assert(lines_of(s)[0] == first);
                assert(first[j] == s[j]);
            } else {
                assert(lines_of(s)[i] == rest[i - 1]);
            }
        }
    }
}

/// What is left of `s` from `start` on, given that its first line ends
/// before the line feed at `end`.
proof fn lemma_lines_step(s: Seq<char>, start: int, end: int)
    requires
        0 <= start <= end < s.len(),
        forall|j: int| start <= j < end ==> s[j] != '\n',
        s[end] == '\n',
    ensures
        lines_of(s.skip(start)) == seq![without_cr(s.subrange(start, end))] + lines_of(
            s.skip(end + 1),
        ),
{
    let rest = s.skip(start);
    lemma_first_newline(rest, end - start);
    assert(rest.take(end - start) =~= s.subrange(start, end));
    assert(rest.skip(end - start + 1) =~= s.skip(end + 1));
}

/// Splits `content` into its lines.
pub fn split_lines(content: &str) -> (lines: Vec<String>)
    ensures
        texts(lines@) == lines_of(content@),
{
    let mut lines: Vec<String> = Vec::new();
    let mut current = String::new();
    // A carriage return that was read and not yet stored: it is dropped if a
    // line feed follows, and is part of the line otherwise.
    let mut held_cr = false;
    let ghost mut start: int = 0;
    proof {
        assert(content@.skip(0) =~= content@);
        assert(texts(lines@) + lines_of(content@) =~= lines_of(content@));
    }
    for c in it: content.chars()
        invariant
            it.seq() == content@,
            0 <= start <= it.index() <= content@.len(),
            forall|j: int| start <= j < it.index() ==> content@[j] != '\n',
            content@.subrange(start, it.index() as int) == if held_cr {
                current@.push('\r')
            } else {
                current@
            },
            !held_cr && current@.len() > 0 ==> current@.last() != '\r',
            texts(lines@) + lines_of(content@.skip(start)) == lines_of(content@),
    {
        let ghost i = it.index() as int;
        let ghost text = content@;
        assert(text.subrange(start, i + 1) =~= text.subrange(start, i).push(c));
        if c == '\n' {
            proof {
                lemma_lines_step(text, start, i);
                if held_cr {
                    assert(current@.push('\r').drop_last() =~= current@);
                }
                assert(without_cr(text.subrange(start, i)) == current@);
                assert(texts(lines@.push(current)) =~= texts(lines@) + seq![current@]);
                assert((texts(lines@) + seq![current@]) + lines_of(text.skip(i + 1)) =~= texts(
                    lines@,
                ) + (seq![current@] + lines_of(text.skip(i + 1))));
                start = i + 1;
            }
            lines.push(current);
            current = String::new();
            held_cr = false;
            assert(text.subrange(i + 1, i + 1) =~= current@);
        } else {
            if held_cr {
                push_char(&mut current, '\r');
            }
            if c == '\r' {
                held_cr = true;
            } else {
                held_cr = false;
                push_char(&mut current, c);
            }
        }
    }
    if held_cr {
        push_char(&mut current, '\r');
    }
    proof {
        let text = content@;
        let rest = text.skip(start);
        assert(rest =~= text.subrange(start, text.len() as int));
        assert(rest == current@);
        lemma_first_newline(rest, rest.len() as int);
        if rest.len() > 0 {
            assert(lines_of(rest) == seq![rest]);
            assert(texts(lines@.push(current)) =~= texts(lines@) + seq![current@]);
        } else {
            assert(lines_of(rest) =~= Seq::<Seq<char>>::empty());
            assert(texts(lines@) + lines_of(rest) =~= texts(lines@));
        }
    }
    if !current.as_str().is_empty() {
        lines.push(current);
    }
    lines
}

} // verus!
