//! The result reporter: a match set as lines of text, in document order.

use std::collections::HashMap;
use vstd::prelude::*;
use crate::lines::texts;
use crate::order::{ascending_keys, lemma_ascending_keys, sorted_keys, strictly_ascending};
use crate::search::entries;
use crate::text::push_char;

verus! {

broadcast use vstd::std_specs::hash::group_hash_axioms;

/// The character that stands for the digit `d`.
pub open spec fn digit_char(d: nat) -> char {
    seq!['0', '1', '2', '3', '4', '5', '6', '7', '8', '9'][d as int]
}

/// The number `n` in decimal notation, without leading zeros.
pub open spec fn decimal(n: nat) -> Seq<char>
    decreases n,
{
    if n < 10 {
        seq![digit_char(n)]
    } else {
        decimal(n / 10).push(digit_char(n % 10))
    }
}

/// One line of the report: `#`, the line number, a colon, a space, the line.
pub open spec fn rendered(number: usize, line: Seq<char>) -> Seq<char> {
    seq!['#'] + decimal(number as nat) + seq![':', ' '] + line
}

/// The report of a match set: one rendered line for each entry, by
/// ascending line number.
pub open spec fn report(matches: Map<usize, Seq<char>>) -> Seq<Seq<char>> {
    let order = ascending_keys(matches.dom());
    Seq::new(order.len(), |i: int| rendered(order[i], matches[order[i]]))
}

fn digit(d: usize) -> (c: char)
    requires
        d < 10,
    ensures
        c == digit_char(d as nat),
{
    match d {
        0 => '0',
        1 => '1',
        2 => '2',
        3 => '3',
        4 => '4',
        5 => '5',
        6 => '6',
        7 => '7',
        8 => '8',
        _ => '9',
    }
}

/// Appends the decimal notation of `n` to `out`.
fn push_decimal(out: &mut String, n: usize)
    ensures
        final(out)@ == old(out)@ + decimal(n as nat),
{
    // The digits after the leading one, last digit first.
    let mut low: Vec<char> = Vec::new();
    let mut rest: usize = n;
    assert(decimal(n as nat) =~= decimal(rest as nat) + low@.reverse());
    while rest >= 10
        invariant
            decimal(n as nat) == decimal(rest as nat) + low@.reverse(),
        decreases rest,
    {
        let d = digit(rest % 10);
        proof {
            let head = decimal(rest as nat / 10);
            assert(low@.push(d).reverse() =~= seq![d] + low@.reverse());
            assert(head.push(d) + low@.reverse() =~= head + (seq![d] + low@.reverse()));
        }
        low.push(d);
        rest = rest / 10;
    }
    push_char(out, digit(rest));
    let mut left: usize = low.len();
    while left > 0
        invariant
            left <= low.len(),
            out@ == old(out)@ + decimal(rest as nat) + low@.reverse().take(low.len() - left),
        decreases left,
    {
        left -= 1;
        push_char(out, low[left]);
        assert(low@.reverse().take(low.len() - left) =~= low@.reverse().take(
            low.len() - left - 1,
        ).push(low@[left as int]));
    }
    assert(low@.reverse().take(low.len() as int) =~= low@.reverse());
    assert(old(out)@ + decimal(rest as nat) + low@.reverse() =~= old(out)@ + (decimal(
        rest as nat,
    ) + low@.reverse()));
}

/// Renders one entry of a match set.
pub fn render(number: usize, line: &str) -> (out: String)
    ensures
        out@ == rendered(number, line@),
{
    let mut out = String::new();
    push_char(&mut out, '#');
    push_decimal(&mut out, number);
    push_char(&mut out, ':');
    push_char(&mut out, ' ');
    out.append(line);
    assert(out@ =~= rendered(number, line@));
    out
}

/// Renders a match set: one line of text for each entry, sorted by ascending
/// line number, whatever the order in which the set hands its entries out.
pub fn display(results: &HashMap<usize, String>) -> (out: Vec<String>)
    ensures
        texts(out@) == report(entries(results@)),
{
    let order = sorted_keys(results);
    let mut out: Vec<String> = Vec::new();
    let mut i: usize = 0;
    proof {
        lemma_ascending_keys(results@.dom());
    }
    while i < order.len()
        invariant
            i <= order.len(),
            out.len() == i,
            order@ == ascending_keys(results@.dom()),
            forall|k: usize| #[trigger] order@.contains(k) <==> results@.dom().contains(k),
            forall|j: int|
                0 <= j < i ==> out@[j]@ == rendered(order@[j], entries(results@)[order@[j]]),
        decreases order.len() - i,
    {
        let number: usize = order[i];
        assert(order@.contains(number));
        if let Some(line) = results.get(&number) {
            out.push(render(number, line.as_str()));
        }
        i += 1;
    }
    assert(entries(results@).dom() =~= results@.dom());
    assert(texts(out@) =~= report(entries(results@)));
    out
}

/// The report of a match set is sorted by ascending line number: it has one
/// line for each entry, the line at a later place has the larger number, and
/// each is the rendering of its entry. It depends on nothing but the
/// entries, so not on the order in which they were added.
pub proof fn theorem_report_is_ordered(matches: Map<usize, Seq<char>>)
    ensures
        strictly_ascending(ascending_keys(matches.dom())),
        forall|number: usize| #[trigger]
            ascending_keys(matches.dom()).contains(number) <==> matches.contains_key(number),
        report(matches).len() == ascending_keys(matches.dom()).len(),
        forall|i: int|
            0 <= i < report(matches).len() ==> #[trigger] report(matches)[i] == rendered(
                ascending_keys(matches.dom())[i],
                matches[ascending_keys(matches.dom())[i]],
            ),
{
    lemma_ascending_keys(matches.dom());
}

} // verus!
