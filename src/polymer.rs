//! A polymer of units in which neighbours of one type and opposite polarity destroy
//! each other.
use vstd::prelude::*;
use vstd::string::StrSliceExecFns;
use crate::text::{chars_of, string_from_chars};

verus! {

pub open spec fn is_lower(c: char) -> bool {
    'a' <= c <= 'z'
}

pub open spec fn is_upper(c: char) -> bool {
    'A' <= c <= 'Z'
}

/// Units `a` and `b` react: the same letter, one lower case and one upper case.
pub open spec fn reacts(a: char, b: char) -> bool {
    ||| is_lower(a) && is_upper(b) && a as u32 == b as u32 + 32
    ||| is_upper(a) && is_lower(b) && b as u32 == a as u32 + 32
}

/// One pass from left to right: a unit that reacts with its right neighbour is dropped
/// with it, and the pass resumes after the pair.
pub open spec fn react_pass(s: Seq<char>) -> Seq<char>
    decreases s.len(),
{
    if s.len() == 0 {
        s
    } else if s.len() >= 2 && reacts(s[0], s[1]) {
        react_pass(s.skip(2))
    } else {
        seq![s[0]] + react_pass(s.skip(1))
    }
}

/// Passes repeated until one of them removes nothing.
pub open spec fn fully_reacted(s: Seq<char>) -> Seq<char>
    decreases s.len(),
{
    let p = react_pass(s);
    if p.len() < s.len() {
        fully_reacted(p)
    } else {
        p
    }
}

proof fn lemma_pass_shrinks(s: Seq<char>)
    ensures
        react_pass(s).len() <= s.len(),
    decreases s.len(),
{
    if s.len() >= 2 && reacts(s[0], s[1]) {
        lemma_pass_shrinks(s.skip(2));
    } else if s.len() > 0 {
        lemma_pass_shrinks(s.skip(1));
    }
}

fn units_react(a: char, b: char) -> (r: bool)
    ensures
        r == reacts(a, b),
{
    let x = a as u32;
    let y = b as u32;
    ('a' <= a && a <= 'z' && 'A' <= b && b <= 'Z' && x == y + 32) || ('A' <= a && a <= 'Z' && 'a'
        <= b && b <= 'z' && y == x + 32)
}

/// One pass of reactions over the polymer.
pub fn react(reactant: &str) -> (r: String)
    ensures
        r@ == react_pass(reactant@),
{
    let units = chars_of(reactant);
    let n = units.len();
    let mut out: Vec<char> = Vec::new();
    let mut i: usize = 0;
    assert(reactant@.skip(0) =~= reactant@);
    assert(out@ + react_pass(reactant@) =~= react_pass(reactant@));
    while i < n
        invariant
            n == reactant@.len(),
            units@ == reactant@,
            i <= n,
            out@ + react_pass(reactant@.skip(i as int)) == react_pass(reactant@),
        decreases n - i,
    {
        let ghost s = reactant@.skip(i as int);
        let c = units[i];
        if i + 1 < n && units_react(c, units[i + 1]) {
            assert(s.skip(2) =~= reactant@.skip(i + 2));
            i = i + 2;
        } else {
            assert(s.skip(1) =~= reactant@.skip(i + 1));
            let ghost rest = react_pass(reactant@.skip(i + 1));
            assert(out@.push(c) + rest =~= out@ + (seq![c] + rest));
            out.push(c);
            i = i + 1;
        }
    }
    assert(reactant@.skip(i as int) =~= Seq::<char>::empty());
    assert(out@ + Seq::<char>::empty() =~= out@);
    string_from_chars(&out)
}

/// Reacts the polymer pass after pass until a pass removes nothing.
pub fn react_till_finished(reactant: String) -> (r: String)
    ensures
        r@ == fully_reacted(reactant@),
{
    let ghost start = reactant@;
    let mut current = reactant;
    loop
        invariant
            fully_reacted(current@) == fully_reacted(start),
            start == reactant@,
        decreases current@.len(),
    {
        let product = react(current.as_str());
        proof {
            lemma_pass_shrinks(current@);
        }
        if product.as_str().unicode_len() == current.as_str().unicode_len() {
            return product;
        }
        current = product;
    }
}

} // verus!
