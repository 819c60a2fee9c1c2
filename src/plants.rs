//! Pots in a row, each with a plant (`#`) or without (`.`), and the rules that decide the
//! next generation.
use vstd::prelude::*;
use vstd::string::StrSliceExecFns;
use crate::text::{chars_of, string_from_chars};

verus! {

/// Empty pots added to the left of the row before a generation.
pub const PAD_LEFT: usize = 5;

/// Empty pots added to the right of the row before a generation.
pub const PAD_RIGHT: usize = 10;

/// The row with its empty pots added on both sides.
pub open spec fn padded(state: Seq<char>) -> Seq<char> {
    Seq::new(5, |i: int| '.') + state + Seq::new(10, |i: int| '.')
}

/// Some rule is exactly the five pots of `row` from `i` on.
pub open spec fn rule_applies(rules: Seq<&str>, row: Seq<char>, i: int) -> bool {
    exists|k: int| 0 <= k < rules.len() && (#[trigger] rules[k])@ == row.subrange(i, i + 5)
}

/// The next generation: one pot for each window of five in the padded row, with a plant
/// where some rule matches the window.
pub open spec fn next_generation(state: Seq<char>, rules: Seq<&str>) -> Seq<char> {
    let row = padded(state);
    Seq::new(
        state.len() + 10,
        |i: int|
            if rule_applies(rules, row, i) {
                '#'
            } else {
                '.'
            },
    )
}

/// The index of the first plant in `s`, or 3 where there is none.
pub open spec fn first_plant(s: Seq<char>) -> int {
    if exists|i: int| 0 <= i < s.len() && s[i] == '#' {
        choose|i: int| 0 <= i < s.len() && s[i] == '#' && forall|j: int| 0 <= j < i ==> s[j] != '#'
    } else {
        3
    }
}

fn rule_matches(rule: &str, row: &Vec<char>, i: usize) -> (r: bool)
    requires
        i + 5 <= row@.len(),
    ensures
        r == (rule@ == row@.subrange(i as int, i + 5)),
{
    if rule.unicode_len() != 5 {
        return false;
    }
    let len = row.len();
    let mut k: usize = 0;
    while k < 5
        invariant
            k <= 5,
            rule@.len() == 5,
            len == row@.len(),
            i + 5 <= row@.len(),
            forall|j: int| 0 <= j < k ==> rule@[j] == row@[i + j],
        decreases 5 - k,
    {
        if rule.get_char(k) != row[i + k] {
            assert(rule@[k as int] != row@.subrange(i as int, i + 5)[k as int]);
            return false;
        }
        k = k + 1;
    }
    assert(rule@ =~= row@.subrange(i as int, i + 5));
    true
}

/// The next generation of the row, and the new index of the first pot of the row given
/// that the row's first pot had index `pot_zero_at`.
pub fn change(state: &mut str, rules: &Vec<&str>, pot_zero_at: i64) -> (r: (String, i64))
    requires
        pot_zero_at + 3 <= i64::MAX,
        i64::MIN <= pot_zero_at + 3 - first_plant(next_generation(old(state)@, rules@)),
        old(state)@.len() + 15 <= usize::MAX,
        old(state)@.len() + 15 <= i64::MAX,
    ensures
        final(state)@ == old(state)@,
        r.0@ == next_generation(old(state)@, rules@),
        r.1 == pot_zero_at + 3 - first_plant(next_generation(old(state)@, rules@)),
{
    let pots = chars_of(state);
    let n = pots.len();
    let mut row: Vec<char> = Vec::new();
    let mut k: usize = 0;
    while k < PAD_LEFT
        invariant
            k <= 5,
            row@ == Seq::new(k as nat, |i: int| '.'),
        decreases 5 - k,
    {
        row.push('.');
        k = k + 1;
    }
    k = 0;
    while k < n
        invariant
            n == state@.len(),
            pots@ == state@,
            n + 15 <= usize::MAX,
            n + 15 <= i64::MAX,
            k <= n,
            row@ == Seq::new(5, |i: int| '.') + state@.subrange(0, k as int),
        decreases n - k,
    {
        row.push(pots[k]);
        k = k + 1;
    }
    k = 0;
    while k < PAD_RIGHT
        invariant
            k <= 10,
            n == state@.len(),
            n + 15 <= usize::MAX,
            n + 15 <= i64::MAX,
            row@ == Seq::new(5, |i: int| '.') + state@ + Seq::new(k as nat, |i: int| '.'),
        decreases 10 - k,
    {
        row.push('.');
        k = k + 1;
    }
    assert(row@ =~= padded(state@));
    let ghost next = next_generation(state@, rules@);
    let mut new_state: Vec<char> = Vec::new();
    let mut first: Option<usize> = None;
    let mut i: usize = 0;
    let total = n + PAD_RIGHT;
    while i < total
        invariant
            total == n + 10,
            n == state@.len(),
            n + 15 <= usize::MAX,
            n + 15 <= i64::MAX,
            row@ == padded(state@),
            next == next_generation(state@, rules@),
            i <= n + 10,
            new_state@ == next.subrange(0, i as int),
            first matches None ==> forall|j: int| 0 <= j < i ==> next[j] != '#',
            first matches Some(f) ==> f < i && next[f as int] == '#' && forall|j: int|
                0 <= j < f ==> next[j] != '#',
        decreases total - i,
    {
        let mut hit = false;
        let mut m: usize = 0;
        while m < rules.len()
            invariant
                i + 5 <= row@.len(),
                m <= rules@.len(),
                hit == exists|k: int| 0 <= k < m && (#[trigger] rules@[k])@ == row@.subrange(
                    i as int,
                    i + 5,
                ),
            decreases rules@.len() - m,
        {
            if rule_matches(rules[m], &row, i) {
                hit = true;
            }
            m = m + 1;
        }
        assert(hit == rule_applies(rules@, row@, i as int));
        if hit {
            new_state.push('#');
            if first.is_none() {
                first = Some(i);
            }
        } else {
            new_state.push('.');
        }
        assert(new_state@ =~= next.subrange(0, i + 1));
        i = i + 1;
    }
    assert(new_state@ =~= next);
    let lead: i64 = match first {
        Some(f) => {
            assert(next[f as int] == '#');
            f as i64
        },
        None => 3,
    };
    proof {
        if let Some(f) = first {
            assert(0 <= f < next.len() && next[f as int] == '#');
            let c = choose|c: int|
                0 <= c < next.len() && next[c] == '#' && forall|j: int| 0 <= j < c ==> next[j] != '#';
            assert(next[f as int] == '#');
            if c < f {
                assert(next[c] != '#');
            }
            if c > f {
                assert(next[f as int] != '#');
            }
        }
    }
    assert(lead == first_plant(next));
    (string_from_chars(&new_state), pot_zero_at + 3 - lead)
}

} // verus!
