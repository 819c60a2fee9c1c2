//! A frequency and the changes applied to it.
use vstd::prelude::*;

verus! {

/// The sum of the changes.
pub open spec fn sum_of(changes: Seq<i32>) -> int
    decreases changes.len(),
{
    if changes.len() == 0 {
        0
    } else {
        sum_of(changes.drop_last()) + changes.last()
    }
}

/// What the calibration yields: the starting frequency counts once more for every change,
/// on top of the sum of the changes.
pub open spec fn final_frequency(frequency: int, changes: Seq<i32>) -> int {
    frequency * (changes.len() + 1) + sum_of(changes)
}

proof fn lemma_sum_bound(changes: Seq<i32>)
    ensures
        -0x8000_0000 * changes.len() <= sum_of(changes) <= 0x7fff_ffff * changes.len(),
    decreases changes.len(),
{
    if changes.len() > 0 {
        lemma_sum_bound(changes.drop_last());
    }
}

/// Adds the starting frequency and each change, once per change, to the starting
/// frequency.
pub fn calculate_final_frequency(frequency: i32, changes: &[i32]) -> (r: i32)
    requires
        i32::MIN <= final_frequency(frequency as int, changes@) <= i32::MAX,
    ensures
        r == final_frequency(frequency as int, changes@),
{
    let mut total: i128 = frequency as i128;
    let mut k: usize = 0;
    while k < changes.len()
        invariant
            k <= changes@.len(),
            total == frequency * (k + 1) + sum_of(changes@.subrange(0, k as int)),
        decreases changes@.len() - k,
    {
        assert(changes@.subrange(0, k as int + 1).drop_last() =~= changes@.subrange(0, k as int));
        proof {
            lemma_sum_bound(changes@.subrange(0, k as int));
            assert(k < 0x1_0000_0000_0000_0000) by {
                assert(changes@.len() <= usize::MAX);
            }
            assert(-0x8000_0000 * 0x1_0000_0000_0000_0001 <= frequency * (k + 1) <= 0x8000_0000
                * 0x1_0000_0000_0000_0001) by (nonlinear_arith)
                requires
                    -0x8000_0000 <= frequency < 0x8000_0000,
                    0 <= k < 0x1_0000_0000_0000_0000,
            ;
            assert(frequency * (k + 2) == frequency * (k + 1) + frequency) by (nonlinear_arith);
        }
        total = total + frequency as i128 + changes[k] as i128;
        k = k + 1;
    }
    assert(changes@.subrange(0, k as int) =~= changes@);
    total as i32
}

/// The frequency after the first `k` changes of the list repeated without end.
pub open spec fn frequency_after(frequency: int, changes: Seq<i32>, k: nat) -> int
    decreases k,
{
    if k == 0 {
        frequency
    } else {
        frequency_after(frequency, changes, (k - 1) as nat) + changes[(k - 1) as int % (changes.len() as int)]
    }
}

/// The frequency after `k` changes was reached before: it is among `seen`, or it was
/// reached after fewer changes (but at least one).
pub open spec fn reached_again(frequency: int, changes: Seq<i32>, seen: Seq<i32>, k: nat) -> bool {
    let f = frequency_after(frequency, changes, k);
    (exists|i: int| 0 <= i < seen.len() && seen[i] == f) || (exists|j: nat|
        1 <= j < k && #[trigger] frequency_after(frequency, changes, j) == f)
}

fn contains_value(values: &Vec<i32>, v: i32) -> (r: bool)
    ensures
        r == exists|i: int| 0 <= i < values@.len() && values@[i] == v,
{
    let mut i: usize = 0;
    while i < values.len()
        invariant
            i <= values@.len(),
            forall|j: int| 0 <= j < i ==> values@[j] != v,
        decreases values@.len() - i,
    {
        if values[i] == v {
            return true;
        }
        i = i + 1;
    }
    false
}

/// Applies the changes over and over and returns the first frequency that is reached a
/// second time, counting the frequencies of `seen_frequencies` as reached. Looks at most
/// `max_steps` changes ahead and returns `None` where none repeats by then.
pub fn find_frequency_used_twice(
    frequency: i32,
    all_changes: &[i32],
    seen_frequencies: Vec<i32>,
    max_steps: usize,
) -> (r: Option<i32>)
    requires
        all_changes@.len() > 0,
        forall|k: nat|
            k <= max_steps ==> i32::MIN <= #[trigger] frequency_after(
                frequency as int,
                all_changes@,
                k,
            ) <= i32::MAX,
    ensures
        r matches Some(v) ==> exists|k: nat|
            1 <= k <= max_steps && #[trigger] reached_again(
                frequency as int,
                all_changes@,
                seen_frequencies@,
                k,
            ) && v == frequency_after(frequency as int, all_changes@, k) && forall|j: nat|
                1 <= j < k ==> !reached_again(frequency as int, all_changes@, seen_frequencies@, j),
        r is None ==> forall|k: nat|
            1 <= k <= max_steps ==> !#[trigger] reached_again(
                frequency as int,
                all_changes@,
                seen_frequencies@,
                k,
            ),
{
    let ghost start = seen_frequencies@;
    let ghost f0 = frequency as int;
    let ghost changes = all_changes@;
    let mut seen = seen_frequencies;
    let mut current = frequency;
    let mut done: usize = 0;
    let n = all_changes.len();
    while done < max_steps
        invariant
            n == changes.len() > 0,
            changes == all_changes@,
            start == seen_frequencies@,
            f0 == frequency as int,
            done <= max_steps,
            forall|m: nat|
                m <= max_steps ==> i32::MIN <= #[trigger] frequency_after(f0, changes, m) <= i32::MAX,
            current == frequency_after(f0, changes, done as nat),
            seen@.len() == start.len() + done,
            forall|i: int| 0 <= i < start.len() ==> seen@[i] == start[i],
            forall|j: nat|
                1 <= j <= done ==> seen@[start.len() + j - 1] == #[trigger] frequency_after(f0, changes, j),
            forall|j: nat| 1 <= j <= done ==> !#[trigger] reached_again(f0, changes, start, j),
        decreases max_steps - done,
    {
        let ghost k = done + 1;
        let ghost fk = frequency_after(f0, changes, k as nat);
        assert(i32::MIN <= fk <= i32::MAX);
        current = current + all_changes[done % n];
        assert(current == fk);
        let found = contains_value(&seen, current);
        assert(found == reached_again(f0, changes, start, k as nat)) by {
            if found {
                let i = choose|i: int| 0 <= i < seen@.len() && seen@[i] == current;
                if i >= start.len() {
                    let j = (i - start.len() + 1) as nat;
                    assert(frequency_after(f0, changes, j) == fk);
                } else {
                    assert(start[i] == fk);
                }
            }
            if reached_again(f0, changes, start, k as nat) {
                if exists|i: int| 0 <= i < start.len() && start[i] == fk {
                    let i = choose|i: int| 0 <= i < start.len() && start[i] == fk;
                    assert(seen@[i] == current);
                } else {
                    let j = choose|j: nat|
                        1 <= j < k && #[trigger] frequency_after(f0, changes, j) == fk;
                    assert(seen@[start.len() + j - 1] == current);
                }
            }
        }
        if found {
            assert(reached_again(f0, changes, start, k as nat));
            return Some(current);
        }
        seen.push(current);
        done = done + 1;
    }
    None
}

} // verus!
