//! Box ids: a checksum over repeated letters, and the two ids that differ in one place.
use vstd::prelude::*;
use std::collections::HashMap;
use vstd::std_specs::hash::group_hash_axioms;
use vstd::string::{is_ascii, StrSliceExecFns, StringExecFns, StringSliceAdditionalSpecFns};

verus! {

broadcast use group_hash_axioms;

/// How often each byte occurs in an id.
pub type ByteHashMap = HashMap<u8, i32>;

/// The number of times byte `b` occurs in `s`.
pub open spec fn occurrences(s: Seq<u8>, b: u8) -> nat
    decreases s.len(),
{
    if s.len() == 0 {
        0
    } else {
        occurrences(s.drop_last(), b) + if s.last() == b {
            1nat
        } else {
            0nat
        }
    }
}

/// `m` maps each byte of `s` to its number of occurrences, and holds no other byte.
pub open spec fn counts_of(s: Seq<u8>, m: Map<u8, i32>) -> bool {
    forall|b: u8|
        (#[trigger] m.contains_key(b) <==> occurrences(s, b) > 0) && (m.contains_key(b) ==> m[b]
            == occurrences(s, b))
}

/// Some byte occurs exactly `n` times in `s`.
pub open spec fn some_byte_occurs(s: Seq<u8>, n: nat) -> bool {
    exists|b: u8| #[trigger] occurrences(s, b) == n
}

/// The number of ids in which some byte occurs exactly `n` times.
pub open spec fn ids_with(ids: Seq<&str>, n: nat) -> nat
    decreases ids.len(),
{
    if ids.len() == 0 {
        0
    } else {
        ids_with(ids.drop_last(), n) + if some_byte_occurs(ids.last().spec_bytes(), n) {
            1nat
        } else {
            0nat
        }
    }
}

proof fn lemma_occurrences_bound(s: Seq<u8>, b: u8)
    ensures
        occurrences(s, b) <= s.len(),
    decreases s.len(),
{
    if s.len() > 0 {
        lemma_occurrences_bound(s.drop_last(), b);
    }
}

proof fn lemma_ids_with_bound(ids: Seq<&str>, n: nat)
    ensures
        ids_with(ids, n) <= ids.len(),
    decreases ids.len(),
{
    if ids.len() > 0 {
        lemma_ids_with_bound(ids.drop_last(), n);
    }
}

/// The running counts: ids with a byte that occurs twice, and ids with one that occurs
/// three times.
#[derive(Clone, Copy, Debug, PartialEq, Eq, Structural)]
pub struct Checksum {
    pub twice: i32,
    pub thrice: i32,
}

impl Checksum {
    /// The checksum: the product of the two counts.
    pub fn calc(self) -> (r: i32)
        requires
            i32::MIN <= self.twice * self.thrice <= i32::MAX,
        ensures
            r == self.twice * self.thrice,
    {
        self.twice * self.thrice
    }

    /// The counts after one more id, which adds one to each count whose flag is set.
    pub fn update(self, inc_twice: bool, inc_thrice: bool) -> (r: Checksum)
        requires
            self.twice < i32::MAX,
            self.thrice < i32::MAX,
        ensures
            r.twice == self.twice + if inc_twice {
                1int
            } else {
                0int
            },
            r.thrice == self.thrice + if inc_thrice {
                1int
            } else {
                0int
            },
    {
        Checksum {
            twice: self.twice + if inc_twice {
                1
            } else {
                0
            },
            thrice: self.thrice + if inc_thrice {
                1
            } else {
                0
            },
        }
    }
}

/// Counts how often each byte occurs in the id.
pub fn build_hash(id: &str) -> (hash: ByteHashMap)
    requires
        id.spec_bytes().len() <= i32::MAX,
    ensures
        counts_of(id.spec_bytes(), hash@),
{
    let bytes = id.as_bytes();
    let mut hash: ByteHashMap = HashMap::new();
    let mut k: usize = 0;
    while k < bytes.len()
        invariant
            bytes@ == id.spec_bytes(),
            bytes@.len() <= i32::MAX,
            k <= bytes@.len(),
            counts_of(bytes@.subrange(0, k as int), hash@),
        decreases bytes@.len() - k,
    {
        let b = bytes[k];
        let ghost before = bytes@.subrange(0, k as int);
        let ghost after = bytes@.subrange(0, k as int + 1);
        assert(after.drop_last() =~= before);
        proof {
            lemma_occurrences_bound(before, b);
        }
        let count = match hash.get(&b) {
            Some(v) => *v,
            None => 0,
        };
        assert(count == occurrences(before, b));
        hash.insert(b, count + 1);
        assert forall|c: u8| #[trigger] hash@.contains_key(c) <==> occurrences(after, c) > 0 by {}
        k = k + 1;
    }
    assert(bytes@.subrange(0, k as int) =~= bytes@);
    hash
}

fn contains_count(hash: &ByteHashMap, n: i32) -> (r: bool)
    ensures
        r == exists|b: u8| #[trigger] hash@.contains_key(b) && hash@[b] == n,
{
    let mut b: u16 = 0;
    while b < 256
        invariant
            b <= 256,
            forall|c: u8| c < b ==> !(#[trigger] hash@.contains_key(c) && hash@[c] == n),
        decreases 256 - b,
    {
        match hash.get(&(b as u8)) {
            Some(v) => {
                if *v == n {
                    return true;
                }
            },
            None => {},
        }
        b = b + 1;
    }
    false
}

/// Whether some byte occurs exactly twice.
pub fn contains_twice(hash: &ByteHashMap) -> (r: bool)
    ensures
        r == exists|b: u8| #[trigger] hash@.contains_key(b) && hash@[b] == 2,
{
    contains_count(hash, 2)
}

/// Whether some byte occurs exactly three times.
pub fn contains_thrice(hash: &ByteHashMap) -> (r: bool)
    ensures
        r == exists|b: u8| #[trigger] hash@.contains_key(b) && hash@[b] == 3,
{
    contains_count(hash, 3)
}

proof fn lemma_counted(s: Seq<u8>, m: Map<u8, i32>, n: i32)
    requires
        counts_of(s, m),
        n > 0,
    ensures
        (exists|b: u8| #[trigger] m.contains_key(b) && m[b] == n) == some_byte_occurs(s, n as nat),
{
    if some_byte_occurs(s, n as nat) {
        let b = choose|b: u8| #[trigger] occurrences(s, b) == n as nat;
        assert(m.contains_key(b));
    }
}

/// The number of ids with a byte that occurs twice, and of those with a byte that
/// occurs three times.
pub fn calculate_checksum(ids: &[&str]) -> (r: Checksum)
    requires
        ids@.len() <= i32::MAX,
        forall|k: int| 0 <= k < ids@.len() ==> (#[trigger] ids@[k]).spec_bytes().len() <= i32::MAX,
    ensures
        r.twice == ids_with(ids@, 2),
        r.thrice == ids_with(ids@, 3),
{
    let mut acc = Checksum { twice: 0, thrice: 0 };
    let mut k: usize = 0;
    while k < ids.len()
        invariant
            k <= ids@.len() <= i32::MAX,
            forall|j: int| 0 <= j < ids@.len() ==> (#[trigger] ids@[j]).spec_bytes().len() <= i32::MAX,
            acc.twice == ids_with(ids@.subrange(0, k as int), 2),
            acc.thrice == ids_with(ids@.subrange(0, k as int), 3),
        decreases ids@.len() - k,
    {
        let ghost before = ids@.subrange(0, k as int);
        assert(ids@.subrange(0, k as int + 1).drop_last() =~= before);
        proof {
            lemma_ids_with_bound(before, 2);
            lemma_ids_with_bound(before, 3);
        }
        let id = ids[k];
        let hash = build_hash(id);
        proof {
            lemma_counted(id.spec_bytes(), hash@, 2);
            lemma_counted(id.spec_bytes(), hash@, 3);
        }
        acc = acc.update(contains_twice(&hash), contains_thrice(&hash));
        k = k + 1;
    }
    assert(ids@.subrange(0, k as int) =~= ids@);
    acc
}

/// `a` and `b` differ at position `i`, within the shorter of the two.
pub open spec fn differ_at(a: Seq<u8>, b: Seq<u8>, i: int) -> bool {
    0 <= i < a.len() && i < b.len() && a[i] != b[i]
}

/// The one position where `a` and `b` differ, where there is exactly one; positions past
/// the end of the shorter are not compared.
pub open spec fn single_difference(a: Seq<u8>, b: Seq<u8>) -> Option<usize> {
    if exists|i: int| #[trigger] differ_at(a, b, i) && forall|j: int| differ_at(a, b, j) ==> j == i {
        Some((choose|i: int| #[trigger] differ_at(a, b, i)) as usize)
    } else {
        None
    }
}

/// The position at which the two ids differ, if they differ in exactly one.
pub fn matches(id1: &str, id2: &str) -> (r: Option<usize>)
    ensures
        r == single_difference(id1.spec_bytes(), id2.spec_bytes()),
{
    let a = id1.as_bytes();
    let b = id2.as_bytes();
    let mut difference: Option<usize> = None;
    let mut i: usize = 0;
    while i < a.len() && i < b.len()
        invariant
            a@ == id1.spec_bytes(),
            b@ == id2.spec_bytes(),
            i <= a@.len(),
            difference matches None ==> forall|j: int| 0 <= j < i ==> !differ_at(a@, b@, j),
            difference matches Some(d) ==> d < i && differ_at(a@, b@, d as int) && forall|j: int|
                0 <= j < i && differ_at(a@, b@, j) ==> j == d,
        decreases a@.len() - i,
    {
        if a[i] != b[i] {
            if difference.is_none() {
                difference = Some(i);
            } else {
                assert(differ_at(a@, b@, i as int));
                return None;
            }
        }
        i = i + 1;
    }
    match difference {
        Some(d) => {
            assert(differ_at(a@, b@, d as int));
        },
        None => {},
    }
    difference
}

/// The first match of `b` among `ids`, each id taken as the first argument.
pub open spec fn first_match(b: Seq<u8>, ids: Seq<&str>) -> Option<usize>
    decreases ids.len(),
{
    if ids.len() == 0 {
        None
    } else {
        match single_difference(ids[0].spec_bytes(), b) {
            Some(p) => Some(p),
            None => first_match(b, ids.drop_first()),
        }
    }
}

/// The position of the one difference between `id` and the first of `ids` that differs
/// from it in exactly one place.
pub fn find_match(id: &str, ids: &[&str]) -> (r: Option<usize>)
    ensures
        r == first_match(id.spec_bytes(), ids@),
{
    let mut k: usize = 0;
    assert(ids@.skip(0) =~= ids@);
    while k < ids.len()
        invariant
            k <= ids@.len(),
            first_match(id.spec_bytes(), ids@) == first_match(id.spec_bytes(), ids@.skip(k as int)),
        decreases ids@.len() - k,
    {
        let ghost rest = ids@.skip(k as int);
        assert(rest[0] == ids@[k as int]);
        assert(rest.drop_first() =~= ids@.skip(k + 1));
        match matches(ids[k], id) {
            Some(p) => return Some(p),
            None => {},
        }
        k = k + 1;
    }
    assert(ids@.skip(k as int).len() == 0);
    None
}

/// The first id with a partner later in the list from which it differs in exactly one
/// place, as the index of that id and the position of the difference.
pub open spec fn first_box(ids: Seq<&str>, from: int) -> Option<(int, usize)>
    decreases ids.len() - from,
{
    if from >= ids.len() || from < 0 {
        None
    } else {
        match first_match(ids[from].spec_bytes(), ids.subrange(from + 1, ids.len() as int)) {
            Some(p) => Some((from, p)),
            None => first_box(ids, from + 1),
        }
    }
}

/// The first id with a partner later in the list that differs from it in exactly one
/// place, with the position of that difference.
pub fn find_box_id<'a>(ids: &[&'a str]) -> (r: Option<(&'a str, usize)>)
    ensures
        match first_box(ids@, 0) {
            Some((i, p)) => r matches Some((id, q)) && id == ids@[i] && q == p,
            None => r is None,
        },
{
    let mut i: usize = 0;
    while i < ids.len()
        invariant
            i <= ids@.len(),
            first_box(ids@, 0) == first_box(ids@, i as int),
        decreases ids@.len() - i,
    {
        let later = &ids[i + 1..ids.len()];
        match find_match(ids[i], later) {
            Some(pos) => return Some((ids[i], pos)),
            None => {},
        }
        i = i + 1;
    }
    None
}

/// The id with the byte at `position` taken out.
pub fn common_letters(pair: (&str, usize)) -> (r: Option<String>)
    requires
        is_ascii(pair.0),
        pair.1 < pair.0@.len(),
    ensures
        r matches Some(s) && s@ == pair.0@.subrange(0, pair.1 as int) + pair.0@.subrange(
            pair.1 + 1,
            pair.0@.len() as int,
        ),
{
    let (id, position) = pair;
    let n = id.unicode_len();
    let mut s = String::from_str(id.substring_ascii(0, position));
    s.append(id.substring_ascii(position + 1, n));
    Some(s)
}

} // verus!
