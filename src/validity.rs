//! Validation of a character sequence as an alphabet: no character may
//! repeat and, given a restriction, every character must belong to it.
use crate::{distinct, Error};
use std::collections::HashSet;
use vstd::prelude::*;

verus! {

broadcast use vstd::std_specs::hash::group_hash_axioms;

/// What validation finds from position `i` of `s` on: the first position
/// whose character already occurs before it, or (with a restriction) is
/// missing from the restriction, gives the error; a duplicate is reported
/// before a missing character at the same position.
pub open spec fn scan(s: Seq<char>, allowed: Option<Seq<char>>, i: int) -> Result<(), Error>
    decreases s.len() - i,
{
    if i < 0 || i >= s.len() {
        Ok(())
    } else if s.take(i).contains(s[i]) {
        Err(Error::DuplicateChar(s[i]))
    } else if allowed is Some && !allowed->0.contains(s[i]) {
        Err(Error::NotSubset(s[i]))
    } else {
        scan(s, allowed, i + 1)
    }
}

/// The outcome of validating `s`, optionally against a restriction.
pub open spec fn validation(s: Seq<char>, allowed: Option<Seq<char>>) -> Result<(), Error> {
    scan(s, allowed, 0)
}

/// Position `j` of `s` breaks validation: its character occurs before it, or
/// is missing from the restriction.
pub open spec fn flawed(s: Seq<char>, allowed: Option<Seq<char>>, j: int) -> bool {
    s.take(j).contains(s[j]) || (allowed is Some && !allowed->0.contains(s[j]))
}

/// Validation from `i` on succeeds exactly when no later position is flawed.
proof fn lemma_scan_ok(s: Seq<char>, allowed: Option<Seq<char>>, i: int)
    requires
        0 <= i <= s.len(),
    ensures
        (scan(s, allowed, i) is Ok) == (forall|j: int|
            i <= j < s.len() ==> !#[trigger] flawed(s, allowed, j)),
    decreases s.len() - i,
{
    if i < s.len() {
        lemma_scan_ok(s, allowed, i + 1);
        if !flawed(s, allowed, i) {
            assert(scan(s, allowed, i) == scan(s, allowed, i + 1));
            assert((forall|j: int| i <= j < s.len() ==> !#[trigger] flawed(s, allowed, j)) == (
            forall|j: int| i + 1 <= j < s.len() ==> !#[trigger] flawed(s, allowed, j)));
        } else {
            assert(scan(s, allowed, i) is Err);
        }
    }
}

/// Validation from `i` on reports the first flawed position `k` at or after `i`.
proof fn lemma_scan_first(s: Seq<char>, allowed: Option<Seq<char>>, i: int, k: int)
    requires
        0 <= i <= k < s.len(),
        flawed(s, allowed, k),
        forall|j: int| i <= j < k ==> !#[trigger] flawed(s, allowed, j),
    ensures
        scan(s, allowed, i) == (if s.take(k).contains(s[k]) {
            Err::<(), Error>(Error::DuplicateChar(s[k]))
        } else {
            Err::<(), Error>(Error::NotSubset(s[k]))
        }),
    decreases k - i,
{
    if i < k {
        assert(!flawed(s, allowed, i));
        lemma_scan_first(s, allowed, i + 1, k);
    }
}

/// A sequence that passes validation has no repeated character.
pub(crate) proof fn lemma_valid_distinct(s: Seq<char>, allowed: Option<Seq<char>>)
    requires
        validation(s, allowed) is Ok,
    ensures
        distinct(s),
{
    lemma_scan_ok(s, allowed, 0);
    assert forall|i: int, j: int| 0 <= i < j < s.len() implies s[i] != s[j] by {
        assert(!flawed(s, allowed, j));
        if s[i] == s[j] {
            assert(s.take(j)[i] == s[j]);
        }
    }
}

/// Building an alphabet from a sequence with a repeated character fails, and
/// the error names the character at the first position that repeats an
/// earlier one.
pub proof fn lemma_first_duplicate_reported(s: Seq<char>, i: int, j: int)
    requires
        0 <= i < j < s.len(),
        s[i] == s[j],
    ensures
        exists|k: int|
            0 <= k < s.len() && #[trigger] s.take(k).contains(s[k]) && (forall|m: int|
                0 <= m < k ==> !#[trigger] s.take(m).contains(s[m])) && validation(s, None)
                == Err::<(), Error>(Error::DuplicateChar(s[k])),
{
    assert(s.take(j)[i] == s[j]);
    assert(s.take(j).contains(s[j]));
    let k = choose_first_repeat(s, j);
    lemma_scan_first(s, None, 0, k);
}

/// The least position at or before `j` whose character repeats an earlier one,
/// given that position `j` does.
proof fn choose_first_repeat(s: Seq<char>, j: int) -> (k: int)
    requires
        0 <= j < s.len(),
        s.take(j).contains(s[j]),
    ensures
        0 <= k <= j,
        s.take(k).contains(s[k]),
        forall|m: int| 0 <= m < k ==> !#[trigger] s.take(m).contains(s[m]),
    decreases j,
{
    if exists|m: int| 0 <= m < j && #[trigger] s.take(m).contains(s[m]) {
        let m = choose|m: int| 0 <= m < j && #[trigger] s.take(m).contains(s[m]);
        choose_first_repeat(s, m)
    } else {
        j
    }
}

/// Validating a duplicate-free sequence against a restriction succeeds when
/// every character is in the restriction, and otherwise reports the first
/// character, in order, that is missing from it.
pub proof fn lemma_subset_validation(a: Seq<char>, b: Seq<char>)
    requires
        distinct(a),
    ensures
        (forall|i: int| 0 <= i < a.len() ==> b.contains(#[trigger] a[i])) ==> validation(a, Some(b)) is Ok,
        forall|k: int|
            0 <= k < a.len() && !b.contains(#[trigger] a[k]) && (forall|m: int|
                0 <= m < k ==> b.contains(#[trigger] a[m])) ==> validation(a, Some(b))
                == Err::<(), Error>(Error::NotSubset(a[k])),
{
    assert forall|j: int| 0 <= j < a.len() implies !a.take(j).contains(#[trigger] a[j]) by {
        if a.take(j).contains(a[j]) {
            let m = choose|m: int| 0 <= m < j && a.take(j)[m] == a[j];
            assert(a[m] == a[j]);
        }
    }
    lemma_scan_ok(a, Some(b), 0);
    assert forall|k: int|
        0 <= k < a.len() && !b.contains(#[trigger] a[k]) && (forall|m: int|
            0 <= m < k ==> b.contains(#[trigger] a[m])) implies validation(a, Some(b))
        == Err::<(), Error>(Error::NotSubset(a[k])) by {
        assert(flawed(a, Some(b), k));
        assert forall|m: int| 0 <= m < k implies !#[trigger] flawed(a, Some(b), m) by {
            assert(b.contains(a[m]));
        }
        lemma_scan_first(a, Some(b), 0, k);
    }
}

/// The characters of any alphabet pass validation again, so an alphabet rebuilt
/// from them (as when it is read back after being written out) equals the
/// original, character for character.
pub proof fn lemma_rebuild(s: Seq<char>)
    requires
        distinct(s),
    ensures
        validation(s, None) is Ok,
{
    lemma_scan_ok(s, None, 0);
    assert forall|j: int| 0 <= j < s.len() implies !#[trigger] flawed(s, None, j) by {
        if s.take(j).contains(s[j]) {
            let m = choose|m: int| 0 <= m < j && s.take(j)[m] == s[j];
            assert(s[m] == s[j]);
        }
    }
}

/// Distinct characters have distinct code points.
proof fn lemma_code_point_injective(a: char, b: char)
    ensures
        (a as u32 == b as u32) == (a == b),
{
}

/// The code points of the characters of `s` before position `i`.
spec fn code_points_before(s: Seq<char>, i: int) -> Set<u32> {
    Set::new(|x: u32| exists|j: int| 0 <= j < i && #[trigger] s[j] as u32 == x)
}

/// The set of code points of the characters of `v`.
fn code_point_set(v: &Vec<char>) -> (r: HashSet<u32>)
    ensures
        r@ == code_points_before(v@, v.len() as int),
{
    let mut set: HashSet<u32> = HashSet::new();
    let mut k: usize = 0;
    while k < v.len()
        invariant
            k <= v.len(),
            set@ == code_points_before(v@, k as int),
        decreases v.len() - k,
    {
        set.insert(v[k] as u32);
        assert(set@ =~= code_points_before(v@, k + 1));
        k = k + 1;
    }
    set
}

/// Validates `chars` in one pass, optionally against a restriction.
pub(crate) fn check_chars(chars: &Vec<char>, allowed: Option<&Vec<char>>) -> (r: Result<(), Error>)
    ensures
        r == validation(
            chars@,
            match allowed {
                Some(a) => Some(a@),
                None => None,
            },
        ),
{
    let ghost s = chars@;
    let ghost al: Option<Seq<char>> = match allowed {
        Some(a) => Some(a@),
        None => None,
    };
    let other: Option<HashSet<u32>> = match allowed {
        Some(a) => Some(code_point_set(a)),
        None => None,
    };
    let mut seen: HashSet<u32> = HashSet::new();
    let mut i: usize = 0;
    while i < chars.len()
        invariant
            s == chars@,
            i <= chars.len(),
            seen@ == code_points_before(s, i as int),
            al == match allowed {
                Some(a) => Some(a@),
                None => None,
            },
            other is Some == al is Some,
            al is Some ==> other->0@ == code_points_before(al->0, al->0.len() as int),
            validation(s, al) == scan(s, al, i as int),
        decreases chars.len() - i,
    {
        let c = chars[i];
        proof {
            assert(s.take(i as int).contains(c) == seen@.contains(c as u32)) by {
                if seen@.contains(c as u32) {
                    let j = choose|j: int| 0 <= j < i && #[trigger] s[j] as u32 == c as u32;
                    lemma_code_point_injective(s[j], c);
                    assert(s.take(i as int)[j] == c);
                }
                if s.take(i as int).contains(c) {
                    let j = choose|j: int| 0 <= j < i && #[trigger] s.take(i as int)[j] == c;
                    assert(s[j] as u32 == c as u32);
                }
            }
        }
        if !seen.insert(c as u32) {
            assert(scan(s, al, i as int) == Err::<(), Error>(Error::DuplicateChar(c)));
            return Err(Error::DuplicateChar(c));
        }
        if let Some(o) = &other {
            proof {
                let a = al->0;
                assert(a.contains(c) == o@.contains(c as u32)) by {
                    if o@.contains(c as u32) {
                        let j = choose|j: int| 0 <= j < a.len() && #[trigger] a[j] as u32 == c as u32;
                        lemma_code_point_injective(a[j], c);
                    }
                    if a.contains(c) {
                        let j = choose|j: int| 0 <= j < a.len() && #[trigger] a[j] == c;
                        assert(a[j] as u32 == c as u32);
                    }
                }
            }
            if !o.contains(&(c as u32)) {
                assert(scan(s, al, i as int) == Err::<(), Error>(Error::NotSubset(c)));
                return Err(Error::NotSubset(c));
            }
        }
        assert(seen@ =~= code_points_before(s, i + 1));
        i = i + 1;
    }
    Ok(())
}

} // verus!
