//! The bijective numeral system over an alphabet's characters: what the
//! numeral of an index is, and the laws that numerals obey.
use crate::distinct;
use vstd::prelude::*;

verus! {

/// The numeral of `idx` in the bijective numeral system whose digit symbols
/// are `digits`, with `n = digits.len()`: a negative index has the empty
/// numeral; otherwise the last digit has value `idx % n` and what precedes it
/// is the numeral of `idx / n - 1`.
pub open spec fn numeral(digits: Seq<char>, idx: int) -> Seq<char>
    decreases idx + 1,
    via numeral_decreases
{
    if idx < 0 || digits.len() == 0 {
        Seq::empty()
    } else {
        let n = digits.len() as int;
        numeral(digits, idx / n - 1).push(digits[idx % n])
    }
}

/// Each step of `numeral` moves to a smaller index.
#[via_fn]
proof fn numeral_decreases(digits: Seq<char>, idx: int) {
    if !(idx < 0 || digits.len() == 0) {
        let n = digits.len() as int;
        assert(0 <= idx / n <= idx) by (nonlinear_arith)
            requires
                idx >= 0,
                n >= 1,
        ;
    }
}

/// The numerals of the `count` consecutive indices from `start` on, in order;
/// none when `count` is not positive.
pub open spec fn numerals(digits: Seq<char>, start: int, count: int) -> Seq<Seq<char>> {
    Seq::new(if count > 0 { count as nat } else { 0 }, |k: int| numeral(digits, start + k))
}

/// Distinct non-negative indices have distinct numerals over any non-empty
/// alphabet (of two or more characters, and also of a single one).
pub proof fn lemma_numeral_injective(digits: Seq<char>, i: int, j: int)
    requires
        digits.len() >= 1,
        distinct(digits),
        0 <= i,
        0 <= j,
        i != j,
    ensures
        numeral(digits, i) != numeral(digits, j),
    decreases i + j,
{
    let n = digits.len() as int;
    let qi = i / n - 1;
    let qj = j / n - 1;
    assert(-1 <= qi < i && -1 <= qj < j && 0 <= i % n < n && 0 <= j % n < n) by (nonlinear_arith)
        requires
            n >= 1,
            i >= 0,
            j >= 0,
            qi == i / n - 1,
            qj == j / n - 1,
    ;
    let wi = numeral(digits, i);
    let wj = numeral(digits, j);
    if wi == wj {
        assert(wi == numeral(digits, qi).push(digits[i % n]));
        assert(wj == numeral(digits, qj).push(digits[j % n]));
        assert(wi.last() == digits[i % n]);
        assert(wj.last() == digits[j % n]);
        assert(i % n == j % n);
        assert(wi.drop_last() =~= numeral(digits, qi));
        assert(wj.drop_last() =~= numeral(digits, qj));
        if qi == qj {
            assert(i == j) by (nonlinear_arith)
                requires
                    n >= 1,
                    i / n == j / n,
                    i % n == j % n,
            ;
        } else if qi >= 0 && qj >= 0 {
            lemma_numeral_injective(digits, qi, qj);
        } else if qi < 0 {
            assert(numeral(digits, qj).len() > 0);
        } else {
            assert(numeral(digits, qi).len() > 0);
        }
    }
}

/// A run of numerals agrees, position by position, with the numerals
/// generated one index at a time: the run from `start` of length `count` is
/// the concatenation of the one-element runs from `start`, `start + 1`, and
/// so on.
pub proof fn lemma_run_is_pointwise(digits: Seq<char>, start: int, count: int)
    ensures
        numerals(digits, start, count).len() == (if count > 0 { count } else { 0 }),
        forall|k: int|
            0 <= k < numerals(digits, start, count).len() ==> (#[trigger] numerals(
                digits,
                start + k,
                1,
            )).len() == 1 && numerals(digits, start, count)[k] == numerals(digits, start + k, 1)[0],
{
    assert forall|k: int| 0 <= k < numerals(digits, start, count).len() implies (
    #[trigger] numerals(digits, start + k, 1)).len() == 1 && numerals(digits, start, count)[k]
        == numerals(digits, start + k, 1)[0] by {
        assert(start + k + 0 == start + k);
    }
}

/// Relies on String::push: appends `c` at the end of `s`.
#[verifier::external_body]
pub(crate) fn push_char(s: &mut String, c: char)
    ensures
        final(s)@ == old(s)@.push(c),
{
    s.push(c);
}

} // verus!
