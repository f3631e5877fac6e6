//! Alphabets: ordered sets of distinct characters that serve as the digit
//! symbols of a bijective numeral system, for short identifiers.
use vstd::prelude::*;

pub mod numeral_system;
pub mod validity;

pub use numeral_system::{lemma_numeral_injective, lemma_run_is_pointwise, numeral, numerals};
pub use validity::{
    flawed, lemma_first_duplicate_reported, lemma_rebuild, lemma_subset_validation, scan,
    validation,
};

use numeral_system::push_char;
use validity::{check_chars, lemma_valid_distinct};

verus! {

/// An ordered set of distinct characters; the character at position `i` is
/// the digit symbol of value `i` in a bijective numeral system.
#[derive(Debug, PartialEq, Eq, Hash)]
pub struct Alphabet {
    chars: Vec<char>,
}

/// Why a character sequence is not an acceptable alphabet.
#[derive(Debug, Clone, PartialEq, Eq, Hash)]
pub enum Error {
    /// The character occurs more than once.
    DuplicateChar(char),
    /// The character is missing from the restricting alphabet.
    NotSubset(char),
}

/// No character occurs twice in `s`.
pub open spec fn distinct(s: Seq<char>) -> bool {
    forall|i: int, j: int| 0 <= i < j < s.len() ==> s[i] != s[j]
}

/// The characters of a restricting alphabet, if one is given.
pub open spec fn restriction(allowed: Option<Alphabet>) -> Option<Seq<char>> {
    match allowed {
        Some(a) => Some(a@),
        None => None,
    }
}

/// The characters of `s`, in order.
fn chars_of(s: &str) -> (r: Vec<char>)
    ensures
        r@ == s@,
{
    let mut v: Vec<char> = Vec::new();
    for c in it: s.chars()
        invariant
            v@ == it.seq().take(it.index() as int),
    {
        v.push(c);
    }
    v
}

impl View for Alphabet {
    type V = Seq<char>;

    closed spec fn view(&self) -> Seq<char> {
        self.chars@
    }
}

impl Clone for Alphabet {
    fn clone(&self) -> (r: Self)
        ensures
            r@ == self@,
    {
        proof {
            use_type_invariant(self);
        }
        Alphabet { chars: self.chars.clone() }
    }
}

impl Alphabet {
    #[verifier::type_invariant]
    spec fn inv(self) -> bool {
        distinct(self.chars@)
    }

    /// Binary digits.
    pub const BASE_2: &'static str = "01";
    /// Decimal digits.
    pub const BASE_10: &'static str = "0123456789";
    /// Upper-case hexadecimal digits.
    pub const BASE_16: &'static str = "0123456789ABCDEF";
    /// Digits, then upper-case and lower-case Latin letters.
    pub const BASE_62: &'static str = "0123456789ABCDEFGHIJKLMNOPQRSTUVWXYZabcdefghijklmnopqrstuvwxyz";
    /// The 62 alphanumerics followed by `+` and `/`.
    pub const BASE_64: &'static str = "0123456789ABCDEFGHIJKLMNOPQRSTUVWXYZabcdefghijklmnopqrstuvwxyz+/";
    /// Decimal digits.
    pub const NUMBERS: &'static str = Self::BASE_10;
    /// Upper-case hexadecimal digits.
    pub const HEX: &'static str = Self::BASE_16;
    /// Lower-case Latin letters.
    pub const LETTERS_LOWERCASE: &'static str = "abcdefghijklmnopqrstuvwxyz";
    /// Upper-case Latin letters.
    pub const LETTERS_UPPERCASE: &'static str = "ABCDEFGHIJKLMNOPQRSTUVWXYZ";
    /// Upper-case, then lower-case Latin letters.
    pub const LETTERS: &'static str = "ABCDEFGHIJKLMNOPQRSTUVWXYZabcdefghijklmnopqrstuvwxyz";
    /// The unreserved characters of URLs (RFC 3986), in ASCII order.
    pub const URL_UNRESERVED_RFC3986: &'static str = "-.0123456789ABCDEFGHIJKLMNOPQRSTUVWXYZ_abcdefghijklmnopqrstuvwxyz~";
    /// The printable ASCII characters, space included, in ASCII order.
    pub const ASCII: &'static str = " !\"#$%&'()*+,-./0123456789:;<=>?@ABCDEFGHIJKLMNOPQRSTUVWXYZ[\\]^_`abcdefghijklmnopqrstuvwxyz{|}~";

    /// An alphabet of `chars`, in the given order, if no character repeats;
    /// otherwise the first repeated character, in order.
    pub fn new(chars: Vec<char>) -> (r: Result<Self, Error>)
        ensures
            match r {
                Ok(a) => validation(chars@, None) is Ok && a@ == chars@,
                Err(e) => validation(chars@, None) == Err::<(), Error>(e),
            },
    {
        match check_chars(&chars, None) {
            Ok(()) => {
                proof {
                    lemma_valid_distinct(chars@, None);
                }
                Ok(Alphabet { chars })
            },
            Err(e) => Err(e),
        }
    }

    /// An alphabet of the characters of `string`, in order; see [`Alphabet::new`].
    pub fn from(string: &str) -> (r: Result<Alphabet, Error>)
        ensures
            match r {
                Ok(a) => validation(string@, None) is Ok && a@ == string@,
                Err(e) => validation(string@, None) == Err::<(), Error>(e),
            },
    {
        Self::new(chars_of(string))
    }

    /// Checks that no character repeats and, with `allowed_chars`, that every
    /// character belongs to it; reports the first offending character in order.
    pub fn verify(&self, allowed_chars: Option<Alphabet>) -> (r: Result<(), Error>)
        ensures
            r == validation(self@, restriction(allowed_chars)),
    {
        match allowed_chars {
            Some(a) => check_chars(&self.chars, Some(&a.chars)),
            None => check_chars(&self.chars, None),
        }
    }

    /// The numeral of `idx`, built from its last digit backwards.
    fn numeral_of(&self, idx: i64) -> (r: String)
        requires
            self@.len() > 0,
        ensures
            r@ == numeral(self@, idx as int),
    {
        let n: u128 = self.chars.len() as u128;
        let mut backwards: Vec<char> = Vec::new();
        let mut current: i64 = idx;
        while current >= 0
            invariant
                n == self@.len(),
                n > 0,
                numeral(self@, idx as int) == numeral(self@, current as int) + backwards@.reverse(),
            decreases current + 1,
        {
            let cur: u128 = current as u128;
            let remainder: u128 = cur % n;
            let quotient: u128 = cur / n;
            assert(quotient <= cur && remainder < n) by (nonlinear_arith)
                requires
                    quotient == cur / n,
                    remainder == cur % n,
                    n > 0,
            ;
            assert(remainder < self.chars.len());
            let c = self.chars[remainder as usize];
            proof {
                let d = self@;
                assert(remainder as int == current as int % (n as int));
                assert(c == d[current as int % (n as int)]);
                assert(quotient as int == current as int / (n as int));
                assert(numeral(d, current as int) == numeral(d, quotient as int - 1).push(c));
                assert(backwards@.push(c).reverse() =~= seq![c] + backwards@.reverse());
                assert(numeral(d, current as int) + backwards@.reverse() =~= numeral(
                    d,
                    quotient as int - 1,
                ) + backwards@.push(c).reverse());
            }
            backwards.push(c);
            current = quotient as i64 - 1;
        }
        assert(numeral(self@, idx as int) =~= backwards@.reverse());
        let mut s = String::new();
        let mut k: usize = backwards.len();
        while k > 0
            invariant
                k <= backwards.len(),
                s@ =~= backwards@.reverse().take(backwards.len() - k),
            decreases k,
        {
            k = k - 1;
            push_char(&mut s, backwards[k]);
        }
        s
    }

    /// The numerals of the `count` consecutive indices from `start` on, in
    /// order; none when `count` is not positive.
    pub fn generate(&self, start: i64, count: i64) -> (r: Vec<String>)
        requires
            self@.len() > 0,
            i64::MIN <= start + count <= i64::MAX,
        ensures
            r@.map_values(|w: String| w@) == numerals(self@, start as int, count as int),
    {
        let mut result: Vec<String> = Vec::new();
        let end: i64 = start + count;
        let mut index: i64 = start;
        while index < end
            invariant
                self@.len() > 0,
                end == start + count,
                start <= index,
                index <= end || index == start,
                result.len() == index - start,
                forall|k: int| 0 <= k < result.len() ==> #[trigger] result[k]@ == numeral(self@, start + k),
            decreases end - index,
        {
            let s = self.numeral_of(index);
            result.push(s);
            index = index + 1;
        }
        assert(result@.map_values(|w: String| w@) =~= numerals(self@, start as int, count as int));
        result
    }

    /// The characters, in digit order.
    pub fn chars(&self) -> (r: &Vec<char>)
        ensures
            r@ == self@,
            distinct(r@),
    {
        proof {
            use_type_invariant(self);
        }
        &self.chars
    }

    /// The digit symbol of value `i`.
    pub fn index(&self, i: usize) -> (r: char)
        requires
            i < self@.len(),
        ensures
            r == self@[i as int],
    {
        self.chars[i]
    }

}

} // verus!
