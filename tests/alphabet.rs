use alphabet::{Alphabet, Error};

#[test]
fn test_abcdef() {
    assert_eq!(Alphabet::from("abcdef").unwrap().generate(4, 5), vec!["e", "f", "aa", "ab", "ac"]);
}

#[test]
fn test_numbers() {
    let alphabet = Alphabet::from(Alphabet::NUMBERS).unwrap();
    assert_eq!(alphabet.generate(0, 3), vec!["0", "1", "2"]);
    assert_eq!(alphabet.generate(3, 3), vec!["3", "4", "5"]);
    assert_eq!(alphabet.generate(10, 3), vec!["00", "01", "02"]);
}

#[test]
fn test_alphabet_generate() {
    let alphabet = Alphabet::new("abc".chars().collect()).unwrap();
    assert_eq!(alphabet.generate(0, 3), vec!["a", "b", "c"]);
    assert_eq!(alphabet.generate(3, 3), vec!["aa", "ab", "ac"]);
    assert_eq!(alphabet.generate(6, 3), vec!["ba", "bb", "bc"]);
    assert_eq!(alphabet.generate(3, 7), vec!["aa", "ab", "ac", "ba", "bb", "bc", "ca"]);
}

#[test]
fn test_ser_de() {
    let alphabet = Alphabet::new("abc".chars().collect()).unwrap();
    let ser = serde_json::to_string(alphabet.chars()).unwrap();
    let de = Alphabet::new(serde_json::from_str::<Vec<char>>(&ser).unwrap()).unwrap();
    assert_eq!(alphabet, de);
}

#[test]
fn duplicate_reports_first_repeated_character() {
    assert_eq!(Alphabet::from("abcb"), Err(Error::DuplicateChar('b')));
    assert_eq!(Alphabet::from("abcbca"), Err(Error::DuplicateChar('b')));
    assert_eq!(Alphabet::new(vec!['x', 'y', 'x', 'y']), Err(Error::DuplicateChar('x')));
}

#[test]
fn empty_alphabet_is_valid() {
    let alphabet = Alphabet::from("").unwrap();
    assert!(alphabet.chars().is_empty());
    assert_eq!(alphabet.verify(None), Ok(()));
}

#[test]
fn subset_reports_first_missing_character() {
    let restriction = Alphabet::from(Alphabet::LETTERS_LOWERCASE).unwrap();
    let a = Alphabet::from("ab1c2").unwrap();
    assert_eq!(a.verify(Some(restriction.clone())), Err(Error::NotSubset('1')));
    let b = Alphabet::from("zyx").unwrap();
    assert_eq!(b.verify(Some(restriction)), Ok(()));
}

#[test]
fn subset_of_itself_and_of_larger_sets() {
    let hex = Alphabet::from(Alphabet::HEX).unwrap();
    assert_eq!(hex.verify(Some(hex.clone())), Ok(()));
    assert_eq!(hex.verify(Some(Alphabet::from(Alphabet::BASE_62).unwrap())), Ok(()));
    assert_eq!(
        Alphabet::from(Alphabet::BASE_64)
            .unwrap()
            .verify(Some(Alphabet::from(Alphabet::BASE_62).unwrap())),
        Err(Error::NotSubset('+'))
    );
}

#[test]
fn standard_alphabets_are_valid() {
    for s in [
        Alphabet::BASE_2,
        Alphabet::BASE_10,
        Alphabet::BASE_16,
        Alphabet::BASE_62,
        Alphabet::BASE_64,
        Alphabet::NUMBERS,
        Alphabet::HEX,
        Alphabet::LETTERS_LOWERCASE,
        Alphabet::LETTERS_UPPERCASE,
        Alphabet::LETTERS,
        Alphabet::URL_UNRESERVED_RFC3986,
        Alphabet::ASCII,
    ] {
        let a = Alphabet::from(s).unwrap();
        assert_eq!(a.chars().len(), s.chars().count());
        let ascii = Alphabet::from(Alphabet::ASCII).unwrap();
        assert_eq!(a.verify(Some(ascii)), Ok(()));
    }
    assert_eq!(Alphabet::ASCII.chars().count(), 95);
    assert_eq!(Alphabet::BASE_64.chars().count(), 64);
}

#[test]
fn from_keeps_character_order() {
    let a = Alphabet::from("zéa").unwrap();
    assert_eq!(a.chars(), &vec!['z', 'é', 'a']);
    assert_eq!(a.index(0), 'z');
    assert_eq!(a.index(1), 'é');
    assert_eq!(a.index(2), 'a');
}

#[test]
fn index_gives_digit_symbol() {
    let a = Alphabet::from(Alphabet::HEX).unwrap();
    assert_eq!(a.index(10), 'A');
    assert_eq!(a.index(15), 'F');
}

#[test]
fn binary_numerals() {
    let a = Alphabet::from(Alphabet::BASE_2).unwrap();
    assert_eq!(a.generate(0, 7), vec!["0", "1", "00", "01", "10", "11", "000"]);
}

#[test]
fn single_character_alphabet_counts_in_unary() {
    let a = Alphabet::from("a").unwrap();
    assert_eq!(a.generate(0, 4), vec!["a", "aa", "aaa", "aaaa"]);
}

#[test]
fn non_positive_count_gives_nothing() {
    let a = Alphabet::from("abc").unwrap();
    assert!(a.generate(5, 0).is_empty());
    assert!(a.generate(5, -3).is_empty());
}

#[test]
fn negative_index_gives_empty_numeral() {
    let a = Alphabet::from("abc").unwrap();
    assert_eq!(a.generate(-2, 3), vec!["", "", "a"]);
}

#[test]
fn multi_digit_numeral_is_in_reading_order() {
    let a = Alphabet::from("abc").unwrap();
    // 3 + 9 = 12 one- and two-digit numerals precede "aaa"; 12 + 5 = 17 is "abc".
    assert_eq!(a.generate(12, 1), vec!["aaa"]);
    assert_eq!(a.generate(17, 1), vec!["abc"]);
    assert_eq!(a.generate(38, 1), vec!["ccc"]);
    assert_eq!(a.generate(39, 1), vec!["aaaa"]);
}

#[test]
fn large_indices_near_the_top() {
    let a = Alphabet::from(Alphabet::BASE_62).unwrap();
    let r = a.generate(i64::MAX - 1, 1);
    assert_eq!(r.len(), 1);
    assert!(r[0].len() >= 10);
}

#[test]
fn distinct_indices_give_distinct_numerals() {
    let a = Alphabet::from("xyz").unwrap();
    let all = a.generate(0, 200);
    let set: std::collections::HashSet<&String> = all.iter().collect();
    assert_eq!(set.len(), 200);
}

#[test]
fn run_matches_one_at_a_time() {
    let a = Alphabet::from("abcdef").unwrap();
    let run = a.generate(30, 50);
    assert_eq!(run.len(), 50);
    for (k, w) in run.iter().enumerate() {
        assert_eq!(a.generate(30 + k as i64, 1), vec![w.clone()]);
    }
}

#[test]
fn clone_is_equal() {
    let a = Alphabet::from("qwerty").unwrap();
    assert_eq!(a.clone(), a);
}
