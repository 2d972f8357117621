use res_patcher::table::{Items, Table};
use res_patcher::text::{
    char_hex_value, char_is_digit, char_is_whitespace, chars_of, eq_ignoring_ascii_case,
    push_decimal, read_number, replace_text, skip_run, substring, trimmed_end,
    CharClass, NumberError,
};

fn chars(text: &str) -> Vec<char> {
    text.chars().collect()
}

fn number(text: &str, max: u64) -> Result<u64, NumberError> {
    read_number(&chars(text), max)
}

#[test]
fn strings_and_characters_convert_both_ways() {
    assert_eq!(chars_of("a\u{00e9}z"), ['a', '\u{00e9}', 'z']);
    assert_eq!(chars_of(""), []);
    assert_eq!(substring(&['h', 'i', '!'], 0, 3), "hi!");
    assert_eq!(substring(&[], 0, 0), "");
    assert_eq!(substring(&chars("hello world"), 6, 11), "world");
    assert_eq!(substring(&chars("hello"), 2, 2), "");
}

#[test]
fn numbers_are_an_optional_plus_and_digits() {
    assert_eq!(number("0", 255), Ok(0));
    assert_eq!(number("255", 255), Ok(255));
    assert_eq!(number("+17", 255), Ok(17));
    assert_eq!(number("000012", 255), Ok(12));
    assert_eq!(number("18446744073709551615", u64::MAX), Ok(u64::MAX));
}

#[test]
fn number_faults_are_told_apart() {
    assert_eq!(number("", 255), Err(NumberError::Empty));
    assert_eq!(number("+", 255), Err(NumberError::InvalidDigit));
    assert_eq!(number("-1", 255), Err(NumberError::InvalidDigit));
    assert_eq!(number("++1", 255), Err(NumberError::InvalidDigit));
    assert_eq!(number("1+", 255), Err(NumberError::InvalidDigit));
    assert_eq!(number(" 1", 255), Err(NumberError::InvalidDigit));
    assert_eq!(number("1 ", 255), Err(NumberError::InvalidDigit));
    assert_eq!(number("1_0", 255), Err(NumberError::InvalidDigit));
    assert_eq!(number("0x10", 255), Err(NumberError::InvalidDigit));
    assert_eq!(number("\u{0661}", 255), Err(NumberError::InvalidDigit));
    assert_eq!(number("256", 255), Err(NumberError::TooLarge));
    assert_eq!(number("18446744073709551616", u64::MAX), Err(NumberError::TooLarge));
    assert_eq!(number("99999999999999999999999", u64::MAX), Err(NumberError::TooLarge));
    assert_eq!(number("99999999999999999999999x", u64::MAX), Err(NumberError::InvalidDigit));
    assert_eq!(NumberError::Empty.message(), "cannot parse integer from empty string");
    assert_eq!(NumberError::InvalidDigit.message(), "invalid digit found in string");
    assert_eq!(NumberError::TooLarge.message(), "number too large to fit in target type");
}

#[test]
fn character_tests() {
    assert!(char_is_digit('0') && char_is_digit('9'));
    assert!(!char_is_digit('a') && !char_is_digit('/') && !char_is_digit(':'));
    assert_eq!(char_hex_value('0'), Some(0));
    assert_eq!(char_hex_value('9'), Some(9));
    assert_eq!(char_hex_value('a'), Some(10));
    assert_eq!(char_hex_value('F'), Some(15));
    assert_eq!(char_hex_value('g'), None);
    assert_eq!(char_hex_value('G'), None);
    for c in ['\t', '\n', '\u{000B}', '\u{000C}', '\r', ' ', '\u{0085}', '\u{00A0}', '\u{2003}', '\u{3000}'] {
        assert!(char_is_whitespace(c));
    }
    for c in ['a', '0', '\u{0008}', '\u{000E}', '\u{200B}', '_'] {
        assert!(!char_is_whitespace(c));
    }
    for code in 0..0x3100u32 {
        if let Some(c) = char::from_u32(code) {
            assert_eq!(char_is_whitespace(c), c.is_whitespace());
        }
    }
}

#[test]
fn classes_hold_what_they_say() {
    assert!(CharClass::Alphanumeric.contains('a'));
    assert!(CharClass::Alphanumeric.contains('Z'));
    assert!(CharClass::Alphanumeric.contains('5'));
    assert!(!CharClass::Alphanumeric.contains('_'));
    assert!(!CharClass::Alphanumeric.contains('\u{00e9}'));
    assert!(CharClass::Blank.contains(' ') && CharClass::Blank.contains('\t'));
    assert!(!CharClass::Blank.contains('\n'));
    assert!(CharClass::Space.contains('\r') && CharClass::Space.contains('\n'));
    assert!(!CharClass::Space.contains('\u{00A0}'));
    assert!(CharClass::LineBody.contains(';') && !CharClass::LineBody.contains('\r'));
    assert!(!CharClass::ValueBody.contains(';') && !CharClass::ValueBody.contains('#'));
    assert!(CharClass::ValueBody.contains('"'));
    assert!(CharClass::Except(']').contains('[') && !CharClass::Except(']').contains(']'));
}

#[test]
fn runs_end_at_the_first_character_outside_the_class() {
    let text = chars("abc12 = x");
    assert_eq!(skip_run(&text, 0, CharClass::Alphanumeric), 5);
    assert_eq!(skip_run(&text, 5, CharClass::Alphanumeric), 5);
    assert_eq!(skip_run(&text, 5, CharClass::Blank), 6);
    assert_eq!(skip_run(&text, 0, CharClass::Except('=')), 6);
    assert_eq!(skip_run(&text, 0, CharClass::LineBody), 9);
    assert_eq!(skip_run(&text, 9, CharClass::LineBody), 9);
}

#[test]
fn trimming_drops_whitespace_at_the_end_only() {
    let text = chars("  a b \t\u{00A0} ");
    assert_eq!(trimmed_end(&text, 0, text.len()), 5);
    assert_eq!(trimmed_end(&text, 0, 2), 0);
    assert_eq!(trimmed_end(&text, 3, 4), 3);
    assert_eq!(trimmed_end(&text, 2, 5), 5);
}

#[test]
fn decimal_digits_are_appended() {
    for n in [0u64, 5, 9, 10, 42, 99, 100, 101, 110, 200, 255, 1234567890, u64::MAX] {
        let mut s = String::from("p");
        push_decimal(&mut s, n);
        assert_eq!(s, format!("p{n}"));
    }
}

#[test]
fn replacing_goes_left_to_right_without_overlap() {
    assert_eq!(replace_text("a\\013\\010b", "\\013\\010", "\n"), "a\nb");
    assert_eq!(replace_text("aaa", "aa", "b"), "ba");
    assert_eq!(replace_text("aaaa", "aa", "b"), "bb");
    assert_eq!(replace_text("abc", "x", "y"), "abc");
    assert_eq!(replace_text("abc", "abcd", "y"), "abc");
    assert_eq!(replace_text("abc", "abc", ""), "");
    assert_eq!(replace_text("", "a", "b"), "");
    assert_eq!(replace_text("abc", "", "y"), "abc");
    assert_eq!(replace_text("xax", "a", "aa"), "xaax");
    assert_eq!(replace_text("\u{00e9}-\u{00e9}", "-", "\u{2014}"), "\u{00e9}\u{2014}\u{00e9}");
}

#[test]
fn table_keeps_first_places_and_last_values() {
    let mut items = Items::new();
    assert_eq!(items.len(), 0);
    assert_eq!(items.get("a"), None);
    items.insert("a".to_string(), "1".to_string());
    items.insert("b".to_string(), "2".to_string());
    items.insert("a".to_string(), "3".to_string());
    assert_eq!(items.len(), 2);
    assert_eq!(items.key_at(0), "a");
    assert_eq!(items.value_at(0), "3");
    assert_eq!(items.key_at(1), "b");
    assert_eq!(items.value_at(1), "2");
    assert_eq!(items.get("a").map(String::as_str), Some("3"));
    assert_eq!(items.get("b").map(String::as_str), Some("2"));
    assert_eq!(items.get("A"), None);
    assert!(items.contains_key("b"));
    assert!(!items.contains_key(""));

    let mut numbers: Table<u32> = Table::new();
    numbers.insert(String::new(), 7);
    assert_eq!(numbers.get(""), Some(&7));
}

#[test]
fn case_of_ascii_letters_is_ignored_in_comparison() {
    assert!(eq_ignoring_ascii_case("SwKotor.EXE", "swkotor.exe"));
    assert!(eq_ignoring_ascii_case("", ""));
    assert!(eq_ignoring_ascii_case("a1_z", "A1_Z"));
    assert!(!eq_ignoring_ascii_case("abc", "abd"));
    assert!(!eq_ignoring_ascii_case("abc", "abcd"));
    assert!(!eq_ignoring_ascii_case("@", "`"));
    assert!(!eq_ignoring_ascii_case("[", "{"));
    assert!(!eq_ignoring_ascii_case("\u{00c9}", "\u{00e9}"));
    assert!(eq_ignoring_ascii_case("\u{00e9}X", "\u{00e9}x"));
    for a in 0..128u8 {
        for b in 0..128u8 {
            let (x, y) = ((a as char).to_string(), (b as char).to_string());
            assert_eq!(eq_ignoring_ascii_case(&x, &y), x.eq_ignore_ascii_case(&y));
        }
    }
}

#[test]
fn skipping_from_behind_the_end_stays_there() {
    assert_eq!(skip_run(&chars("ab"), 5, CharClass::Alphanumeric), 5);
}
