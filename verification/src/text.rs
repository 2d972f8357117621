//! Characters, runs of characters and the few conversions between text and
//! numbers that the configuration format needs.

use vstd::prelude::*;

verus! {

/// An ASCII decimal digit.
pub open spec fn is_digit(c: char) -> bool {
    '0' <= c <= '9'
}

/// An ASCII letter or decimal digit.
pub open spec fn is_alphanumeric(c: char) -> bool {
    is_digit(c) || 'a' <= c <= 'z' || 'A' <= c <= 'Z'
}

/// A character that Unicode counts as whitespace (`White_Space`).
pub open spec fn is_whitespace(c: char) -> bool {
    ||| '\u{0009}' <= c <= '\u{000D}'
    ||| c == ' '
    ||| c == '\u{0085}'
    ||| c == '\u{00A0}'
    ||| c == '\u{1680}'
    ||| '\u{2000}' <= c <= '\u{200A}'
    ||| c == '\u{2028}'
    ||| c == '\u{2029}'
    ||| c == '\u{202F}'
    ||| c == '\u{205F}'
    ||| c == '\u{3000}'
}

/// The value of a hexadecimal digit, in either case; `None` for any other character.
pub open spec fn hex_value(c: char) -> Option<u8> {
    if '0' <= c <= '9' {
        Some((c as u32 - '0' as u32) as u8)
    } else if 'a' <= c <= 'f' {
        Some((c as u32 - 'a' as u32 + 10) as u8)
    } else if 'A' <= c <= 'F' {
        Some((c as u32 - 'A' as u32 + 10) as u8)
    } else {
        None
    }
}

/// Whether `c` is an ASCII decimal digit.
pub fn char_is_digit(c: char) -> (b: bool)
    ensures
        b == is_digit(c),
{
    '0' <= c && c <= '9'
}

/// Whether Unicode counts `c` as whitespace.
pub fn char_is_whitespace(c: char) -> (b: bool)
    ensures
        b == is_whitespace(c),
{
    ('\u{0009}' <= c && c <= '\u{000D}') || c == ' ' || c == '\u{0085}' || c == '\u{00A0}' || c
        == '\u{1680}' || ('\u{2000}' <= c && c <= '\u{200A}') || c == '\u{2028}' || c
        == '\u{2029}' || c == '\u{202F}' || c == '\u{205F}' || c == '\u{3000}'
}

/// The value of `c` as a hexadecimal digit.
pub fn char_hex_value(c: char) -> (v: Option<u8>)
    ensures
        v == hex_value(c),
        v matches Some(d) ==> d < 16,
{
    if '0' <= c && c <= '9' {
        Some((c as u32 - '0' as u32) as u8)
    } else if 'a' <= c && c <= 'f' {
        Some((c as u32 - 'a' as u32 + 10) as u8)
    } else if 'A' <= c && c <= 'F' {
        Some((c as u32 - 'A' as u32 + 10) as u8)
    } else {
        None
    }
}

/// The sets of characters that the configuration grammar scans over.
#[derive(Debug, Clone, Copy, PartialEq, Eq, Structural)]
pub enum CharClass {
    /// ASCII letters and digits.
    Alphanumeric,
    /// Space and tab.
    Blank,
    /// Space, tab, carriage return and line feed.
    Space,
    /// Every character but carriage return and line feed.
    LineBody,
    /// Every character but carriage return, line feed and the comment markers `;` and `#`.
    ValueBody,
    /// Every character but the given one.
    Except(char),
}

impl CharClass {
    /// Whether `c` belongs to the class.
    pub open spec fn has(self, c: char) -> bool {
        match self {
            CharClass::Alphanumeric => is_alphanumeric(c),
            CharClass::Blank => c == ' ' || c == '\t',
            CharClass::Space => c == ' ' || c == '\t' || c == '\r' || c == '\n',
            CharClass::LineBody => c != '\r' && c != '\n',
            CharClass::ValueBody => c != '\r' && c != '\n' && c != ';' && c != '#',
            CharClass::Except(x) => c != x,
        }
    }

    /// Whether `c` belongs to the class.
    pub fn contains(self, c: char) -> (b: bool)
        ensures
            b == self.has(c),
    {
        match self {
            CharClass::Alphanumeric => {
                ('0' <= c && c <= '9') || ('a' <= c && c <= 'z') || ('A' <= c && c <= 'Z')
            },
            CharClass::Blank => c == ' ' || c == '\t',
            CharClass::Space => c == ' ' || c == '\t' || c == '\r' || c == '\n',
            CharClass::LineBody => c != '\r' && c != '\n',
            CharClass::ValueBody => c != '\r' && c != '\n' && c != ';' && c != '#',
            CharClass::Except(x) => c != x,
        }
    }
}

/// Where the longest run of characters of `class` that starts at `from` ends:
/// the first position at or after `from` that holds a character outside the
/// class, or the length of `s` if there is none.
pub open spec fn run_end(s: Seq<char>, from: int, class: CharClass) -> int
    decreases s.len() - from,
{
    if 0 <= from < s.len() && class.has(s[from]) {
        run_end(s, from + 1, class)
    } else {
        from
    }
}

/// `run_end` stops inside the text, after a run made only of the class, at a
/// character outside it or at the end.
pub proof fn lemma_run_end(s: Seq<char>, from: int, class: CharClass)
    requires
        0 <= from <= s.len(),
    ensures
        from <= run_end(s, from, class) <= s.len(),
        forall|k: int| from <= k < run_end(s, from, class) ==> class.has(#[trigger] s[k]),
        run_end(s, from, class) < s.len() ==> !class.has(s[run_end(s, from, class)]),
    decreases s.len() - from,
{
    if from < s.len() && class.has(s[from]) {
        lemma_run_end(s, from + 1, class);
    }
}

/// A position that ends a run of the class is where `run_end` stops.
pub proof fn lemma_run_end_is(s: Seq<char>, from: int, class: CharClass, end: int)
    requires
        0 <= from <= end <= s.len(),
        forall|k: int| from <= k < end ==> class.has(#[trigger] s[k]),
        end < s.len() ==> !class.has(s[end]),
    ensures
        run_end(s, from, class) == end,
    decreases end - from,
{
    if from < end {
        lemma_run_end_is(s, from + 1, class, end);
    }
}

/// Skips the longest run of characters of `class` that starts at `from`.
pub fn skip_run(text: &[char], from: usize, class: CharClass) -> (end: usize)
    ensures
        end == run_end(text@, from as int, class),
        from <= end,
        from <= text@.len() ==> end <= text@.len(),
{
    if from > text.len() {
        return from;
    }
    let mut i: usize = from;
    while i < text.len() && class.contains(text[i])
        invariant
            from <= i <= text@.len(),
            forall|k: int| from <= k < i ==> class.has(#[trigger] text@[k]),
        decreases text@.len() - i,
    {
        i += 1;
    }
    proof {
        lemma_run_end_is(text@, from as int, class, i as int);
    }
    i
}

/// `String::push`: the string afterwards is the string before with `c` appended.
#[verifier::external_body]
pub(crate) fn push_char(s: &mut String, c: char)
    ensures
        final(s)@ == old(s)@.push(c),
{
    s.push(c)
}

/// The characters of a string, in order.
pub fn chars_of(s: &str) -> (chars: Vec<char>)
    ensures
        chars@ == s@,
{
    let mut chars: Vec<char> = Vec::new();
    for c in it: s.chars()
        invariant
            chars@ == it.seq().take(it.index() as int),
            it.seq() == s@,
    {
        chars.push(c);
    }
    chars
}

/// The string made of the characters of `text` from `from` up to, not including, `to`.
pub fn substring(text: &[char], from: usize, to: usize) -> (s: String)
    requires
        from <= to <= text@.len(),
    ensures
        s@ == text@.subrange(from as int, to as int),
{
    let mut s = String::new();
    let mut i: usize = from;
    while i < to
        invariant
            from <= i <= to <= text@.len(),
            s@ == text@.subrange(from as int, i as int),
        decreases to - i,
    {
        push_char(&mut s, text[i]);
        i += 1;
    }
    s
}

/// `s` without the whitespace at its end.
pub open spec fn trim_end(s: Seq<char>) -> Seq<char>
    decreases s.len(),
{
    if s.len() > 0 && is_whitespace(s.last()) {
        trim_end(s.drop_last())
    } else {
        s
    }
}

/// The end of the part of `text[from..to]` that is left when the whitespace at
/// its end is dropped.
pub fn trimmed_end(text: &[char], from: usize, to: usize) -> (end: usize)
    requires
        from <= to <= text@.len(),
    ensures
        from <= end <= to,
        text@.subrange(from as int, end as int) == trim_end(text@.subrange(from as int, to as int)),
{
    let mut end: usize = to;
    while end > from && char_is_whitespace(text[end - 1])
        invariant
            from <= end <= to <= text@.len(),
            trim_end(text@.subrange(from as int, end as int)) == trim_end(
                text@.subrange(from as int, to as int),
            ),
        decreases end - from,
    {
        assert(text@.subrange(from as int, end as int).drop_last() == text@.subrange(
            from as int,
            end - 1,
        ));
        end -= 1;
    }
    end
}

/// Why a text is not an unsigned decimal number that fits a given range.
#[derive(Debug, Clone, Copy, PartialEq, Eq, Structural)]
pub enum NumberError {
    /// The text is empty.
    Empty,
    /// Behind an optional `+` there is no digit, or something that is no digit.
    InvalidDigit,
    /// The digits spell a number above the largest value allowed.
    TooLarge,
}

impl NumberError {
    /// The sentence that describes the fault.
    pub open spec fn text(self) -> Seq<char> {
        match self {
            NumberError::Empty => "cannot parse integer from empty string"@,
            NumberError::InvalidDigit => "invalid digit found in string"@,
            NumberError::TooLarge => "number too large to fit in target type"@,
        }
    }

    /// The sentence that describes the fault.
    pub fn message(self) -> (msg: &'static str)
        ensures
            msg@ == self.text(),
    {
        match self {
            NumberError::Empty => "cannot parse integer from empty string",
            NumberError::InvalidDigit => "invalid digit found in string",
            NumberError::TooLarge => "number too large to fit in target type",
        }
    }
}

/// The number that a sequence of decimal digits spells; 0 for the empty sequence.
pub open spec fn digits_value(s: Seq<char>) -> nat
    decreases s.len(),
{
    if s.len() == 0 {
        0
    } else {
        digits_value(s.drop_last()) * 10 + (s.last() as nat - '0' as nat) as nat
    }
}

/// Whether `s` is made of decimal digits alone.
pub open spec fn all_digits(s: Seq<char>) -> bool {
    forall|i: int| 0 <= i < s.len() ==> is_digit(#[trigger] s[i])
}

/// `s` without the `+` that may stand in front of a number.
pub open spec fn unsigned_digits(s: Seq<char>) -> Seq<char> {
    if s.len() > 0 && s[0] == '+' {
        s.skip(1)
    } else {
        s
    }
}

/// The number that `s` spells, when `s` is an optional `+` followed by one or
/// more decimal digits whose value is at most `max`; otherwise what is wrong
/// with it.
pub open spec fn parse_number(s: Seq<char>, max: nat) -> Result<nat, NumberError> {
    let digits = unsigned_digits(s);
    if s.len() == 0 {
        Err(NumberError::Empty)
    } else if digits.len() == 0 || !all_digits(digits) {
        Err(NumberError::InvalidDigit)
    } else if digits_value(digits) > max {
        Err(NumberError::TooLarge)
    } else {
        Ok(digits_value(digits))
    }
}

proof fn lemma_digits_value_step(s: Seq<char>, k: int)
    requires
        0 <= k < s.len(),
    ensures
        digits_value(s.take(k + 1)) == digits_value(s.take(k)) * 10 + (s[k] as nat - '0' as nat) as nat,
{
    assert(s.take(k + 1).drop_last() == s.take(k));
}

proof fn lemma_digits_value_grows(s: Seq<char>, k: int)
    requires
        0 <= k <= s.len(),
    ensures
        digits_value(s.take(k)) <= digits_value(s),
    decreases s.len() - k,
{
    if k < s.len() {
        lemma_digits_value_step(s, k);
        lemma_digits_value_grows(s, k + 1);
    } else {
        assert(s.take(k) == s);
    }
}

/// Reads an unsigned decimal number of at most `max` from the whole of `text`.
pub fn read_number(text: &[char], max: u64) -> (r: Result<u64, NumberError>)
    ensures
        match parse_number(text@, max as nat) {
            Ok(n) => r == Ok::<u64, NumberError>(n as u64),
            Err(e) => r == Err::<u64, NumberError>(e),
        },
{
    if text.len() == 0 {
        return Err(NumberError::Empty);
    }
    let start: usize = if text[0] == '+' {
        1
    } else {
        0
    };
    let ghost digits = unsigned_digits(text@);
    if start == text.len() {
        return Err(NumberError::InvalidDigit);
    }
    let mut i: usize = start;
    while i < text.len()
        invariant
            start <= i <= text@.len(),
            start < text@.len(),
            digits == text@.skip(start as int),
            digits == unsigned_digits(text@),
            forall|k: int| 0 <= k < i - start ==> is_digit(#[trigger] digits[k]),
        decreases text@.len() - i,
    {
        if !char_is_digit(text[i]) {
            assert(!is_digit(digits[i - start]));
            return Err(NumberError::InvalidDigit);
        }
        i += 1;
    }
    let mut value: u64 = 0;
    let mut i: usize = start;
    while i < text.len()
        invariant
            start <= i <= text@.len(),
            start < text@.len(),
            digits == text@.skip(start as int),
            digits == unsigned_digits(text@),
            all_digits(digits),
            value == digits_value(digits.take(i - start)),
            value <= max,
        decreases text@.len() - i,
    {
        let c = text[i];
        assert(is_digit(digits[i - start]));
        let d: u64 = (c as u32 - '0' as u32) as u64;
        proof {
            lemma_digits_value_step(digits, i - start);
            lemma_digits_value_grows(digits, i - start + 1);
        }
        let next = match value.checked_mul(10) {
            None => { return Err(NumberError::TooLarge); },
            Some(tens) => match tens.checked_add(d) {
                None => { return Err(NumberError::TooLarge); },
                Some(next) => next,
            },
        };
        if next > max {
            return Err(NumberError::TooLarge);
        }
        value = next;
        i += 1;
    }
    assert(digits.take(i - start) == digits);
    Ok(value)
}

/// The character for a decimal digit.
pub open spec fn digit_char(d: nat) -> char
    recommends
        d < 10,
{
    seq!['0', '1', '2', '3', '4', '5', '6', '7', '8', '9'][d as int]
}

/// The decimal digits of `n`, without leading zeros.
pub open spec fn decimal_text(n: nat) -> Seq<char>
    decreases n,
{
    if n < 10 {
        seq![digit_char(n)]
    } else {
        decimal_text(n / 10).push(digit_char(n % 10))
    }
}

fn digit_to_char(d: u8) -> (c: char)
    requires
        d < 10,
    ensures
        c == digit_char(d as nat),
{
    if d == 0 {
        '0'
    } else if d == 1 {
        '1'
    } else if d == 2 {
        '2'
    } else if d == 3 {
        '3'
    } else if d == 4 {
        '4'
    } else if d == 5 {
        '5'
    } else if d == 6 {
        '6'
    } else if d == 7 {
        '7'
    } else if d == 8 {
        '8'
    } else {
        '9'
    }
}

/// Appends the decimal digits of `n` to `s`.
pub fn push_decimal(s: &mut String, n: u64)
    ensures
        final(s)@ == old(s)@ + decimal_text(n as nat),
    decreases n,
{
    if n >= 10 {
        push_decimal(s, n / 10);
    }
    push_char(s, digit_to_char((n % 10) as u8));
}

/// The code of `c` with the ASCII capital letters mapped to their small ones.
pub open spec fn ascii_lower(c: char) -> u32 {
    if 'A' <= c <= 'Z' {
        (c as u32 + 32) as u32
    } else {
        c as u32
    }
}

/// Whether two texts are the same but for the case of their ASCII letters.
pub open spec fn same_ignoring_ascii_case(a: Seq<char>, b: Seq<char>) -> bool {
    &&& a.len() == b.len()
    &&& forall|i: int| 0 <= i < a.len() ==> ascii_lower(#[trigger] a[i]) == ascii_lower(b[i])
}

fn lower_code(c: char) -> (code: u32)
    ensures
        code == ascii_lower(c),
{
    if 'A' <= c && c <= 'Z' {
        c as u32 + 32
    } else {
        c as u32
    }
}

/// Compares two texts without regard to the case of their ASCII letters.
pub fn eq_ignoring_ascii_case(a: &str, b: &str) -> (same: bool)
    ensures
        same == same_ignoring_ascii_case(a@, b@),
{
    let left = chars_of(a);
    let right = chars_of(b);
    if left.len() != right.len() {
        return false;
    }
    let mut i: usize = 0;
    while i < left.len()
        invariant
            i <= left@.len() == right@.len(),
            left@ == a@,
            right@ == b@,
            forall|k: int| 0 <= k < i ==> ascii_lower(#[trigger] left@[k]) == ascii_lower(right@[k]),
        decreases left@.len() - i,
    {
        if lower_code(left[i]) != lower_code(right[i]) {
            return false;
        }
        i += 1;
    }
    true
}

/// `s` with every occurrence of `from` replaced by `to`, the occurrences
/// taken from left to right and never overlapping. An empty `from` occurs
/// nowhere.
pub open spec fn replace_all(s: Seq<char>, from: Seq<char>, to: Seq<char>) -> Seq<char>
    decreases s.len(),
{
    if from.len() == 0 || s.len() < from.len() {
        s
    } else if s.take(from.len() as int) == from {
        to + replace_all(s.skip(from.len() as int), from, to)
    } else {
        seq![s[0]] + replace_all(s.skip(1), from, to)
    }
}

/// Whether `pattern` stands in `text` at position `at`.
fn stands_at(text: &[char], at: usize, pattern: &[char]) -> (b: bool)
    requires
        at + pattern@.len() <= text@.len(),
    ensures
        b == (text@.skip(at as int).take(pattern@.len() as int) == pattern@),
{
    let end = text.len();
    let mut k: usize = 0;
    while k < pattern.len()
        invariant
            k <= pattern@.len(),
            at + pattern@.len() <= text@.len() == end,
            forall|j: int| 0 <= j < k ==> text@[at + j] == #[trigger] pattern@[j],
        decreases pattern@.len() - k,
    {
        if text[at + k] != pattern[k] {
            return false;
        }
        k += 1;
    }
    assert(text@.skip(at as int).take(pattern@.len() as int) == pattern@);
    true
}

/// Replaces every occurrence of `from` in `text` by `to`.
pub fn replace_text(text: &str, from: &str, to: &str) -> (r: String)
    ensures
        r@ == replace_all(text@, from@, to@),
{
    let src = chars_of(text);
    let pat = chars_of(from);
    let sub = chars_of(to);
    if pat.len() == 0 {
        return text.to_owned();
    }
    let mut out = String::new();
    let mut i: usize = 0;
    assert(src@.skip(0) == src@);
    while i < src.len()
        invariant
            i <= src@.len(),
            pat@.len() > 0,
            src@ == text@,
            pat@ == from@,
            sub@ == to@,
            replace_all(src@, pat@, sub@) == out@ + replace_all(src@.skip(i as int), pat@, sub@),
        decreases src@.len() - i,
    {
        let ghost rest = src@.skip(i as int);
        if src.len() - i >= pat.len() && stands_at(src.as_slice(), i, pat.as_slice()) {
            let mut k: usize = 0;
            let ghost before = out@;
            while k < sub.len()
                invariant
                    k <= sub@.len(),
                    out@ == before + sub@.take(k as int),
                decreases sub@.len() - k,
            {
                push_char(&mut out, sub[k]);
                k += 1;
            }
            assert(rest.skip(pat@.len() as int) == src@.skip(i + pat@.len()));
            i += pat.len();
        } else {
            push_char(&mut out, src[i]);
            proof {
                assert(rest.skip(1) == src@.skip(i + 1));
                if rest.len() < pat@.len() {
                    lemma_replace_short(rest, pat@, sub@);
                    lemma_replace_short(rest.skip(1), pat@, sub@);
                }
            }
            i += 1;
        }
    }
    out
}

proof fn lemma_replace_short(s: Seq<char>, from: Seq<char>, to: Seq<char>)
    requires
        s.len() < from.len(),
    ensures
        replace_all(s, from, to) == s,
{
}

} // verus!
