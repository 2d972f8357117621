//! The grammar of the configuration text and the scanner that reads it.
//!
//! ```text
//! document := preamble section+          preamble: everything before the first `[`
//! section  := header blanks line+
//! header   := `[` name `]`               name: one or more characters other than `]`
//! line     := pair blanks
//! pair     := key blank* `=` blank* value
//! key      := one or more ASCII letters and digits
//! value    := `"` text `"` rest          text: characters other than `"`
//!           | text rest                  text: characters other than `;` `#` CR LF,
//!                                        without the whitespace at its end
//! rest     := the characters up to the end of the line; none is a CR that
//!             no LF follows
//! blanks   := ( comment | one or more of space, tab, CR, LF )*
//! comment  := (`;` | `#`) rest (LF | CR LF)
//! ```
//!
//! A repetition takes as much as it can, and a value is read as quoted
//! wherever it can be. The sections stand one behind the other; they end
//! where no `[` follows, and what stands there is not looked at. A `[` that
//! follows a section has to start a section too.

use crate::error::GrammarError;
use crate::table::{lemma_put_all, put_all, Items, RawConfig};
use crate::text::{
    chars_of, lemma_run_end, run_end, skip_run, substring, trim_end, trimmed_end, CharClass,
};
use vstd::prelude::*;

verus! {

/// A sequence of key-value pairs, as views.
pub type Pairs = Seq<(Seq<char>, Seq<char>)>;

/// Where the content of the line that holds position `from` ends: at the
/// first CR or LF at or after `from`, or at the end of the text. `None` when
/// a CR stands there that no LF follows.
pub open spec fn line_body_end(s: Seq<char>, from: int) -> Option<int> {
    let e = run_end(s, from, CharClass::LineBody);
    if e < s.len() && s[e] == '\r' && !(e + 1 < s.len() && s[e + 1] == '\n') {
        None
    } else {
        Some(e)
    }
}

/// The position behind the line terminator (LF or CR LF) that starts at `at`.
pub open spec fn line_break_at(s: Seq<char>, at: int) -> Option<int> {
    if 0 <= at < s.len() && s[at] == '\n' {
        Some(at + 1)
    } else if 0 <= at && at + 1 < s.len() && s[at] == '\r' && s[at + 1] == '\n' {
        Some(at + 2)
    } else {
        None
    }
}

/// The name of the section header that starts at `at`, and the position behind it.
pub open spec fn header_at(s: Seq<char>, at: int) -> Option<(Seq<char>, int)> {
    if 0 <= at < s.len() && s[at] == '[' {
        let close = run_end(s, at + 1, CharClass::Except(']'));
        if at + 1 < close < s.len() {
            Some((s.subrange(at + 1, close), close + 1))
        } else {
            None
        }
    } else {
        None
    }
}

/// The position behind the comment that starts at `at`: a `;` or `#`, the
/// rest of the line, and the line terminator.
pub open spec fn comment_at(s: Seq<char>, at: int) -> Option<int> {
    if 0 <= at < s.len() && (s[at] == ';' || s[at] == '#') {
        match line_body_end(s, at + 1) {
            Some(e) => line_break_at(s, e),
            None => None,
        }
    } else {
        None
    }
}

/// The position behind the comment, or else the run of whitespace, that
/// starts at `at`.
pub open spec fn blank_at(s: Seq<char>, at: int) -> Option<int> {
    match comment_at(s, at) {
        Some(e) => Some(e),
        None => {
            let e = run_end(s, at, CharClass::Space);
            if e > at {
                Some(e)
            } else {
                None
            }
        },
    }
}

/// The position behind all the comments and whitespace that start at `at`.
pub open spec fn blanks_end(s: Seq<char>, at: int) -> int
    decreases s.len() - at,
{
    match blank_at(s, at) {
        Some(e) => if 0 <= at < e <= s.len() {
            blanks_end(s, e)
        } else {
            at
        },
        None => at,
    }
}

/// The quoted value that starts at `at`, and the position at which its line ends.
pub open spec fn quoted_at(s: Seq<char>, at: int) -> Option<(Seq<char>, int)> {
    if 0 <= at < s.len() && s[at] == '"' {
        let close = run_end(s, at + 1, CharClass::Except('"'));
        if close < s.len() {
            match line_body_end(s, close + 1) {
                Some(e) => Some((s.subrange(at + 1, close), e)),
                None => None,
            }
        } else {
            None
        }
    } else {
        None
    }
}

/// The unquoted value that starts at `at`, and the position at which its line ends.
pub open spec fn unquoted_at(s: Seq<char>, at: int) -> Option<(Seq<char>, int)> {
    match line_body_end(s, at) {
        Some(e) => Some(
            (trim_end(s.subrange(at, run_end(s, at, CharClass::ValueBody))), e),
        ),
        None => None,
    }
}

/// The value that starts at `at`, quoted if it can be read so, and the
/// position at which its line ends.
pub open spec fn value_at(s: Seq<char>, at: int) -> Option<(Seq<char>, int)> {
    match quoted_at(s, at) {
        Some(v) => Some(v),
        None => unquoted_at(s, at),
    }
}

/// The key and the value of the pair that starts at `at`, and the position
/// at which its line ends.
pub open spec fn pair_at(s: Seq<char>, at: int) -> Option<(Seq<char>, Seq<char>, int)> {
    let key_end = run_end(s, at, CharClass::Alphanumeric);
    let equals = run_end(s, key_end, CharClass::Blank);
    if 0 <= at < key_end && equals < s.len() && s[equals] == '=' {
        match value_at(s, run_end(s, equals + 1, CharClass::Blank)) {
            Some((value, e)) => Some((s.subrange(at, key_end), value, e)),
            None => None,
        }
    } else {
        None
    }
}

/// The pairs of the lines that start at `at`, in order, and the position
/// behind the last of these lines.
pub open spec fn pairs_from(s: Seq<char>, at: int) -> (Pairs, int)
    decreases s.len() - at,
{
    match pair_at(s, at) {
        Some((key, value, e)) => {
            let next = blanks_end(s, e);
            if 0 <= at < next <= s.len() {
                let (rest, end) = pairs_from(s, next);
                (seq![(key, value)] + rest, end)
            } else {
                (seq![(key, value)], next)
            }
        },
        None => (Seq::empty(), at),
    }
}

/// The name and the items of the section that starts at `at`, and the
/// position behind it. Of two lines with one key the later one counts.
pub open spec fn section_at(s: Seq<char>, at: int) -> Option<(Seq<char>, Pairs, int)> {
    match header_at(s, at) {
        Some((name, behind)) => {
            let first = blanks_end(s, behind);
            if pair_at(s, first) is Some {
                let (pairs, end) = pairs_from(s, first);
                Some((name, put_all(Seq::empty(), pairs), end))
            } else {
                None
            }
        },
        None => None,
    }
}

/// Why no section starts at `at`, where one has to.
pub open spec fn section_fault(s: Seq<char>, at: int) -> GrammarError {
    if header_at(s, at) is None {
        GrammarError::MalformedHeader
    } else {
        GrammarError::NoKeyValue
    }
}

/// The sections that stand one behind the other from `at` on, in order, as
/// long as a `[` follows; or the fault of the first `[` that starts none.
pub open spec fn sections_from(s: Seq<char>, at: int) -> Result<
    Seq<(Seq<char>, Pairs)>,
    GrammarError,
>
    decreases s.len() - at,
{
    if 0 <= at < s.len() && s[at] == '[' {
        match section_at(s, at) {
            Some((name, items, end)) => if at < end <= s.len() {
                match sections_from(s, end) {
                    Ok(rest) => Ok(seq![(name, items)] + rest),
                    Err(e) => Err(e),
                }
            } else {
                Ok(seq![(name, items)])
            },
            None => Err(section_fault(s, at)),
        }
    } else {
        Ok(Seq::empty())
    }
}

/// What a configuration text holds: the items of each section by name, of
/// two sections with one name the later one; or why it is no document.
pub open spec fn document(s: Seq<char>) -> Result<Seq<(Seq<char>, Pairs)>, GrammarError> {
    let start = run_end(s, 0, CharClass::Except('['));
    if start >= s.len() {
        Err(GrammarError::NoSection)
    } else {
        match sections_from(s, start) {
            Ok(sections) => Ok(put_all(Seq::empty(), sections)),
            Err(e) => Err(e),
        }
    }
}

/// What the scanners hand back lies inside the text and behind where they started.
pub proof fn lemma_positions(s: Seq<char>, at: int)
    requires
        0 <= at <= s.len(),
    ensures
        line_body_end(s, at) matches Some(e) ==> at <= e <= s.len(),
        line_break_at(s, at) matches Some(e) ==> at < e <= s.len(),
        header_at(s, at) matches Some((_, e)) ==> at + 2 < e <= s.len(),
        comment_at(s, at) matches Some(e) ==> at + 1 < e <= s.len(),
        blank_at(s, at) matches Some(e) ==> at < e <= s.len(),
        value_at(s, at) matches Some((_, e)) ==> at <= e <= s.len(),
        pair_at(s, at) matches Some((_, _, e)) ==> at < e <= s.len(),
{
    lemma_run_end(s, at, CharClass::LineBody);
    lemma_run_end(s, at, CharClass::Space);
    lemma_run_end(s, at, CharClass::Alphanumeric);
    if at < s.len() {
        lemma_run_end(s, at + 1, CharClass::LineBody);
        lemma_run_end(s, at + 1, CharClass::Except(']'));
        lemma_run_end(s, at + 1, CharClass::Except('"'));
        let close = run_end(s, at + 1, CharClass::Except('"'));
        if close < s.len() {
            lemma_run_end(s, close + 1, CharClass::LineBody);
        }
    }
    let key_end = run_end(s, at, CharClass::Alphanumeric);
    lemma_run_end(s, key_end, CharClass::Blank);
    let equals = run_end(s, key_end, CharClass::Blank);
    if equals < s.len() {
        lemma_run_end(s, equals + 1, CharClass::Blank);
        let v = run_end(s, equals + 1, CharClass::Blank);
        lemma_run_end(s, v, CharClass::LineBody);
        if v < s.len() {
            lemma_run_end(s, v + 1, CharClass::Except('"'));
            let close = run_end(s, v + 1, CharClass::Except('"'));
            if close < s.len() {
                lemma_run_end(s, close + 1, CharClass::LineBody);
            }
        }
    }
}

/// `blanks_end` stays inside the text, does not go back, and stops where
/// neither a comment nor whitespace starts.
pub proof fn lemma_blanks_end(s: Seq<char>, at: int)
    requires
        0 <= at <= s.len(),
    ensures
        at <= blanks_end(s, at) <= s.len(),
        blank_at(s, blanks_end(s, at)) is None,
    decreases s.len() - at,
{
    lemma_positions(s, at);
    match blank_at(s, at) {
        Some(e) => {
            lemma_blanks_end(s, e);
        },
        None => {},
    }
}

/// The lines of a section end inside the text, behind where they started.
pub proof fn lemma_pairs_from(s: Seq<char>, at: int)
    requires
        0 <= at <= s.len(),
    ensures
        at <= pairs_from(s, at).1 <= s.len(),
        pair_at(s, at) is Some ==> at < pairs_from(s, at).1,
        pair_at(s, at) is Some ==> pairs_from(s, at).0.len() > 0,
        pair_at(s, pairs_from(s, at).1) is None,
    decreases s.len() - at,
{
    lemma_positions(s, at);
    match pair_at(s, at) {
        Some((key, value, e)) => {
            lemma_blanks_end(s, e);
            lemma_pairs_from(s, blanks_end(s, e));
        },
        None => {},
    }
}

/// A section ends inside the text, behind where it started.
pub proof fn lemma_section_at(s: Seq<char>, at: int)
    requires
        0 <= at <= s.len(),
    ensures
        section_at(s, at) matches Some((_, _, e)) ==> at < e <= s.len(),
{
    lemma_positions(s, at);
    match header_at(s, at) {
        Some((name, behind)) => {
            lemma_blanks_end(s, behind);
            lemma_pairs_from(s, blanks_end(s, behind));
        },
        None => {},
    }
}

/// Where a section starts, the sections read are at least one, and every
/// section read has at least one item.
pub proof fn lemma_sections_from(s: Seq<char>, at: int)
    requires
        0 <= at <= s.len(),
    ensures
        sections_from(s, at) matches Ok(sections) ==> {
            &&& at < s.len() && s[at] == '[' ==> sections.len() > 0
            &&& forall|i: int| 0 <= i < sections.len() ==> (#[trigger] sections[i]).1.len() > 0
        },
    decreases s.len() - at,
{
    if at < s.len() && s[at] == '[' {
        lemma_section_at(s, at);
        match section_at(s, at) {
            Some((name, items, end)) => {
                let (_, behind) = header_at(s, at)->0;
                lemma_positions(s, at);
                lemma_blanks_end(s, behind);
                let first = blanks_end(s, behind);
                lemma_pairs_from(s, first);
                lemma_put_all(Seq::empty(), pairs_from(s, first).0, |v: Seq<char>| true);
                lemma_sections_from(s, end);
                match sections_from(s, at) {
                    Ok(all) => {
                        assert forall|i: int| 0 <= i < all.len() implies (#[trigger] all[i]).1.len()
                            > 0 by {}
                    },
                    Err(_) => {},
                }
            },
            None => {},
        }
    }
}

/// A text that is a document holds at least one section, and every section
/// of it holds at least one item.
pub proof fn law_document_is_not_empty(s: Seq<char>)
    ensures
        document(s) matches Ok(sections) ==> {
            &&& sections.len() > 0
            &&& forall|i: int| 0 <= i < sections.len() ==> (#[trigger] sections[i]).1.len() > 0
        },
{
    let start = run_end(s, 0, CharClass::Except('['));
    lemma_run_end(s, 0, CharClass::Except('['));
    if document(s) is Ok {
        lemma_sections_from(s, start);
        lemma_put_all(Seq::empty(), sections_from(s, start)->Ok_0, |items: Pairs| items.len() > 0);
    }
}

/// One section as read: its name and its items.
#[derive(Debug, PartialEq, Eq)]
pub struct Section {
    pub name: String,
    pub items: Items,
}

impl View for Section {
    type V = (Seq<char>, Pairs);

    open spec fn view(&self) -> (Seq<char>, Pairs) {
        (self.name@, self.items@)
    }
}

/// Finds where the content of the line that holds `from` ends.
fn scan_line_body(text: &[char], from: usize) -> (end: Option<usize>)
    requires
        from <= text@.len(),
    ensures
        match end {
            Some(e) => line_body_end(text@, from as int) == Some(e as int) && from <= e
                <= text@.len(),
            None => line_body_end(text@, from as int) is None,
        },
{
    let e = skip_run(text, from, CharClass::LineBody);
    if e < text.len() && text[e] == '\r' && !(text.len() - e > 1 && text[e + 1] == '\n') {
        None
    } else {
        Some(e)
    }
}

/// Reads the line terminator that starts at `at`.
fn scan_line_break(text: &[char], at: usize) -> (end: Option<usize>)
    requires
        at <= text@.len(),
    ensures
        match end {
            Some(e) => line_break_at(text@, at as int) == Some(e as int) && at < e <= text@.len(),
            None => line_break_at(text@, at as int) is None,
        },
{
    if at < text.len() && text[at] == '\n' {
        Some(at + 1)
    } else if text.len() - at > 1 && text[at] == '\r' && text[at + 1] == '\n' {
        Some(at + 2)
    } else {
        None
    }
}

/// Reads the section header that starts at `at`: its name and the position
/// behind the closing bracket.
pub fn scan_header(text: &[char], at: usize) -> (r: Option<(String, usize)>)
    ensures
        match r {
            Some((name, end)) => header_at(text@, at as int) == Some((name@, end as int)) && at
                < end <= text@.len(),
            None => header_at(text@, at as int) is None,
        },
{
    if at < text.len() && text[at] == '[' {
        let close = skip_run(text, at + 1, CharClass::Except(']'));
        if at + 1 < close && close < text.len() {
            Some((substring(text, at + 1, close), close + 1))
        } else {
            None
        }
    } else {
        None
    }
}

/// Reads the comment that starts at `at`, line terminator included.
pub fn scan_comment(text: &[char], at: usize) -> (end: Option<usize>)
    ensures
        match end {
            Some(e) => comment_at(text@, at as int) == Some(e as int) && at < e <= text@.len(),
            None => comment_at(text@, at as int) is None,
        },
{
    if at < text.len() && (text[at] == ';' || text[at] == '#') {
        match scan_line_body(text, at + 1) {
            Some(e) => scan_line_break(text, e),
            None => None,
        }
    } else {
        None
    }
}

/// Reads one comment, or else one run of whitespace, that starts at `at`.
fn scan_blank(text: &[char], at: usize) -> (end: Option<usize>)
    requires
        at <= text@.len(),
    ensures
        match end {
            Some(e) => blank_at(text@, at as int) == Some(e as int) && at < e <= text@.len(),
            None => blank_at(text@, at as int) is None,
        },
{
    match scan_comment(text, at) {
        Some(e) => Some(e),
        None => {
            let e = skip_run(text, at, CharClass::Space);
            if e > at {
                Some(e)
            } else {
                None
            }
        },
    }
}

/// Skips all the comments and whitespace that start at `at`.
pub fn scan_blanks(text: &[char], at: usize) -> (end: usize)
    ensures
        end == blanks_end(text@, at as int),
        at <= end,
        at <= text@.len() ==> end <= text@.len(),
{
    if at > text.len() {
        return at;
    }
    let mut i = at;
    let mut step = scan_blank(text, i);
    while step.is_some()
        invariant
            at <= i <= text@.len(),
            blanks_end(text@, at as int) == blanks_end(text@, i as int),
            match step {
                Some(e) => blank_at(text@, i as int) == Some(e as int) && i < e <= text@.len(),
                None => blank_at(text@, i as int) is None,
            },
        decreases text@.len() - i,
    {
        i = step.unwrap();
        step = scan_blank(text, i);
    }
    i
}

/// Reads the value that starts at `at`, and finds where its line ends.
fn scan_value(text: &[char], at: usize) -> (r: Option<(String, usize)>)
    requires
        at <= text@.len(),
    ensures
        match r {
            Some((value, end)) => value_at(text@, at as int) == Some((value@, end as int)) && at
                <= end <= text@.len(),
            None => value_at(text@, at as int) is None,
        },
{
    if at < text.len() && text[at] == '"' {
        let close = skip_run(text, at + 1, CharClass::Except('"'));
        if close < text.len() {
            match scan_line_body(text, close + 1) {
                Some(e) => {
                    return Some((substring(text, at + 1, close), e));
                },
                None => {},
            }
        }
    }
    match scan_line_body(text, at) {
        Some(e) => {
            let stop = skip_run(text, at, CharClass::ValueBody);
            let end = trimmed_end(text, at, stop);
            Some((substring(text, at, end), e))
        },
        None => None,
    }
}

/// Reads the key-value pair that starts at `at`: the key, the value and the
/// position at which the pair's line ends.
pub fn scan_pair(text: &[char], at: usize) -> (r: Option<(String, String, usize)>)
    ensures
        match r {
            Some((key, value, end)) => pair_at(text@, at as int) == Some(
                (key@, value@, end as int),
            ) && at < end <= text@.len(),
            None => pair_at(text@, at as int) is None,
        },
{
    if at > text.len() {
        return None;
    }
    let key_end = skip_run(text, at, CharClass::Alphanumeric);
    let equals = skip_run(text, key_end, CharClass::Blank);
    if at < key_end && equals < text.len() && text[equals] == '=' {
        let start = skip_run(text, equals + 1, CharClass::Blank);
        match scan_value(text, start) {
            Some((value, end)) => Some((substring(text, at, key_end), value, end)),
            None => None,
        }
    } else {
        None
    }
}

/// Reads the section that starts at `at`, and finds the position behind it.
pub fn scan_section(text: &[char], at: usize) -> (r: Option<(Section, usize)>)
    ensures
        match r {
            Some((section, end)) => section_at(text@, at as int) == Some(
                (section.name@, section.items@, end as int),
            ) && at < end <= text@.len(),
            None => section_at(text@, at as int) is None,
        },
{
    let (name, behind) = match scan_header(text, at) {
        Some(header) => header,
        None => { return None; },
    };
    let first = scan_blanks(text, behind);
    let mut items = Items::new();
    let mut cur = first;
    let mut step = scan_pair(text, cur);
    if step.is_none() {
        return None;
    }
    let ghost mut seen: Pairs = Seq::empty();
    while step.is_some()
        invariant
            first <= cur <= text@.len(),
            pairs_from(text@, first as int).0 == seen + pairs_from(text@, cur as int).0,
            pairs_from(text@, first as int).1 == pairs_from(text@, cur as int).1,
            items@ == put_all(Seq::empty(), seen),
            match step {
                Some((key, value, end)) => pair_at(text@, cur as int) == Some(
                    (key@, value@, end as int),
                ) && cur < end <= text@.len(),
                None => pair_at(text@, cur as int) is None,
            },
        decreases text@.len() - cur,
    {
        let (key, value, end) = step.unwrap();
        let next = scan_blanks(text, end);
        proof {
            let pair = (key@, value@);
            assert(seen.push(pair).drop_last() == seen);
            seen = seen.push(pair);
        }
        items.insert(key, value);
        cur = next;
        step = scan_pair(text, cur);
    }
    Some((Section { name, items }, cur))
}

/// Reads a whole configuration text: the items of every section, by the
/// section's name.
pub fn parse(input: &str) -> (r: Result<RawConfig, GrammarError>)
    ensures
        match document(input@) {
            Ok(sections) => r matches Ok(config) && config@ == sections,
            Err(e) => r == Err::<RawConfig, GrammarError>(e),
        },
        r matches Ok(config) ==> {
            &&& config@.len() > 0
            &&& forall|i: int| 0 <= i < config@.len() ==> (#[trigger] config@[i]).1.len() > 0
        },
{
    proof {
        law_document_is_not_empty(input@);
    }
    let chars = chars_of(input);
    let text = chars.as_slice();
    let start = skip_run(text, 0, CharClass::Except('['));
    if start >= text.len() {
        return Err(GrammarError::NoSection);
    }
    let mut config = RawConfig::new();
    let mut cur = start;
    let ghost mut seen: Seq<(Seq<char>, Pairs)> = Seq::empty();
    while cur < text.len() && text[cur] == '['
        invariant
            start <= cur <= text@.len(),
            sections_from(text@, start as int) == match sections_from(text@, cur as int) {
                Ok(rest) => Ok::<Seq<(Seq<char>, Pairs)>, GrammarError>(seen + rest),
                Err(e) => Err(e),
            },
            config@ == put_all(Seq::empty(), seen),
            text@ == input@,
            start == run_end(input@, 0, CharClass::Except('[')),
            start < text@.len(),
        decreases text@.len() - cur,
    {
        let (section, end) = match scan_section(text, cur) {
            Some(found) => found,
            None => {
                return match scan_header(text, cur) {
                    None => Err(GrammarError::MalformedHeader),
                    Some(_) => Err(GrammarError::NoKeyValue),
                };
            },
        };
        proof {
            let entry = (section.name@, section.items@);
            assert(seen.push(entry).drop_last() == seen);
            match sections_from(text@, end as int) {
                Ok(rest) => {
                    assert(seen + (seq![entry] + rest) == seen.push(entry) + rest);
                },
                Err(_) => {},
            }
            seen = seen.push(entry);
        }
        config.insert(section.name, section.items);
        cur = end;
    }
    Ok(config)
}

/// Skips the comments and whitespace at the start of `input`. This never fails.
pub fn whitespace_and_comments<'a>(input: &mut &'a str) -> (r: Result<(), GrammarError>)
    ensures
        r is Ok,
        final(input)@ == old(input)@.skip(blanks_end(old(input)@, 0)),
{
    let whole: &'a str = *input;
    let chars = chars_of(whole);
    let end = scan_blanks(chars.as_slice(), 0);
    *input = whole.substring_char(end, chars.len());
    Ok(())
}

/// Reads the key-value pair at the start of `input` and moves `input` to the
/// end of the pair's line. Where no pair stands, `input` stays as it is.
pub fn kv_pair<'a>(input: &mut &'a str) -> (r: Result<(String, String), GrammarError>)
    ensures
        match pair_at(old(input)@, 0) {
            Some((key, value, end)) => {
                &&& r matches Ok((k, v))
                &&& k@ == key
                &&& v@ == value
                &&& final(input)@ == old(input)@.skip(end)
            },
            None => {
                &&& r == Err::<(String, String), GrammarError>(GrammarError::NoKeyValue)
                &&& final(input)@ == old(input)@
            },
        },
{
    let whole: &'a str = *input;
    let chars = chars_of(whole);
    match scan_pair(chars.as_slice(), 0) {
        Some((key, value, end)) => {
            *input = whole.substring_char(end, chars.len());
            Ok((key, value))
        },
        None => Err(GrammarError::NoKeyValue),
    }
}

} // verus!
