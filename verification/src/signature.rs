//! Byte patterns with wildcard slots, and the scan that locates them.

use crate::error::{field_parse, Error, ErrorView};
use crate::text::{char_hex_value, chars_of, hex_value, push_char};
use vstd::prelude::*;
use vstd::string::StringExecFns;

verus! {

/// How one slot of a pattern is compared with a byte.
#[derive(Debug, PartialEq, Eq, Clone, Copy, Structural)]
pub enum MatchType {
    /// The byte has to equal the slot's byte.
    Exact,
    /// Any byte is accepted.
    Wild,
}

/// A compiled pattern: one slot per byte, `Some(b)` for an exact byte and
/// `None` for a wildcard.
#[derive(Debug, Default, PartialEq, Eq, Clone)]
pub struct Signature {
    pub pattern: Vec<Option<u8>>,
}

impl View for Signature {
    type V = Seq<Option<u8>>;

    open spec fn view(&self) -> Seq<Option<u8>> {
        self.pattern@
    }
}

/// The pattern that `bytes` and `kinds` describe together, position by position.
pub open spec fn compile(bytes: Seq<u8>, kinds: Seq<MatchType>) -> Seq<Option<u8>>
    recommends
        bytes.len() == kinds.len(),
{
    Seq::new(
        bytes.len(),
        |i: int|
            if kinds[i] == MatchType::Wild {
                None
            } else {
                Some(bytes[i])
            },
    )
}

/// Whether a slot accepts the byte `b`.
pub open spec fn slot_accepts(slot: Option<u8>, b: u8) -> bool {
    slot matches Some(x) ==> x == b
}

/// Whether `pattern` matches `haystack` at offset `at`: it fits into what is
/// left of the haystack, and every slot accepts the byte under it.
pub open spec fn matches_at(pattern: Seq<Option<u8>>, haystack: Seq<u8>, at: int) -> bool {
    &&& 0 <= at
    &&& at + pattern.len() <= haystack.len()
    &&& forall|k: int|
        0 <= k < pattern.len() ==> slot_accepts(#[trigger] pattern[k], haystack[at + k])
}

/// The leftmost offset in `start..haystack.len()` at which `pattern` matches.
pub open spec fn first_match(pattern: Seq<Option<u8>>, haystack: Seq<u8>, start: int) -> Option<
    int,
>
    decreases haystack.len() - start,
{
    if start < 0 || start >= haystack.len() {
        None
    } else if matches_at(pattern, haystack, start) {
        Some(start)
    } else {
        first_match(pattern, haystack, start + 1)
    }
}

/// `first_match` gives a matching offset before which nothing matches, or
/// `None` when nothing matches at all.
pub proof fn lemma_first_match(pattern: Seq<Option<u8>>, haystack: Seq<u8>, start: int)
    requires
        0 <= start,
    ensures
        match first_match(pattern, haystack, start) {
            Some(at) => {
                &&& start <= at < haystack.len()
                &&& matches_at(pattern, haystack, at)
                &&& forall|j: int| start <= j < at ==> !matches_at(pattern, haystack, j)
            },
            None => forall|j: int|
                start <= j < haystack.len() ==> !matches_at(pattern, haystack, j),
        },
    decreases haystack.len() - start,
{
    if start < haystack.len() && !matches_at(pattern, haystack, start) {
        lemma_first_match(pattern, haystack, start + 1);
    }
}

/// Leftmost match: if the pattern matches at `i1` and at a later `i2`, a scan
/// from offset 0 reports `i1` or something before it, and never `i2`; when
/// `i1` is the first offset that matches at all, it reports `i1`.
pub proof fn law_find_first_is_leftmost(
    pattern: Seq<Option<u8>>,
    haystack: Seq<u8>,
    i1: int,
    i2: int,
)
    requires
        0 <= i1 < i2,
        matches_at(pattern, haystack, i1),
        matches_at(pattern, haystack, i2),
    ensures
        first_match(pattern, haystack, 0) is Some,
        first_match(pattern, haystack, 0)->0 <= i1,
        first_match(pattern, haystack, 0) != Some(i2),
        (forall|j: int| 0 <= j < i1 ==> !matches_at(pattern, haystack, j)) ==> first_match(
            pattern,
            haystack,
            0,
        ) == Some(i1),
{
    lemma_first_match(pattern, haystack, 0);
}

/// No match: a scan from `start` reports nothing exactly when the pattern
/// matches at no offset from `start` on; in particular when what is left of
/// the haystack is shorter than the pattern.
pub proof fn law_find_first_none(pattern: Seq<Option<u8>>, haystack: Seq<u8>, start: int)
    requires
        0 <= start,
    ensures
        first_match(pattern, haystack, start) is None <==> (forall|j: int|
            start <= j < haystack.len() ==> !matches_at(pattern, haystack, j)),
        haystack.len() - start < pattern.len() ==> first_match(pattern, haystack, start) is None,
{
    lemma_first_match(pattern, haystack, start);
}

/// The byte that two hexadecimal digits spell, high digit first.
pub open spec fn pair_value(hi: char, lo: char) -> Option<u8> {
    match (hex_value(hi), hex_value(lo)) {
        (Some(h), Some(l)) => Some((16 * h + l) as u8),
        _ => None,
    }
}

/// The number of two-character groups of `s`, a single character left at the
/// end counted as one.
pub open spec fn pair_count(s: Seq<char>) -> int {
    (s.len() as int + 1) / 2
}

/// Whether group `k` of `s` is two hexadecimal digits.
pub open spec fn good_pair(s: Seq<char>, k: int) -> bool {
    2 * k + 1 < s.len() && pair_value(s[2 * k], s[2 * k + 1]) is Some
}

/// The first group at or after `k` that is not two hexadecimal digits, or
/// `pair_count(s)` if there is none.
pub open spec fn first_bad_pair(s: Seq<char>, k: int) -> int
    decreases pair_count(s) - k,
{
    if 0 <= k < pair_count(s) && good_pair(s, k) {
        first_bad_pair(s, k + 1)
    } else {
        k
    }
}

/// Whether `s` is a hexadecimal string: an even number of hexadecimal digits.
pub open spec fn is_hex_text(s: Seq<char>) -> bool {
    forall|k: int| 0 <= k < pair_count(s) ==> good_pair(s, k)
}

/// The bytes that a hexadecimal string spells.
pub open spec fn hex_bytes(s: Seq<char>) -> Seq<u8> {
    Seq::new((s.len() / 2) as nat, |k: int| pair_value(s[2 * k], s[2 * k + 1]).unwrap())
}

/// The bytes of the signature text `s` of section `section`, or the error
/// that reports its first group that is not two hexadecimal digits.
pub open spec fn decode_hex(section: Seq<char>, s: Seq<char>) -> Result<Seq<u8>, ErrorView> {
    let k = first_bad_pair(s, 0);
    if k >= pair_count(s) {
        Ok(hex_bytes(s))
    } else if 2 * k + 1 >= s.len() {
        Err(field_parse(section, "sig"@, "Invalid hex string length"@))
    } else {
        Err(
            field_parse(
                section,
                "sig"@,
                "Invalid hex byte pair: "@ + s.subrange(2 * k, 2 * k + 2),
            ),
        )
    }
}

/// Whether `c` is one of the two characters of a wildcard string.
pub open spec fn is_flag(c: char) -> bool {
    c == '0' || c == '1'
}

/// The first position at or after `i` that holds no wildcard flag, or the
/// length of `s` if there is none.
pub open spec fn first_bad_flag(s: Seq<char>, i: int) -> int
    decreases s.len() - i,
{
    if 0 <= i < s.len() && is_flag(s[i]) {
        first_bad_flag(s, i + 1)
    } else {
        i
    }
}

/// Whether `s` is a wildcard string: made of `0` and `1` alone.
pub open spec fn is_wild_text(s: Seq<char>) -> bool {
    forall|i: int| 0 <= i < s.len() ==> is_flag(#[trigger] s[i])
}

/// The slot kinds that a wildcard string spells: `1` for a wildcard, `0` for
/// an exact byte.
pub open spec fn wild_kinds(s: Seq<char>) -> Seq<MatchType> {
    Seq::new(
        s.len(),
        |i: int|
            if s[i] == '1' {
                MatchType::Wild
            } else {
                MatchType::Exact
            },
    )
}

/// The slot kinds of the wildcard text `s` of section `section`, or the error
/// that reports its first character that is neither `0` nor `1`.
pub open spec fn decode_wild(section: Seq<char>, s: Seq<char>) -> Result<
    Seq<MatchType>,
    ErrorView,
> {
    let i = first_bad_flag(s, 0);
    if i >= s.len() {
        Ok(wild_kinds(s))
    } else {
        Err(field_parse(section, "sigwild"@, "Invalid sigwild character: "@.push(s[i])))
    }
}

/// The pattern that a signature text and a wildcard text of section `section`
/// describe, or the error that the first fault among these gives: a group of
/// the signature that is not two hexadecimal digits, a character of the
/// wildcard text that is no flag, a wildcard text that has not one flag per
/// signature byte.
pub open spec fn signature_of_text(
    section: Seq<char>,
    signature: Seq<char>,
    sigwild: Seq<char>,
) -> Result<Seq<Option<u8>>, ErrorView> {
    match decode_hex(section, signature) {
        Err(e) => Err(e),
        Ok(bytes) => match decode_wild(section, sigwild) {
            Err(e) => Err(e),
            Ok(kinds) => if bytes.len() != kinds.len() {
                Err(field_parse(section, "sigwild"@, "sigwild length does not match sig"@))
            } else {
                Ok(compile(bytes, kinds))
            },
        },
    }
}

proof fn lemma_first_bad_pair_is(s: Seq<char>, k: int, end: int)
    requires
        0 <= k <= end <= pair_count(s),
        forall|j: int| k <= j < end ==> good_pair(s, j),
        end < pair_count(s) ==> !good_pair(s, end),
    ensures
        first_bad_pair(s, k) == end,
    decreases end - k,
{
    if k < end {
        lemma_first_bad_pair_is(s, k + 1, end);
    }
}

proof fn lemma_first_bad_pair(s: Seq<char>, k: int)
    requires
        0 <= k <= pair_count(s),
    ensures
        k <= first_bad_pair(s, k) <= pair_count(s),
        forall|j: int| k <= j < first_bad_pair(s, k) ==> good_pair(s, j),
    decreases pair_count(s) - k,
{
    if k < pair_count(s) && good_pair(s, k) {
        lemma_first_bad_pair(s, k + 1);
    }
}

proof fn lemma_first_bad_flag(s: Seq<char>, i: int)
    requires
        0 <= i <= s.len(),
    ensures
        i <= first_bad_flag(s, i) <= s.len(),
    decreases s.len() - i,
{
    if i < s.len() && is_flag(s[i]) {
        lemma_first_bad_flag(s, i + 1);
    }
}

/// A pattern read from text has one slot for every two digits of the
/// signature and one for every flag of the wildcard text.
pub proof fn law_pattern_length(section: Seq<char>, signature: Seq<char>, sigwild: Seq<char>)
    ensures
        signature_of_text(section, signature, sigwild) matches Ok(pattern) ==> {
            &&& 2 * pattern.len() == signature.len()
            &&& pattern.len() == sigwild.len()
        },
{
    lemma_first_bad_pair(signature, 0);
    lemma_first_bad_flag(sigwild, 0);
    if signature_of_text(section, signature, sigwild) is Ok {
        let count = pair_count(signature);
        if count > 0 {
            assert(good_pair(signature, count - 1));
        }
    }
}

proof fn lemma_first_bad_flag_is(s: Seq<char>, i: int, end: int)
    requires
        0 <= i <= end <= s.len(),
        forall|j: int| i <= j < end ==> is_flag(#[trigger] s[j]),
        end < s.len() ==> !is_flag(s[end]),
    ensures
        first_bad_flag(s, i) == end,
    decreases end - i,
{
    if i < end {
        lemma_first_bad_flag_is(s, i + 1, end);
    }
}

/// A hexadecimal string with one wildcard flag per byte compiles, and the
/// pattern has a wildcard exactly where the flag is `1` and, elsewhere, the
/// byte that the two digits at that position spell.
pub proof fn law_compile_follows_text(
    section: Seq<char>,
    signature: Seq<char>,
    sigwild: Seq<char>,
)
    requires
        is_hex_text(signature),
        is_wild_text(sigwild),
        sigwild.len() == signature.len() / 2,
    ensures
        signature_of_text(section, signature, sigwild) is Ok,
        signature_of_text(section, signature, sigwild) == Ok::<Seq<Option<u8>>, ErrorView>(
            compile(hex_bytes(signature), wild_kinds(sigwild)),
        ),
        signature_of_text(section, signature, sigwild)->Ok_0.len() == sigwild.len(),
        forall|i: int|
            0 <= i < sigwild.len() ==> {
                let slot = #[trigger] signature_of_text(section, signature, sigwild)->Ok_0[i];
                &&& (slot is None <==> sigwild[i] == '1')
                &&& (sigwild[i] == '0' ==> slot == Some(hex_bytes(signature)[i]))
            },
{
    lemma_first_bad_pair_is(signature, 0, pair_count(signature));
    lemma_first_bad_flag_is(sigwild, 0, sigwild.len() as int);
}

/// Reads the bytes of a signature text.
fn read_sig(section: &str, sig: &[char]) -> (r: Result<Vec<u8>, Error>)
    ensures
        match decode_hex(section@, sig@) {
            Ok(bytes) => r matches Ok(v) && v@ == bytes,
            Err(e) => r matches Err(x) && x@ == e,
        },
{
    let mut bytes: Vec<u8> = Vec::new();
    let mut i: usize = 0;
    while i < sig.len()
        invariant
            i <= sig@.len(),
            i % 2 == 0,
            bytes@.len() == i / 2,
            forall|j: int| 0 <= j < i / 2 ==> good_pair(sig@, j),
            forall|j: int|
                0 <= j < i / 2 ==> #[trigger] bytes@[j] == pair_value(
                    sig@[2 * j],
                    sig@[2 * j + 1],
                ).unwrap(),
        decreases sig@.len() - i,
    {
        if sig.len() - i < 2 {
            proof {
                lemma_first_bad_pair_is(sig@, 0, i as int / 2);
            }
            return Err(Error::config_field_parse(section, "sig", "Invalid hex string length"));
        }
        match (char_hex_value(sig[i]), char_hex_value(sig[i + 1])) {
            (Some(hi), Some(lo)) => {
                bytes.push(16 * hi + lo);
            },
            _ => {
                let mut msg = String::from_str("Invalid hex byte pair: ");
                push_char(&mut msg, sig[i]);
                push_char(&mut msg, sig[i + 1]);
                proof {
                    lemma_first_bad_pair_is(sig@, 0, i as int / 2);
                    assert(msg@ == "Invalid hex byte pair: "@ + sig@.subrange(
                        i as int,
                        i as int + 2,
                    ));
                }
                return Err(Error::config_field_parse(section, "sig", msg.as_str()));
            },
        }
        i += 2;
    }
    proof {
        lemma_first_bad_pair_is(sig@, 0, pair_count(sig@));
    }
    Ok(bytes)
}

/// Reads the slot kinds of a wildcard text.
fn read_sigwild(section: &str, sigwild: &[char]) -> (r: Result<Vec<MatchType>, Error>)
    ensures
        match decode_wild(section@, sigwild@) {
            Ok(kinds) => r matches Ok(v) && v@ == kinds,
            Err(e) => r matches Err(x) && x@ == e,
        },
{
    let mut kinds: Vec<MatchType> = Vec::new();
    let mut i: usize = 0;
    while i < sigwild.len()
        invariant
            i <= sigwild@.len(),
            kinds@.len() == i,
            forall|j: int| 0 <= j < i ==> is_flag(#[trigger] sigwild@[j]),
            forall|j: int| 0 <= j < i ==> #[trigger] kinds@[j] == wild_kinds(sigwild@)[j],
        decreases sigwild@.len() - i,
    {
        let c = sigwild[i];
        if c == '0' {
            kinds.push(MatchType::Exact);
        } else if c == '1' {
            kinds.push(MatchType::Wild);
        } else {
            let mut msg = String::from_str("Invalid sigwild character: ");
            push_char(&mut msg, c);
            proof {
                lemma_first_bad_flag_is(sigwild@, 0, i as int);
            }
            return Err(Error::config_field_parse(section, "sigwild", msg.as_str()));
        }
        i += 1;
    }
    proof {
        lemma_first_bad_flag_is(sigwild@, 0, sigwild@.len() as int);
    }
    Ok(kinds)
}

impl Signature {
    /// Compiles the pattern that the hexadecimal text `signature` and the
    /// wildcard text `sigwild` describe; `section` only names the section in
    /// the error.
    pub fn from_string(section: &str, signature: &str, sigwild: &str) -> (r: Result<Self, Error>)
        ensures
            match signature_of_text(section@, signature@, sigwild@) {
                Ok(pattern) => r matches Ok(s) && s@ == pattern,
                Err(e) => r matches Err(x) && x@ == e,
            },
            r matches Ok(s) ==> 2 * s@.len() == signature@.len() && s@.len() == sigwild@.len(),
    {
        proof {
            law_pattern_length(section@, signature@, sigwild@);
        }
        let sig_chars = chars_of(signature);
        let wild_chars = chars_of(sigwild);
        let bytes = match read_sig(section, sig_chars.as_slice()) {
            Ok(bytes) => bytes,
            Err(e) => { return Err(e); },
        };
        let kinds = match read_sigwild(section, wild_chars.as_slice()) {
            Ok(kinds) => kinds,
            Err(e) => { return Err(e); },
        };
        if bytes.len() != kinds.len() {
            return Err(
                Error::config_field_parse(section, "sigwild", "sigwild length does not match sig"),
            );
        }
        Ok(Signature::new(bytes.as_slice(), kinds.as_slice()))
    }

    /// Compiles a pattern from bytes and, for each of them, how it is compared.
    pub fn new(signature: &[u8], sigwild: &[MatchType]) -> (s: Self)
        requires
            signature@.len() == sigwild@.len(),
        ensures
            s@ == compile(signature@, sigwild@),
    {
        let mut pattern: Vec<Option<u8>> = Vec::new();
        let mut i: usize = 0;
        while i < signature.len()
            invariant
                i <= signature@.len(),
                signature@.len() == sigwild@.len(),
                pattern@.len() == i,
                forall|j: int|
                    0 <= j < i ==> #[trigger] pattern@[j] == compile(signature@, sigwild@)[j],
            decreases signature@.len() - i,
        {
            let slot = match sigwild[i] {
                MatchType::Wild => None,
                MatchType::Exact => Some(signature[i]),
            };
            pattern.push(slot);
            i += 1;
        }
        Signature { pattern }
    }

    /// Whether the pattern matches `haystack` at offset `index`; the offset
    /// itself is handed back when it does.
    pub fn search_at(&self, haystack: &[u8], index: usize) -> (r: Option<usize>)
        ensures
            r == if matches_at(self@, haystack@, index as int) {
                Some(index)
            } else {
                None
            },
    {
        if index > haystack.len() || self.pattern.len() > haystack.len() - index {
            return None;
        }
        let mut i: usize = 0;
        while i < self.pattern.len()
            invariant
                i <= self.pattern@.len(),
                index + self.pattern@.len() <= haystack@.len() <= usize::MAX,
                forall|k: int|
                    0 <= k < i ==> slot_accepts(#[trigger] self.pattern@[k], haystack@[index + k]),
            decreases self.pattern@.len() - i,
        {
            match self.pattern[i] {
                None => {},
                Some(byte) => {
                    if byte != haystack[i + index] {
                        return None;
                    }
                },
            }
            i += 1;
        }
        Some(index)
    }

    /// The leftmost offset at or after `start`, and inside the haystack, at
    /// which the pattern matches.
    pub fn find_first(&self, haystack: &[u8], start: usize) -> (r: Option<usize>)
        ensures
            match r {
                Some(at) => {
                    &&& start <= at < haystack@.len()
                    &&& matches_at(self@, haystack@, at as int)
                    &&& forall|j: int| start <= j < at ==> !matches_at(self@, haystack@, j)
                    &&& first_match(self@, haystack@, start as int) == Some(at as int)
                },
                None => {
                    &&& forall|j: int|
                        start <= j < haystack@.len() ==> !matches_at(self@, haystack@, j)
                    &&& first_match(self@, haystack@, start as int) is None
                },
            },
    {
        let mut i: usize = start;
        while i < haystack.len()
            invariant
                start <= i,
                forall|j: int| start <= j < i ==> !matches_at(self@, haystack@, j),
            decreases haystack@.len() - i,
        {
            if haystack.len() - i < self.pattern.len() {
                proof {
                    lemma_first_match(self@, haystack@, start as int);
                }
                return None;
            }
            match self.search_at(haystack, i) {
                Some(at) => {
                    proof {
                        lemma_first_match(self@, haystack@, start as int);
                    }
                    return Some(at);
                },
                None => {},
            }
            i += 1;
        }
        proof {
            lemma_first_match(self@, haystack@, start as int);
        }
        None
    }

    /// The leftmost offset inside the haystack at which the pattern matches.
    pub fn try_find(&self, haystack: &[u8]) -> (r: Option<usize>)
        ensures
            match r {
                Some(at) => {
                    &&& at < haystack@.len()
                    &&& matches_at(self@, haystack@, at as int)
                    &&& forall|j: int| 0 <= j < at ==> !matches_at(self@, haystack@, j)
                    &&& first_match(self@, haystack@, 0) == Some(at as int)
                },
                None => {
                    &&& forall|j: int|
                        0 <= j < haystack@.len() ==> !matches_at(self@, haystack@, j)
                    &&& first_match(self@, haystack@, 0) is None
                },
            },
    {
        self.find_first(haystack, 0)
    }
}

} // verus!
