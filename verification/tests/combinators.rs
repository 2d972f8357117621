//! The scanner against the same grammar written with parser combinators, on
//! texts in which no value is followed by anything on its line.

use std::collections::HashMap;

use res_patcher::error::GrammarError;
use res_patcher::grammar::parse;
use res_patcher::table::RawConfig;
use winnow::ascii::{alphanumeric1, line_ending, multispace1, space0, till_line_ending};
use winnow::combinator::{alt, delimited, opt, repeat, terminated};
use winnow::token::{one_of, take_until};
use winnow::{ModalResult, Parser};

type Sections = HashMap<String, HashMap<String, String>>;

fn name(input: &mut &str) -> ModalResult<String> {
    delimited('[', take_until(1.., ']'), ']')
        .map(|name: &str| name.to_string())
        .parse_next(input)
}

fn note(input: &mut &str) -> ModalResult<()> {
    (one_of((';', '#')), till_line_ending, line_ending)
        .void()
        .parse_next(input)
}

fn filler(input: &mut &str) -> ModalResult<()> {
    alt((note, multispace1.void())).parse_next(input)
}

fn fillers(input: &mut &str) -> ModalResult<()> {
    repeat(1.., filler).parse_next(input)
}

fn gap(input: &mut &str) -> ModalResult<()> {
    opt(fillers).void().parse_next(input)
}

fn in_quotes<'a>(input: &mut &'a str) -> ModalResult<&'a str> {
    terminated(delimited('"', take_until(0.., '"'), '"'), line_ending).parse_next(input)
}

fn plain<'a>(input: &mut &'a str) -> ModalResult<&'a str> {
    till_line_ending.map(str::trim_end).parse_next(input)
}

fn entry(input: &mut &str) -> ModalResult<(String, String)> {
    let key = alphanumeric1.parse_next(input)?;
    (space0, '=', space0).void().parse_next(input)?;
    let value = alt((in_quotes, plain)).parse_next(input)?;
    Ok((key.to_string(), value.to_string()))
}

fn block(input: &mut &str) -> ModalResult<(String, HashMap<String, String>)> {
    let name = name.parse_next(input)?;
    gap.parse_next(input)?;
    let entries = repeat(1.., terminated(entry, gap)).parse_next(input)?;
    Ok((name, entries))
}

fn with_combinators(text: &str) -> Option<Sections> {
    let mut input = text;
    let skipped: ModalResult<&str> = take_until(0.., '[').parse_next(&mut input);
    skipped.ok()?;
    let blocks: ModalResult<Sections> = repeat(1.., block).parse_next(&mut input);
    blocks.ok()
}

fn as_map(config: &RawConfig) -> Sections {
    let mut sections = Sections::new();
    for i in 0..config.len() {
        let items = config.value_at(i);
        let mut entries = HashMap::new();
        for j in 0..items.len() {
            entries.insert(items.key_at(j).clone(), items.value_at(j).clone());
        }
        sections.insert(config.key_at(i).clone(), entries);
    }
    sections
}

/// The two agree on every text that the scanner reads, and on every text
/// without a section. Where a bracket behind a section starts no section the
/// scanner refuses the text, and the combinators stop reading there.
fn agree(text: &str) {
    let combined = with_combinators(text);
    match parse(text) {
        Ok(config) => assert_eq!(Some(as_map(&config)), combined, "text: {text:?}"),
        Err(GrammarError::NoSection) => assert_eq!(None, combined, "text: {text:?}"),
        Err(_) => assert!(text.matches('[').count() > 1 || combined.is_none(), "text: {text:?}"),
    }
}

fn next(state: &mut u64) -> usize {
    *state = state
        .wrapping_mul(6364136223846793005)
        .wrapping_add(1442695040888963407);
    (*state >> 33) as usize
}

fn pick<'a>(state: &mut u64, choices: &[&'a str]) -> &'a str {
    choices[next(state) % choices.len()]
}

fn line(state: &mut u64) -> String {
    let indent = pick(state, &["", "", " ", "\t", "    "]);
    let body = match next(state) % 12 {
        0 => String::new(),
        1 => format!("{} note", pick(state, &[";", "#", ";;", "#;"])),
        2 | 3 => format!("[{}]", pick(state, &["Apps", "A", "B", "Two words", "a]", ""])),
        4 => format!(
            "{}=\"{}\"",
            pick(state, &["k", "key2", "a0"]),
            pick(state, &["", "quoted", " kept ", "a\nb", "semi;colon"])
        ),
        5 => pick(state, &["junk", "= 3", "no equals", "[open", "lone\rreturn = 1"]).to_string(),
        _ => format!(
            "{}{}={}{}{}",
            pick(state, &["k", "key2", "a0", "a1", "version", "K"]),
            pick(state, &["", " ", "\t "]),
            pick(state, &["", " ", "  "]),
            pick(state, &["", "v", "1.0", "two words", "x=y", "[v]", "lone\rreturn"]),
            pick(state, &["", " ", " \t", "\u{00A0}"])
        ),
    };
    let end = pick(state, &["\n", "\n", "\r\n", "\n\n"]);
    format!("{indent}{body}{end}")
}

#[test]
fn scanner_and_combinators_agree_on_fixed_texts() {
    let texts = [
        "",
        "[",
        "[]",
        "[A]",
        "[A]\n",
        "[A]\nk=v",
        "[A]\nk=v\n",
        "[A]k=v\n",
        "preamble\n[A]\r\nk = v\r\n",
        "[A]\nk = v\n[B]\n",
        "[A]\nk = v\n[B]\nx = 1\n[A]\ny = 2\n",
        "[A]\nk = 1\nk = 2\n",
        "[A]\n; note\n\n  # note\nk = \"q\"\n\n",
        "[A]\nk = v   \nrest\n[B]\nx = 1\n",
        "[A]\nk = lone\rreturn\n",
        "[A]\n; lone\rreturn\nk = v\n",
        "[A]\n; unfinished",
        "[A]\nk v\n",
        "[A\nk = v\n]\nx = 1\n",
        "[A]\n\u{00e9} = 1\n",
        "[A]\nk = \u{00e9}\u{2003}\n",
    ];
    for text in texts {
        agree(text);
    }
}

#[test]
fn scanner_and_combinators_agree_on_generated_texts() {
    let mut state = 0x2545F4914F6CDD1D;
    for _ in 0..3000 {
        let lines = next(&mut state) % 9;
        let mut text = String::new();
        for _ in 0..lines {
            text.push_str(&line(&mut state));
        }
        agree(&text);
    }
}
