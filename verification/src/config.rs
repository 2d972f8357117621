//! The validated configuration: which applications it manages, in which
//! order, and the chain of patches of each.

use crate::error::{missing_field, other_config, Error, ErrorView};
use crate::grammar::{document, parse, Pairs};
use crate::patch_info::{field_key, field_name, patch_of_items, PatchInfo, PatchInfoView};
use crate::table::{lookup, Items, RawConfig};
use crate::text::{
    chars_of, eq_ignoring_ascii_case, parse_number, read_number, replace_all, replace_text,
    same_ignoring_ascii_case,
};
use vstd::prelude::*;
use vstd::slice::slice_subrange;
use vstd::string::StringExecFns;

verus! {

/// The views of strings, in order.
pub open spec fn string_views(strings: Seq<String>) -> Seq<Seq<char>> {
    Seq::new(strings.len(), |i: int| strings[i]@)
}

/// The views of patches, in order.
pub open spec fn patch_views(patches: Seq<PatchInfo>) -> Seq<PatchInfoView> {
    Seq::new(patches.len(), |i: int| patches[i]@)
}

/// The views of applications, in order.
pub open spec fn section_views(sections: Seq<AppSection>) -> Seq<AppSectionView> {
    Seq::new(sections.len(), |i: int| sections[i]@)
}

/// The registry of managed applications: the format version and the names of
/// the applications' sections, in the order of their indices.
#[derive(Clone, Debug)]
pub struct Apps {
    pub version: String,
    pub apps: Vec<String>,
}

/// The view of an [`Apps`].
pub struct AppsView {
    pub version: Seq<char>,
    pub apps: Seq<Seq<char>>,
}

impl View for Apps {
    type V = AppsView;

    open spec fn view(&self) -> AppsView {
        AppsView {
            version: self.version@,
            apps: string_views(self.apps@),
        }
    }
}

/// One managed application and its chain of patches.
#[derive(Clone, Debug)]
pub struct AppSection {
    pub name: String,
    pub details: String,
    pub checkfile: String,
    pub patches: Vec<PatchInfo>,
}

/// The view of an [`AppSection`].
pub struct AppSectionView {
    pub name: Seq<char>,
    pub details: Seq<char>,
    pub checkfile: Seq<char>,
    pub patches: Seq<PatchInfoView>,
}

impl View for AppSection {
    type V = AppSectionView;

    open spec fn view(&self) -> AppSectionView {
        AppSectionView {
            name: self.name@,
            details: self.details@,
            checkfile: self.checkfile@,
            patches: patch_views(self.patches@),
        }
    }
}

/// A whole configuration.
#[derive(Clone, Debug)]
pub struct Config {
    pub apps: Apps,
    pub sections: Vec<AppSection>,
}

/// The view of a [`Config`].
pub struct ConfigView {
    pub apps: AppsView,
    pub sections: Seq<AppSectionView>,
}

impl View for Config {
    type V = ConfigView;

    open spec fn view(&self) -> ConfigView {
        ConfigView {
            apps: self.apps@,
            sections: section_views(self.sections@),
        }
    }
}

/// The index that a key of the registry gives its application: the number
/// behind the `a` of a key made of `a` and a decimal number of at most 255.
/// Other keys give none.
pub open spec fn app_index(key: Seq<char>) -> Option<nat> {
    if key.len() > 0 && key[0] == 'a' {
        match parse_number(key.skip(1), 255) {
            Ok(n) => Some(n),
            Err(_) => None,
        }
    } else {
        None
    }
}

/// The values of the entries whose key gives the index `n`, in the order of
/// the entries.
pub open spec fn apps_with_index(entries: Pairs, n: nat) -> Seq<Seq<char>>
    decreases entries.len(),
{
    if entries.len() == 0 {
        Seq::empty()
    } else {
        let before = apps_with_index(entries.drop_last(), n);
        if app_index(entries.last().0) == Some(n) {
            before.push(entries.last().1)
        } else {
            before
        }
    }
}

/// The values of the entries whose key gives an index below `limit`, by
/// ascending index, and in the order of the entries where the index is the
/// same.
pub open spec fn ordered_apps(entries: Pairs, limit: nat) -> Seq<Seq<char>>
    decreases limit,
{
    if limit == 0 {
        Seq::empty()
    } else {
        ordered_apps(entries, (limit - 1) as nat) + apps_with_index(entries, (limit - 1) as nat)
    }
}

/// The positions of the entries whose key gives the index `n`, ascending.
pub open spec fn positions_with_index(entries: Pairs, n: nat) -> Seq<int>
    decreases entries.len(),
{
    if entries.len() == 0 {
        Seq::empty()
    } else {
        let before = positions_with_index(entries.drop_last(), n);
        if app_index(entries.last().0) == Some(n) {
            before.push(entries.len() - 1)
        } else {
            before
        }
    }
}

/// The positions of the entries whose key gives an index below `limit`, in
/// the order in which `ordered_apps` lists their values.
pub open spec fn ordered_positions(entries: Pairs, limit: nat) -> Seq<int>
    decreases limit,
{
    if limit == 0 {
        Seq::empty()
    } else {
        ordered_positions(entries, (limit - 1) as nat) + positions_with_index(
            entries,
            (limit - 1) as nat,
        )
    }
}

/// Whether the entry at position `a` comes before the one at position `b`
/// in the registry: its key gives the smaller index or, with the same index,
/// it stands first.
pub open spec fn comes_before(entries: Pairs, a: int, b: int) -> bool {
    let x = app_index(entries[a].0)->0;
    let y = app_index(entries[b].0)->0;
    x < y || (x == y && a < b)
}

proof fn lemma_positions_with_index(entries: Pairs, n: nat)
    ensures
        positions_with_index(entries, n).len() == apps_with_index(entries, n).len(),
        forall|k: int|
            0 <= k < positions_with_index(entries, n).len() ==> {
                let e = #[trigger] positions_with_index(entries, n)[k];
                &&& 0 <= e < entries.len()
                &&& app_index(entries[e].0) == Some(n)
                &&& apps_with_index(entries, n)[k] == entries[e].1
            },
        forall|k: int, l: int|
            0 <= k < l < positions_with_index(entries, n).len() ==> #[trigger] positions_with_index(
                entries,
                n,
            )[k] < #[trigger] positions_with_index(entries, n)[l],
        forall|e: int|
            0 <= e < entries.len() && app_index(#[trigger] entries[e].0) == Some(n)
                ==> positions_with_index(entries, n).contains(e),
    decreases entries.len(),
{
    if entries.len() > 0 {
        let shorter = entries.drop_last();
        let before = positions_with_index(shorter, n);
        let all = positions_with_index(entries, n);
        lemma_positions_with_index(shorter, n);
        assert forall|k: int| 0 <= k < all.len() implies {
            let e = #[trigger] all[k];
            &&& 0 <= e < entries.len()
            &&& app_index(entries[e].0) == Some(n)
            &&& apps_with_index(entries, n)[k] == entries[e].1
        } by {}
        assert forall|k: int, l: int| 0 <= k < l < all.len() implies #[trigger] all[k]
            < #[trigger] all[l] by {}
        assert forall|e: int|
            0 <= e < entries.len() && app_index(#[trigger] entries[e].0) == Some(n) implies all.contains(
            e,
        ) by {
            if e < shorter.len() {
                assert(shorter[e] == entries[e]);
                let k = choose|k: int| 0 <= k < before.len() && before[k] == e;
                assert(all[k] == e);
            } else {
                assert(all[all.len() - 1] == e);
            }
        }
    }
}

/// The registry is sorted by number, and stably. The applications that
/// `ordered_apps` lists are the values of the entries at `ordered_positions`.
/// These are positions of entries whose key gives an index below the limit,
/// every such position is among them, and each of them comes before those
/// behind it: with the smaller index or, with the same index, as the entry
/// that stands first.
pub proof fn law_apps_are_sorted(entries: Pairs, limit: nat)
    ensures
        ordered_positions(entries, limit).len() == ordered_apps(entries, limit).len(),
        forall|k: int|
            0 <= k < ordered_positions(entries, limit).len() ==> {
                let e = #[trigger] ordered_positions(entries, limit)[k];
                &&& 0 <= e < entries.len()
                &&& app_index(entries[e].0) matches Some(n) && n < limit
                &&& ordered_apps(entries, limit)[k] == entries[e].1
            },
        forall|k: int, l: int|
            0 <= k < l < ordered_positions(entries, limit).len() ==> comes_before(
                entries,
                #[trigger] ordered_positions(entries, limit)[k],
                #[trigger] ordered_positions(entries, limit)[l],
            ),
        forall|e: int|
            0 <= e < entries.len() && (app_index(#[trigger] entries[e].0) matches Some(n) && n
                < limit) ==> ordered_positions(entries, limit).contains(e),
    decreases limit,
{
    if limit > 0 {
        let n = (limit - 1) as nat;
        let before = ordered_positions(entries, n);
        let group = positions_with_index(entries, n);
        let all = ordered_positions(entries, limit);
        law_apps_are_sorted(entries, n);
        lemma_positions_with_index(entries, n);
        assert forall|k: int| 0 <= k < all.len() implies {
            let e = #[trigger] all[k];
            &&& 0 <= e < entries.len()
            &&& app_index(entries[e].0) matches Some(m) && m < limit
            &&& ordered_apps(entries, limit)[k] == entries[e].1
        } by {}
        assert forall|k: int, l: int| 0 <= k < l < all.len() implies comes_before(
            entries,
            #[trigger] all[k],
            #[trigger] all[l],
        ) by {}
        assert forall|e: int|
            0 <= e < entries.len() && (app_index(#[trigger] entries[e].0) matches Some(m) && m
                < limit) implies all.contains(e) by {
            if app_index(entries[e].0) == Some(n) {
                let k = choose|k: int| 0 <= k < group.len() && group[k] == e;
                assert(all[before.len() + k] == e);
            } else {
                let k = choose|k: int| 0 <= k < before.len() && before[k] == e;
                assert(all[k] == e);
            }
        }
    }
}

/// The registry that a configuration holds in its section `Apps`.
pub open spec fn apps_of(config: Seq<(Seq<char>, Pairs)>) -> Result<AppsView, ErrorView> {
    match lookup(config, "Apps"@) {
        None => Err(other_config("Missing 'Apps' Section"@)),
        Some(entries) => match lookup(entries, "version"@) {
            None => Err(missing_field("Apps"@, "version"@)),
            Some(version) => Ok(AppsView { version, apps: ordered_apps(entries, 256) }),
        },
    }
}

/// The two-character-code escape that stands for a line break in `details`.
pub open spec fn line_break_escape() -> Seq<char> {
    "\\013\\010"@
}

/// The patches with the indices from `i` on: they end before the first index
/// whose `sig` is absent, and behind index 255 at the latest. A fault in one
/// of them is the fault of the chain.
pub open spec fn chain_from(section: Seq<char>, items: Pairs, i: nat) -> Result<
    Seq<PatchInfoView>,
    ErrorView,
>
    decreases 256 - i,
{
    if i > 255 || lookup(items, field_key(Some(i as u8), "sig"@)) is None {
        Ok(Seq::empty())
    } else {
        match patch_of_items(section, items, Some(i as u8)) {
            Err(e) => Err(e),
            Ok(patch) => match chain_from(section, items, i + 1) {
                Err(e) => Err(e),
                Ok(rest) => Ok(seq![patch] + rest),
            },
        }
    }
}

/// The application that the items of the section `name` describe, or the
/// first fault found: `details` absent, `checkfile` absent, a fault in the
/// first patch, a fault in a later patch of the chain.
pub open spec fn app_section_of(name: Seq<char>, items: Pairs, line_ending: Seq<char>) -> Result<
    AppSectionView,
    ErrorView,
> {
    match lookup(items, "details"@) {
        None => Err(missing_field(name, "details"@)),
        Some(details) => match lookup(items, "checkfile"@) {
            None => Err(missing_field(name, "checkfile"@)),
            Some(checkfile) => match patch_of_items(name, items, None) {
                Err(e) => Err(e),
                Ok(first) => match chain_from(name, items, 1) {
                    Err(e) => Err(e),
                    Ok(rest) => Ok(
                        AppSectionView {
                            name,
                            details: replace_all(details, line_break_escape(), line_ending),
                            checkfile,
                            patches: seq![first] + rest,
                        },
                    ),
                },
            },
        },
    }
}

/// The applications of the sections named by `names`, in that order, or the
/// fault of the first name whose section is absent or faulty.
pub open spec fn sections_of(
    config: Seq<(Seq<char>, Pairs)>,
    names: Seq<Seq<char>>,
    line_ending: Seq<char>,
) -> Result<Seq<AppSectionView>, ErrorView>
    decreases names.len(),
{
    if names.len() == 0 {
        Ok(Seq::empty())
    } else {
        match sections_of(config, names.drop_last(), line_ending) {
            Err(e) => Err(e),
            Ok(before) => match lookup(config, names.last()) {
                None => Err(other_config("Missing section "@ + names.last())),
                Some(items) => match app_section_of(names.last(), items, line_ending) {
                    Err(e) => Err(e),
                    Ok(section) => Ok(before.push(section)),
                },
            },
        }
    }
}

/// The configuration that a text describes, with `line_ending` put in place
/// of the line-break escape in every `details`.
pub open spec fn config_of(text: Seq<char>, line_ending: Seq<char>) -> Result<
    ConfigView,
    ErrorView,
> {
    match document(text) {
        Err(e) => Err(ErrorView::ParseError(e)),
        Ok(raw) => match apps_of(raw) {
            Err(e) => Err(e),
            Ok(apps) => match sections_of(raw, apps.apps, line_ending) {
                Err(e) => Err(e),
                Ok(sections) => Ok(ConfigView { apps, sections }),
            },
        },
    }
}

/// The chain ends at the first missing `sig`: where the section holds no
/// `p1sig`, the chain of the application is its first patch alone, whatever
/// other keys with a prefix the section holds; and the application can be
/// built as soon as `details` and `checkfile` are there and the first patch
/// reads.
pub proof fn law_chain_ends_without_p1sig(name: Seq<char>, items: Pairs, line_ending: Seq<char>)
    requires
        lookup(items, "p1sig"@) is None,
    ensures
        chain_from(name, items, 1) == Ok::<Seq<PatchInfoView>, ErrorView>(Seq::empty()),
        app_section_of(name, items, line_ending) matches Ok(section) ==> {
            &&& section.patches.len() == 1
            &&& patch_of_items(name, items, None) == Ok::<PatchInfoView, ErrorView>(
                section.patches[0],
            )
        },
        lookup(items, "details"@) is Some && lookup(items, "checkfile"@) is Some && patch_of_items(
            name,
            items,
            None,
        ) is Ok ==> app_section_of(name, items, line_ending) is Ok,
{
    reveal_strlit("p1sig");
    reveal_strlit("sig");
    assert(field_key(Some(1u8), "sig"@) == "p1sig"@);
}

/// The applications of a configuration stand in the order of the registry:
/// one for each name of the registry, under that name, each with at least
/// one patch.
pub proof fn law_sections_follow_registry(
    config: Seq<(Seq<char>, Pairs)>,
    names: Seq<Seq<char>>,
    line_ending: Seq<char>,
)
    ensures
        sections_of(config, names, line_ending) matches Ok(sections) ==> {
            &&& sections.len() == names.len()
            &&& forall|i: int|
                0 <= i < names.len() ==> {
                    &&& (#[trigger] sections[i]).name == names[i]
                    &&& sections[i].patches.len() > 0
                }
        },
    decreases names.len(),
{
    if names.len() > 0 {
        law_sections_follow_registry(config, names.drop_last(), line_ending);
        match sections_of(config, names, line_ending) {
            Ok(sections) => {
                assert forall|i: int| 0 <= i < names.len() implies {
                    &&& (#[trigger] sections[i]).name == names[i]
                    &&& sections[i].patches.len() > 0
                } by {}
            },
            Err(_) => {},
        }
    }
}

/// The index that a registry key gives its application.
fn key_index(key: &str) -> (index: Option<u8>)
    ensures
        match app_index(key@) {
            Some(n) => index == Some(n as u8) && n <= 255,
            None => index is None,
        },
{
    let chars = chars_of(key);
    if chars.len() > 0 && chars[0] == 'a' {
        let digits = slice_subrange(chars.as_slice(), 1, chars.len());
        match read_number(digits, 255) {
            Ok(n) => Some(n as u8),
            Err(_) => None,
        }
    } else {
        None
    }
}

/// What a size field holds after its text was edited to `input`: nothing for
/// an empty text, the number for a text that is a 16-bit number, and what it
/// held before for any other text.
pub open spec fn size_after_edit(current: Option<u16>, input: Seq<char>) -> Option<u16> {
    if input.len() == 0 {
        None
    } else {
        match parse_number(input, u16::MAX as nat) {
            Ok(n) => Some(n as u16),
            Err(_) => current,
        }
    }
}

/// The width or height to go on with after the user edited its text.
pub fn edited_size(current: Option<u16>, input: &str) -> (size: Option<u16>)
    ensures
        size == size_after_edit(current, input@),
{
    let chars = chars_of(input);
    if chars.len() == 0 {
        None
    } else {
        match read_number(chars.as_slice(), 0xffff) {
            Ok(n) => Some(n as u16),
            Err(_) => current,
        }
    }
}

impl AppSection {
    /// Whether the application can be patched: one of the files in the game
    /// directory is the check file, whatever the case of its ASCII letters,
    /// and both sizes are set.
    pub fn can_patch(&self, file_names: &Vec<String>, width: Option<u16>, height: Option<u16>) -> (ready: bool)
        ensures
            ready == (width is Some && height is Some && exists|i: int|
                0 <= i < file_names@.len() && same_ignoring_ascii_case(
                    #[trigger] file_names@[i]@,
                    self.checkfile@,
                )),
    {
        if width.is_none() || height.is_none() {
            return false;
        }
        let mut i: usize = 0;
        while i < file_names.len()
            invariant
                i <= file_names@.len(),
                width is Some,
                height is Some,
                forall|k: int|
                    0 <= k < i ==> !same_ignoring_ascii_case(
                        #[trigger] file_names@[k]@,
                        self.checkfile@,
                    ),
            decreases file_names@.len() - i,
        {
            if eq_ignoring_ascii_case(file_names[i].as_str(), self.checkfile.as_str()) {
                return true;
            }
            i += 1;
        }
        false
    }
}

impl Config {
    /// The first application with the given name.
    pub fn find_section(&self, name: &str) -> (found: Option<&AppSection>)
        ensures
            match found {
                Some(section) => exists|i: int|
                    {
                        &&& 0 <= i < self.sections@.len()
                        &&& #[trigger] self.sections@[i] == *section
                        &&& section.name@ == name@
                        &&& forall|j: int| 0 <= j < i ==> self.sections@[j].name@ != name@
                    },
                None => forall|i: int|
                    0 <= i < self.sections@.len() ==> self.sections@[i].name@ != name@,
            },
    {
        let wanted = name.to_owned();
        let mut i: usize = 0;
        while i < self.sections.len()
            invariant
                i <= self.sections@.len(),
                wanted@ == name@,
                forall|j: int| 0 <= j < i ==> self.sections@[j].name@ != name@,
            decreases self.sections@.len() - i,
        {
            if self.sections[i].name == wanted {
                return Some(&self.sections[i]);
            }
            i += 1;
        }
        None
    }

    /// Reads the registry of applications from the section `Apps`.
    pub fn get_apps(raw_config: &RawConfig) -> (r: Result<Apps, Error>)
        ensures
            match apps_of(raw_config@) {
                Ok(apps) => r matches Ok(found) && found@ == apps,
                Err(e) => r matches Err(x) && x@ == e,
            },
    {
        let entries = match raw_config.get("Apps") {
            Some(entries) => entries,
            None => { return Err(Error::config_error("Missing 'Apps' Section")); },
        };
        let version = match entries.get("version") {
            Some(version) => version.clone(),
            None => { return Err(Error::config_missing_field("Apps", "version")); },
        };
        let count = entries.len();
        let mut indices: Vec<Option<u8>> = Vec::new();
        let mut i: usize = 0;
        while i < count
            invariant
                i <= count == entries@.len(),
                indices@.len() == i,
                forall|k: int|
                    0 <= k < i ==> match app_index(entries@[k].0) {
                        Some(n) => #[trigger] indices@[k] == Some(n as u8) && n <= 255,
                        None => indices@[k] is None,
                    },
            decreases count - i,
        {
            indices.push(key_index(entries.key_at(i).as_str()));
            i += 1;
        }
        let mut apps: Vec<String> = Vec::new();
        let mut n: u16 = 0;
        while n < 256
            invariant
                n <= 256,
                count == entries@.len(),
                indices@.len() == count,
                forall|k: int|
                    0 <= k < count ==> match app_index(entries@[k].0) {
                        Some(n) => #[trigger] indices@[k] == Some(n as u8) && n <= 255,
                        None => indices@[k] is None,
                    },
                string_views(apps@) == ordered_apps(entries@, n as nat),
            decreases 256 - n,
        {
            let ghost before = string_views(apps@);
            let mut j: usize = 0;
            while j < count
                invariant
                    j <= count == entries@.len(),
                    n < 256,
                    indices@.len() == count,
                    forall|k: int|
                        0 <= k < count ==> match app_index(entries@[k].0) {
                            Some(n) => #[trigger] indices@[k] == Some(n as u8) && n <= 255,
                            None => indices@[k] is None,
                        },
                    string_views(apps@) == before + apps_with_index(
                        entries@.take(j as int),
                        n as nat,
                    ),
                decreases count - j,
            {
                let ghost group = apps_with_index(entries@.take(j as int), n as nat);
                proof {
                    assert(entries@.take(j + 1).drop_last() == entries@.take(j as int));
                }
                let index = indices[j];
                if index == Some(n as u8) {
                    apps.push(entries.value_at(j).clone());
                    assert(before + group.push(entries@[j as int].1) == (before + group).push(
                        entries@[j as int].1,
                    ));
                }
                j += 1;
            }
            assert(entries@.take(count as int) == entries@);
            n += 1;
        }
        Ok(Apps { version, apps })
    }

    /// Reads a whole configuration from its text. `line_ending` is what the
    /// line-break escape in a `details` field is replaced with: the line
    /// terminator of the platform the text is shown on.
    pub fn new(input: &str, line_ending: &str) -> (r: Result<Self, Error>)
        ensures
            match config_of(input@, line_ending@) {
                Ok(config) => r matches Ok(found) && found@ == config,
                Err(e) => r matches Err(x) && x@ == e,
            },
            r matches Ok(found) ==> {
                &&& found.sections@.len() == found.apps.apps@.len()
                &&& forall|i: int|
                    0 <= i < found.sections@.len() ==> {
                        &&& (#[trigger] found.sections@[i]).name@ == found.apps.apps@[i]@
                        &&& found.sections@[i].patches@.len() > 0
                    }
            },
    {
        let raw_config = match parse(input) {
            Ok(raw_config) => raw_config,
            Err(e) => { return Err(Error::from(e)); },
        };
        let apps = match Config::get_apps(&raw_config) {
            Ok(apps) => apps,
            Err(e) => { return Err(e); },
        };
        let sections = match build_sections(&raw_config, &apps.apps, line_ending) {
            Ok(sections) => sections,
            Err(e) => { return Err(e); },
        };
        proof {
            law_sections_follow_registry(raw_config@, string_views(apps.apps@), line_ending@);
            assert forall|i: int| 0 <= i < sections@.len() implies {
                &&& (#[trigger] sections@[i]).name@ == apps.apps@[i]@
                &&& sections@[i].patches@.len() > 0
            } by {
                assert(section_views(sections@)[i] == sections@[i]@);
            }
        }
        Ok(Config { apps, sections })
    }
}

/// Builds the application of each of the sections named by `names`, in order.
fn build_sections(raw_config: &RawConfig, names: &Vec<String>, line_ending: &str) -> (r: Result<
    Vec<AppSection>,
    Error,
>)
    ensures
        match sections_of(raw_config@, string_views(names@), line_ending@) {
            Ok(sections) => r matches Ok(found) && section_views(found@) == sections,
            Err(e) => r matches Err(x) && x@ == e,
        },
{
    let ghost all = string_views(names@);
    let mut sections: Vec<AppSection> = Vec::new();
    let mut i: usize = 0;
    proof {
        assert(section_views(sections@) == Seq::<AppSectionView>::empty());
    }
    while i < names.len()
        invariant
            i <= names@.len(),
            all == string_views(names@),
            sections_of(raw_config@, all.take(i as int), line_ending@) == Ok::<
                Seq<AppSectionView>,
                ErrorView,
            >(section_views(sections@)),
        decreases names@.len() - i,
    {
        let header = &names[i];
        let ghost before = section_views(sections@);
        proof {
            assert(all.take(i + 1).drop_last() == all.take(i as int));
            lemma_sections_of_fault(raw_config@, all, i + 1, line_ending@);
        }
        let items = match raw_config.get(header.as_str()) {
            Some(items) => items,
            None => {
                let mut msg = String::from_str("Missing section ");
                msg.append(header.as_str());
                return Err(Error::config_error(msg.as_str()));
            },
        };
        let section = match AppSection::from_items(header.as_str(), items, line_ending) {
            Ok(section) => section,
            Err(e) => { return Err(e); },
        };
        sections.push(section);
        assert(section_views(sections@) == before.push(section@));
        i += 1;
    }
    assert(all.take(i as int) == all);
    Ok(sections)
}

/// A fault among the first `k` names is the fault of all the names.
proof fn lemma_sections_of_fault(
    config: Seq<(Seq<char>, Pairs)>,
    names: Seq<Seq<char>>,
    k: int,
    line_ending: Seq<char>,
)
    requires
        0 <= k <= names.len(),
    ensures
        sections_of(config, names.take(k), line_ending) matches Err(e) ==> sections_of(
            config,
            names,
            line_ending,
        ) == Err::<Seq<AppSectionView>, ErrorView>(e),
    decreases names.len() - k,
{
    if k < names.len() {
        assert(names.take(k + 1).drop_last() == names.take(k));
        lemma_sections_of_fault(config, names, k + 1, line_ending);
    } else {
        assert(names.take(k) == names);
    }
}

impl AppSection {
    /// Builds the application of the section `name` from the section's items.
    #[verifier::loop_isolation(false)]
    pub fn from_items(name: &str, items: &Items, line_ending: &str) -> (r: Result<Self, Error>)
        ensures
            match app_section_of(name@, items@, line_ending@) {
                Ok(section) => r matches Ok(found) && found@ == section,
                Err(e) => r matches Err(x) && x@ == e,
            },
            r matches Ok(found) ==> found.patches@.len() > 0,
    {
        let details = match items.get("details") {
            Some(details) => replace_text(details.as_str(), "\\013\\010", line_ending),
            None => { return Err(Error::config_missing_field(name, "details")); },
        };
        let checkfile = match items.get("checkfile") {
            Some(checkfile) => checkfile.clone(),
            None => { return Err(Error::config_missing_field(name, "checkfile")); },
        };
        let first = match PatchInfo::from_items(name, items, None) {
            Ok(first) => first,
            Err(e) => { return Err(e); },
        };
        let ghost first_view = first@;
        let mut patches: Vec<PatchInfo> = Vec::new();
        patches.push(first);
        let ghost mut later: Seq<PatchInfoView> = Seq::empty();
        let mut idx: u8 = 1;
        let mut open = true;
        while open
            invariant
                1 <= idx <= 255,
                patch_views(patches@) == seq![first_view] + later,
                chain_from(name@, items@, 1) == if open {
                    match chain_from(name@, items@, idx as nat) {
                        Ok(rest) => Ok::<Seq<PatchInfoView>, ErrorView>(later + rest),
                        Err(e) => Err(e),
                    }
                } else {
                    Ok::<Seq<PatchInfoView>, ErrorView>(later)
                },
            decreases 256 - idx + if open { 1int } else { 0int },
        {
            let key = field_name(Some(idx), "sig");
            if !items.contains_key(key.as_str()) {
                open = false;
            } else {
                let next = match PatchInfo::from_items(name, items, Some(idx)) {
                    Ok(next) => next,
                    Err(e) => { return Err(e); },
                };
                proof {
                    let rest = chain_from(name@, items@, idx as nat + 1);
                    if rest is Ok {
                        assert(later + (seq![next@] + rest->Ok_0) == later.push(next@) + rest->Ok_0);
                    }
                    later = later.push(next@);
                }
                let ghost shown = patch_views(patches@);
                patches.push(next);
                assert(patch_views(patches@) == shown.push(next@));
                if idx == 255 {
                    open = false;
                } else {
                    idx += 1;
                }
            }
        }
        Ok(AppSection { name: String::from_str(name), details, checkfile, patches })
    }
}

} // verus!
