//! One scan-and-patch operation: how it is read from the items of a section,
//! and how it rewrites a buffer.

use crate::error::{field_parse, missing_field, Error, ErrorView};
use crate::signature::{
    first_match, lemma_first_match, matches_at, signature_of_text, Signature,
};
use crate::table::{lookup, Items};
use crate::text::{chars_of, decimal_text, parse_number, push_decimal, read_number};
use vstd::prelude::*;
use vstd::string::StringExecFns;

verus! {

/// A pattern to look for in a file, the offsets behind each match at which
/// the width and the height are written, and how many matches to patch.
#[derive(Clone, Debug, Default)]
pub struct PatchInfo {
    pub modfile: String,
    pub undofile: Option<String>,
    pub signature: Signature,
    pub xoffset: Option<u64>,
    pub yoffset: Option<u64>,
    pub occur: u32,
    pub setx: Option<u16>,
    pub sety: Option<u16>,
}

/// The view of a [`PatchInfo`].
pub struct PatchInfoView {
    pub modfile: Seq<char>,
    pub undofile: Option<Seq<char>>,
    pub signature: Seq<Option<u8>>,
    pub xoffset: Option<u64>,
    pub yoffset: Option<u64>,
    pub occur: u32,
    pub setx: Option<u16>,
    pub sety: Option<u16>,
}

impl View for PatchInfo {
    type V = PatchInfoView;

    open spec fn view(&self) -> PatchInfoView {
        PatchInfoView {
            modfile: self.modfile@,
            undofile: match self.undofile {
                Some(name) => Some(name@),
                None => None,
            },
            signature: self.signature@,
            xoffset: self.xoffset,
            yoffset: self.yoffset,
            occur: self.occur,
            setx: self.setx,
            sety: self.sety,
        }
    }
}

/// The key under which a field of the patch with the given index is stored:
/// the field's name for the first patch (no index), and `p`, the index in
/// decimal and the field's name for the others.
pub open spec fn field_key(index: Option<u8>, field: Seq<char>) -> Seq<char> {
    match index {
        Some(i) => seq!['p'] + decimal_text(i as nat) + field,
        None => field,
    }
}

/// The number stored under an optional field; `None` when the field is
/// absent or is no number of at most `max`.
pub open spec fn optional_number(
    items: Seq<(Seq<char>, Seq<char>)>,
    index: Option<u8>,
    field: Seq<char>,
    max: nat,
) -> Option<nat> {
    match lookup(items, field_key(index, field)) {
        Some(text) => match parse_number(text, max) {
            Ok(n) => Some(n),
            Err(_) => None,
        },
        None => None,
    }
}

/// The patch that the items of section `section` describe under the given
/// index, or the first fault found when the fields are read in this order:
/// `sig` and `sigwild` present, the two compile to a pattern, `modfile`
/// present, `occur` present and a 32-bit number. The optional fields never
/// give a fault.
pub open spec fn patch_of_items(
    section: Seq<char>,
    items: Seq<(Seq<char>, Seq<char>)>,
    index: Option<u8>,
) -> Result<PatchInfoView, ErrorView> {
    match lookup(items, field_key(index, "sig"@)) {
        None => Err(missing_field(section, "sig"@)),
        Some(sig) => match lookup(items, field_key(index, "sigwild"@)) {
            None => Err(missing_field(section, "sigwild"@)),
            Some(sigwild) => match signature_of_text(section, sig, sigwild) {
                Err(e) => Err(e),
                Ok(signature) => match lookup(items, field_key(index, "modfile"@)) {
                    None => Err(missing_field(section, "modfile"@)),
                    Some(modfile) => match lookup(items, field_key(index, "occur"@)) {
                        None => Err(missing_field(section, "occur"@)),
                        Some(occur) => match parse_number(occur, u32::MAX as nat) {
                            Err(e) => Err(field_parse(section, "occur"@, e.text())),
                            Ok(n) => Ok(
                                PatchInfoView {
                                    modfile,
                                    undofile: lookup(items, field_key(index, "undofile"@)),
                                    signature,
                                    xoffset: match optional_number(
                                        items,
                                        index,
                                        "xoffset"@,
                                        u64::MAX as nat,
                                    ) {
                                        Some(v) => Some(v as u64),
                                        None => None,
                                    },
                                    yoffset: match optional_number(
                                        items,
                                        index,
                                        "yoffset"@,
                                        u64::MAX as nat,
                                    ) {
                                        Some(v) => Some(v as u64),
                                        None => None,
                                    },
                                    occur: n as u32,
                                    setx: match optional_number(
                                        items,
                                        index,
                                        "setx"@,
                                        u16::MAX as nat,
                                    ) {
                                        Some(v) => Some(v as u16),
                                        None => None,
                                    },
                                    sety: match optional_number(
                                        items,
                                        index,
                                        "sety"@,
                                        u16::MAX as nat,
                                    ) {
                                        Some(v) => Some(v as u16),
                                        None => None,
                                    },
                                },
                            ),
                        },
                    },
                },
            },
        },
    }
}

/// The buffer with the 16-bit `value` written at `at` and `at + 1`, low byte first.
pub open spec fn put_u16(data: Seq<u8>, at: int, value: u16) -> Seq<u8> {
    data.update(at, (value % 256) as u8).update(at + 1, (value / 256) as u8)
}

/// The buffer after `value` has been written `offset` bytes behind position
/// `m`, for an offset that is set; the buffer itself for one that is not;
/// `None` where the two bytes would not both lie inside the buffer.
pub open spec fn write_field(data: Seq<u8>, m: int, offset: Option<u64>, value: u16) -> Option<
    Seq<u8>,
> {
    match offset {
        None => Some(data),
        Some(o) => if m + o + 2 <= data.len() {
            Some(put_u16(data, m + o, value))
        } else {
            None
        },
    }
}

/// The buffer after the match at `m` has been patched, the width first and
/// then the height, and whether both writes lay inside the buffer. A write
/// that does not is not made, and none is made after it.
pub open spec fn patch_match(
    patch: PatchInfoView,
    data: Seq<u8>,
    m: int,
    width: u16,
    height: u16,
) -> (Seq<u8>, bool) {
    match write_field(data, m, patch.xoffset, width) {
        None => (data, false),
        Some(with_x) => match write_field(with_x, m, patch.yoffset, height) {
            None => (with_x, false),
            Some(with_y) => (with_y, true),
        },
    }
}

/// How applying a patch ended.
pub enum Outcome {
    /// Every occurrence asked for was found and patched.
    Applied,
    /// An occurrence was not found; those before it stay patched.
    NotFound,
    /// Patching occurrence number `iteration` (counted from zero) would have
    /// written outside the buffer.
    OutOfBounds { iteration: nat },
}

/// Where applying a patch leaves things: the buffer, the outcome, and the
/// position behind the last match that was patched (where a further search
/// would go on).
pub struct Applied {
    pub data: Seq<u8>,
    pub outcome: Outcome,
    pub cursor: int,
}

/// What comes of it when `done` occurrences have been patched, the search
/// goes on at `cursor`, and the rest is carried out: find the leftmost match
/// from the cursor, patch it, move the cursor behind the match, until
/// `patch.occur` occurrences are done or one step fails.
pub open spec fn apply_from(
    patch: PatchInfoView,
    data: Seq<u8>,
    width: u16,
    height: u16,
    cursor: int,
    done: nat,
) -> Applied
    decreases patch.occur - done,
{
    if done >= patch.occur {
        Applied { data, outcome: Outcome::Applied, cursor }
    } else {
        match first_match(patch.signature, data, cursor) {
            None => Applied { data, outcome: Outcome::NotFound, cursor },
            Some(m) => {
                let (patched, inside) = patch_match(patch, data, m, width, height);
                if inside {
                    apply_from(
                        patch,
                        patched,
                        width,
                        height,
                        m + patch.signature.len(),
                        done + 1,
                    )
                } else {
                    Applied {
                        data: patched,
                        outcome: Outcome::OutOfBounds { iteration: done },
                        cursor,
                    }
                }
            },
        }
    }
}

/// What comes of applying `patch` to `data`.
pub open spec fn apply_model(patch: PatchInfoView, data: Seq<u8>, width: u16, height: u16) -> Applied {
    apply_from(patch, data, width, height, 0, 0)
}

/// Whether the patch writes only into the bytes of the match itself.
pub open spec fn writes_inside_match(patch: PatchInfoView) -> bool {
    &&& patch.xoffset matches Some(o) ==> o + 2 <= patch.signature.len()
    &&& patch.yoffset matches Some(o) ==> o + 2 <= patch.signature.len()
}

/// Where nothing matches between `start` and `later`, a search from `start`
/// finds what a search from `later` finds.
pub proof fn lemma_first_match_skips(
    pattern: Seq<Option<u8>>,
    haystack: Seq<u8>,
    start: int,
    later: int,
)
    requires
        0 <= start <= later,
        forall|j: int| start <= j < later ==> !matches_at(pattern, haystack, j),
    ensures
        first_match(pattern, haystack, start) == first_match(pattern, haystack, later),
    decreases later - start,
{
    if start < later {
        lemma_first_match_skips(pattern, haystack, start + 1, later);
    }
}

/// A search from `start` looks only at the bytes from `start` on.
pub proof fn lemma_first_match_looks_ahead(
    pattern: Seq<Option<u8>>,
    a: Seq<u8>,
    b: Seq<u8>,
    start: int,
)
    requires
        0 <= start,
        a.len() == b.len(),
        forall|j: int| start <= j < a.len() ==> a[j] == b[j],
    ensures
        first_match(pattern, a, start) == first_match(pattern, b, start),
    decreases a.len() - start,
{
    if start < a.len() {
        lemma_first_match_looks_ahead(pattern, a, b, start + 1);
    }
}

/// Patching a match with writes inside it changes no byte outside the match
/// and keeps the length.
pub proof fn lemma_patch_match_local(
    patch: PatchInfoView,
    data: Seq<u8>,
    m: int,
    width: u16,
    height: u16,
)
    requires
        writes_inside_match(patch),
        0 <= m,
        m + patch.signature.len() <= data.len(),
    ensures
        patch_match(patch, data, m, width, height).1,
        patch_match(patch, data, m, width, height).0.len() == data.len(),
        forall|j: int|
            0 <= j < data.len() && !(m <= j < m + patch.signature.len()) ==> patch_match(
                patch,
                data,
                m,
                width,
                height,
            ).0[j] == data[j],
{
}

/// Applying a patch keeps the length of the buffer, changes no byte before
/// the cursor it starts from and, where the writes stay inside the matches,
/// none from the cursor it ends at on; and it never ends in a write outside
/// the buffer then.
pub proof fn lemma_apply_from_local(
    patch: PatchInfoView,
    data: Seq<u8>,
    width: u16,
    height: u16,
    cursor: int,
    done: nat,
)
    requires
        0 <= cursor <= data.len(),
    ensures
        ({
            let end = apply_from(patch, data, width, height, cursor, done);
            &&& end.data.len() == data.len()
            &&& cursor <= end.cursor <= data.len()
            &&& forall|j: int| 0 <= j < cursor ==> end.data[j] == data[j]
            &&& writes_inside_match(patch) ==> {
                &&& !(end.outcome is OutOfBounds)
                &&& forall|j: int| end.cursor <= j < data.len() ==> end.data[j] == data[j]
            }
        }),
    decreases patch.occur - done,
{
    if done < patch.occur {
        lemma_first_match(patch.signature, data, cursor);
        match first_match(patch.signature, data, cursor) {
            None => {},
            Some(m) => {
                let (patched, inside) = patch_match(patch, data, m, width, height);
                if inside {
                    lemma_apply_from_local(
                        patch,
                        patched,
                        width,
                        height,
                        m + patch.signature.len(),
                        done + 1,
                    );
                }
                if writes_inside_match(patch) {
                    lemma_patch_match_local(patch, data, m, width, height);
                }
            },
        }
    }
}

/// Scanning again after a patch. Take a patch whose writes stay inside the
/// matches, apply it, and scan the patched buffer for the same pattern from
/// offset 0. Behind the last patched match the buffer is as it was, so from
/// there on the scan finds what was left unpatched and nothing else. A match
/// that the new scan reports therefore either is an occurrence that the patch
/// did not use up, or starts before the end of the last patched match. Where
/// no offset before that end matches any more, the new scan finds the
/// pattern exactly when the patch left an occurrence unused; and when it
/// left none, applying the patch once more finds nothing and changes
/// nothing.
pub proof fn law_rescan_after_apply(patch: PatchInfoView, data: Seq<u8>, width: u16, height: u16)
    requires
        writes_inside_match(patch),
    ensures
        ({
            let end = apply_model(patch, data, width, height);
            let again = first_match(patch.signature, end.data, 0);
            let left = first_match(patch.signature, data, end.cursor);
            &&& first_match(patch.signature, end.data, end.cursor) == left
            &&& again matches Some(at) ==> at < end.cursor || left == Some(at)
            &&& (forall|j: int| 0 <= j < end.cursor ==> !matches_at(patch.signature, end.data, j))
                ==> {
                &&& again == left
                &&& left is None && patch.occur > 0 ==> apply_model(
                    patch,
                    end.data,
                    width,
                    height,
                ) == (Applied { data: end.data, outcome: Outcome::NotFound, cursor: 0 })
            }
        }),
{
    let end = apply_model(patch, data, width, height);
    lemma_apply_from_local(patch, data, width, height, 0, 0);
    lemma_first_match_looks_ahead(patch.signature, end.data, data, end.cursor);
    lemma_first_match(patch.signature, end.data, 0);
    match first_match(patch.signature, end.data, 0) {
        Some(at) => {
            if at >= end.cursor {
                lemma_first_match_skips(patch.signature, end.data, 0, at);
                lemma_first_match_skips(patch.signature, end.data, end.cursor, at);
            }
        },
        None => {},
    }
    if forall|j: int| 0 <= j < end.cursor ==> !matches_at(patch.signature, end.data, j) {
        lemma_first_match_skips(patch.signature, end.data, 0, end.cursor);
    }
}

/// Writes `value` at `offset` bytes behind `m`, low byte first, if the offset
/// is set; says whether the write lay inside the buffer.
fn write_at(data: &mut [u8], m: usize, offset: Option<u64>, value: u16) -> (inside: bool)
    requires
        m <= old(data)@.len(),
    ensures
        match write_field(old(data)@, m as int, offset, value) {
            Some(written) => inside && final(data)@ == written,
            None => !inside && final(data)@ == old(data)@,
        },
{
    match offset {
        None => true,
        Some(o) => {
            let room = data.len() - m;
            if room < 2 || o > (room - 2) as u64 {
                false
            } else {
                let at = m + o as usize;
                data[at] = (value % 256) as u8;
                data[at + 1] = (value / 256) as u8;
                true
            }
        },
    }
}

/// The name of the file that keeps the unpatched copy: the one that the
/// patch names, or else the path of the patched file followed by `.undo` and
/// the position of the patch in its chain.
pub open spec fn undo_name(patch: PatchInfoView, modfile_path: Seq<char>, position: nat) -> Seq<
    char,
> {
    match patch.undofile {
        Some(name) => name,
        None => modfile_path + ".undo"@ + decimal_text(position),
    }
}

/// The key of `field` for the patch with the given index.
pub fn field_name(index: Option<u8>, field: &str) -> (key: String)
    ensures
        key@ == field_key(index, field@),
{
    match index {
        Some(i) => {
            let mut key = String::from_str("p");
            proof {
                reveal_strlit("p");
            }
            push_decimal(&mut key, i as u64);
            key.append(field);
            key
        },
        None => String::from_str(field),
    }
}

/// The text stored under a field.
fn field_text<'a>(items: &'a Items, index: Option<u8>, field: &str) -> (text: Option<&'a String>)
    ensures
        match lookup(items@, field_key(index, field@)) {
            Some(v) => text matches Some(found) && found@ == v,
            None => text is None,
        },
{
    let key = field_name(index, field);
    items.get(key.as_str())
}

/// The number stored under an optional field.
fn field_number(items: &Items, index: Option<u8>, field: &str, max: u64) -> (n: Option<u64>)
    ensures
        match optional_number(items@, index, field@, max as nat) {
            Some(v) => n == Some(v as u64),
            None => n is None,
        },
        n matches Some(v) ==> v <= max,
{
    match field_text(items, index, field) {
        Some(text) => {
            let chars = chars_of(text.as_str());
            match read_number(chars.as_slice(), max) {
                Ok(n) => Some(n),
                Err(_) => None,
            }
        },
        None => None,
    }
}

fn narrow(n: Option<u64>) -> (r: Option<u16>)
    requires
        n matches Some(v) ==> v <= u16::MAX,
    ensures
        match n {
            Some(v) => r == Some(v as u16),
            None => r is None,
        },
{
    match n {
        Some(v) => Some(v as u16),
        None => None,
    }
}

impl PatchInfo {
    /// Reads the patch with the given index from the items of a section.
    /// `section` only names the section in the error.
    pub fn from_items(section: &str, items: &Items, index: Option<u8>) -> (r: Result<Self, Error>)
        ensures
            match patch_of_items(section@, items@, index) {
                Ok(patch) => r matches Ok(info) && info@ == patch,
                Err(e) => r matches Err(x) && x@ == e,
            },
    {
        let sig = match field_text(items, index, "sig") {
            Some(text) => text,
            None => { return Err(Error::config_missing_field(section, "sig")); },
        };
        let sigwild = match field_text(items, index, "sigwild") {
            Some(text) => text,
            None => { return Err(Error::config_missing_field(section, "sigwild")); },
        };
        let signature = match Signature::from_string(section, sig.as_str(), sigwild.as_str()) {
            Ok(signature) => signature,
            Err(e) => { return Err(e); },
        };
        let modfile = match field_text(items, index, "modfile") {
            Some(text) => text.clone(),
            None => { return Err(Error::config_missing_field(section, "modfile")); },
        };
        let undofile = match field_text(items, index, "undofile") {
            Some(text) => Some(text.clone()),
            None => None,
        };
        let xoffset = field_number(items, index, "xoffset", u64::MAX);
        let yoffset = field_number(items, index, "yoffset", u64::MAX);
        let occur = match field_text(items, index, "occur") {
            Some(text) => {
                let chars = chars_of(text.as_str());
                match read_number(chars.as_slice(), 0xffff_ffff) {
                    Ok(n) => n as u32,
                    Err(e) => {
                        return Err(Error::config_field_parse(section, "occur", e.message()));
                    },
                }
            },
            None => { return Err(Error::config_missing_field(section, "occur")); },
        };
        let setx = narrow(field_number(items, index, "setx", 0xffff));
        let sety = narrow(field_number(items, index, "sety", 0xffff));
        Ok(PatchInfo { modfile, undofile, signature, xoffset, yoffset, occur, setx, sety })
    }

    /// The name of the file that keeps the unpatched copy, for the patch at
    /// `position` in its chain that is applied to the file at `modfile_path`.
    pub fn undo_file_name(&self, modfile_path: &str, position: usize) -> (name: String)
        ensures
            name@ == undo_name(self@, modfile_path@, position as nat),
    {
        match &self.undofile {
            Some(name) => name.clone(),
            None => {
                let mut name = String::from_str(modfile_path);
                name.append(".undo");
                push_decimal(&mut name, position as u64);
                name
            },
        }
    }

    /// Patches the first `occur` occurrences of the pattern in `data`, each
    /// searched for behind the one before: writes `x_res` at `xoffset` and
    /// `y_res` at `yoffset` behind the start of the match, low byte first.
    /// `Ok(true)` when all were patched, `Ok(false)` when one was not found,
    /// an error when a write would have left the buffer. What was written
    /// before a step failed stays written.
    pub fn apply_patch(&self, data: &mut [u8], x_res: u16, y_res: u16) -> (r: Result<bool, Error>)
        ensures
            final(data)@ == apply_model(self@, old(data)@, x_res, y_res).data,
            final(data)@.len() == old(data)@.len(),
            match apply_model(self@, old(data)@, x_res, y_res).outcome {
                Outcome::Applied => r matches Ok(true),
                Outcome::NotFound => r matches Ok(false),
                Outcome::OutOfBounds { iteration } => r matches Err(e) && e@
                    == (ErrorView::PatchError { iteration: iteration as usize }),
            },
    {
        let ghost start = data@;
        let size = data.len();
        let mut cursor: usize = 0;
        let mut done: u32 = 0;
        while done < self.occur
            invariant
                done <= self.occur,
                cursor <= size == data@.len(),
                data@.len() == start.len(),
                start == old(data)@,
                apply_model(self@, start, x_res, y_res) == apply_from(
                    self@,
                    data@,
                    x_res,
                    y_res,
                    cursor as int,
                    done as nat,
                ),
            decreases self.occur - done,
        {
            let m = match self.signature.find_first(data, cursor) {
                Some(m) => m,
                None => { return Ok(false); },
            };
            if !write_at(data, m, self.xoffset, x_res) {
                return Err(Error::PatchError { iteration: done as usize });
            }
            if !write_at(data, m, self.yoffset, y_res) {
                return Err(Error::PatchError { iteration: done as usize });
            }
            cursor = m + self.signature.pattern.len();
            done += 1;
        }
        Ok(true)
    }
}

} // verus!
