//! The repository tool's decisions: what a diff changed, whether versions
//! moved as they must, and the texts a release prints. Reading git and the
//! disk is the caller's; everything decided from what was read is here.

use vstd::prelude::*;

use crate::text::{
    chars_of, decimal, join, join_strings, lossy_text, utf8_lossy, lines, lines_of, owned, push_decimal, push_str, split, split_chars, str_eq,
    string_of, texts, trim_start, views,
};
use crate::category::{name_of, nth, Category};
use crate::library::{Library, Patch, Scan, Slot};
use crate::validate::{Finding, Severity};
use crate::fingerprint::{sha256, sound_bytes, Fingerprint};
use crate::index::HistoryEntry;
use crate::meta::{meta_of, meta_problem, PatchMeta};
use crate::document::{get, lookup, read_toml, toml_read, TomlValue};
use crate::error::{error_text, Error};
use crate::program::{read_syx, syx_entries};
use crate::version::{
    classify, classify_of, is_under, larger, next_of, parse_version, rank, step_message, step_of, version_text, Bump, Change,
    LibraryVersion,
};

verus! {

/// Where the published crate lives, relative to the repository root. Its
/// `Cargo.toml` carries the version of everything.
pub const CRATE_DIR: &'static str = "crates/deepmind-patches";

// ---- git output

/// What one line of `git diff --name-status -M` says: nothing without a
/// status and a path; a rename as the old path deleted and, when given, the
/// new path added; otherwise the change its first letter names, anything
/// unknown counting as a modification.
pub open spec fn line_changes(line: Seq<char>) -> Seq<(Change, Seq<char>)> {
    let fields = split(line, '\t');
    if fields.len() < 2 {
        seq![]
    } else {
        let status = fields[0];
        let change = if status.len() > 0 && status[0] == 'A' {
            Change::Added
        } else if status.len() > 0 && status[0] == 'D' {
            Change::Deleted
        } else if status.len() > 0 && status[0] == 'R' {
            Change::Renamed
        } else {
            Change::Modified
        };
        if change == Change::Renamed {
            seq![(Change::Deleted, fields[1])] + if fields.len() >= 3 {
                seq![(Change::Added, fields[2])]
            } else {
                seq![]
            }
        } else {
            seq![(change, fields[1])]
        }
    }
}

/// What the lines of a diff say, in order.
pub open spec fn diff_changes(ls: Seq<Seq<char>>) -> Seq<(Change, Seq<char>)>
    decreases ls.len(),
{
    if ls.len() == 0 {
        seq![]
    } else {
        diff_changes(ls.drop_last()) + line_changes(ls.last())
    }
}

/// Changes as plain values.
pub open spec fn change_list(v: Seq<(Change, String)>) -> Seq<(Change, Seq<char>)> {
    v.map_values(|c: (Change, String)| (c.0, c.1@))
}

fn push_change(out: &mut Vec<(Change, String)>, change: Change, path: &Vec<char>)
    ensures
        change_list(final(out)@) == change_list(old(out)@).push((change, path@)),
{
    let ghost before = out@;
    out.push((change, string_of(path.as_slice())));
    assert(change_list(out@) =~= change_list(before).push((change, path@)));
}

fn line_change_list(line: &Vec<char>, out: &mut Vec<(Change, String)>)
    ensures
        change_list(final(out)@) == change_list(old(out)@) + line_changes(line@),
{
    let ghost start = change_list(out@);
    let fields = split_chars(line.as_slice(), '\t');
    assert(views(fields@) == split(line@, '\t'));
    if fields.len() < 2 {
        assert(change_list(out@) =~= start + line_changes(line@));
        return;
    }
    assert(views(fields@)[0] == fields@[0]@);
    assert(views(fields@)[1] == fields@[1]@);
    let status = &fields[0];
    let change = if status.len() > 0 && status[0] == 'A' {
        Change::Added
    } else if status.len() > 0 && status[0] == 'D' {
        Change::Deleted
    } else if status.len() > 0 && status[0] == 'R' {
        Change::Renamed
    } else {
        Change::Modified
    };
    if change == Change::Renamed {
        push_change(out, Change::Deleted, &fields[1]);
        if fields.len() >= 3 {
            assert(views(fields@)[2] == fields@[2]@);
            push_change(out, Change::Added, &fields[2]);
        }
    } else {
        push_change(out, change, &fields[1]);
    }
    assert(change_list(out@) =~= start + line_changes(line@));
}

/// The paths a `git diff --name-status -M` output changed, with how.
pub fn changes(name_status: &str) -> (r: Vec<(Change, String)>)
    ensures
        change_list(r@) == diff_changes(lines(name_status@)),
{
    let ls = lines_of(name_status);
    let mut out: Vec<(Change, String)> = Vec::new();
    let mut i: usize = 0;
    while i < ls.len()
        invariant
            i <= ls@.len(),
            views(ls@) == lines(name_status@),
            change_list(out@) == diff_changes(views(ls@).take(i as int)),
        decreases ls@.len() - i,
    {
        assert(views(ls@).take(i + 1).drop_last() =~= views(ls@).take(i as int));
        assert(views(ls@)[i as int] == ls@[i as int]@);
        line_change_list(&ls[i], &mut out);
        i = i + 1;
    }
    assert(views(ls@).take(ls@.len() as int) =~= views(ls@));
    out
}

/// The commits a `git log --format=%H` output lists, newest first: its
/// lines.
pub fn log(text: &str) -> (r: Vec<String>)
    ensures
        texts(r@) == lines(text@),
{
    let ls = lines_of(text);
    let mut out: Vec<String> = Vec::new();
    let mut i: usize = 0;
    while i < ls.len()
        invariant
            i <= ls@.len(),
            views(ls@) == lines(text@),
            texts(out@) == views(ls@).take(i as int),
        decreases ls@.len() - i,
    {
        let ghost before = out@;
        out.push(string_of(ls[i].as_slice()));
        assert(texts(out@) =~= texts(before).push(ls@[i as int]@));
        assert(views(ls@).take(i + 1) =~= views(ls@).take(i as int).push(ls@[i as int]@));
        i = i + 1;
    }
    assert(views(ls@).take(ls@.len() as int) =~= views(ls@));
    out
}

/// Whether a manifest line sets the version: once leading whitespace is
/// dropped, it starts with `version`.
pub open spec fn version_line(line: Seq<char>) -> bool {
    let t = trim_start(line);
    t.len() >= 7 && t.take(7) == "version"@
}

/// The lines of a text that do not set the version, in order.
pub open spec fn other_lines(ls: Seq<Seq<char>>) -> Seq<Seq<char>>
    decreases ls.len(),
{
    if ls.len() == 0 {
        seq![]
    } else if version_line(ls.last()) {
        other_lines(ls.drop_last())
    } else {
        other_lines(ls.drop_last()).push(ls.last())
    }
}

fn sets_version(line: &Vec<char>) -> (r: bool)
    ensures
        r == version_line(line@),
{
    let a = crate::text::trim_start_at(line.as_slice());
    let t = crate::text::slice_of(line.as_slice(), a, line.len());
    assert(t@ == trim_start(line@));
    if t.len() < 7 {
        return false;
    }
    let head = crate::text::slice_of(t.as_slice(), 0, 7);
    let h = string_of(head.as_slice());
    str_eq(h.as_str(), "version")
}

/// A manifest without its version lines, lines joined with `\n`: what is
/// left to compare when only the version may differ.
pub fn without_version_line(manifest: &str) -> (r: String)
    ensures
        r@ == crate::text::join(other_lines(lines(manifest@)), "\n"@),
{
    let ls = lines_of(manifest);
    let mut kept: Vec<String> = Vec::new();
    let mut i: usize = 0;
    while i < ls.len()
        invariant
            i <= ls@.len(),
            views(ls@) == lines(manifest@),
            texts(kept@) == other_lines(views(ls@).take(i as int)),
        decreases ls@.len() - i,
    {
        assert(views(ls@).take(i + 1).drop_last() =~= views(ls@).take(i as int));
        assert(views(ls@)[i as int] == ls@[i as int]@);
        if !sets_version(&ls[i]) {
            let ghost before = kept@;
            kept.push(string_of(ls[i].as_slice()));
            assert(texts(kept@) =~= texts(before).push(ls@[i as int]@));
        }
        i = i + 1;
    }
    assert(views(ls@).take(ls@.len() as int) =~= views(ls@));
    crate::text::join_strings(kept.as_slice(), "\n")
}

// ---- versions

/// How a bump is written in the tool's output.
pub open spec fn bump_text(b: Bump) -> Seq<char> {
    match b {
        Bump::Nothing => "none"@,
        Bump::Patch => "patch"@,
        Bump::Release => "release"@,
        Bump::Year => "year"@,
    }
}

/// How a bump is written in the tool's output.
pub fn bump_label(b: Bump) -> (r: &'static str)
    ensures
        r@ == bump_text(b),
{
    match b {
        Bump::Nothing => "none",
        Bump::Patch => "patch",
        Bump::Release => "release",
        Bump::Year => "year",
    }
}

/// What one changed patch's versions raise: a new patch not at 1 (a
/// warning), bytes that changed without a higher version (an error), a
/// version that moved while the bytes did not (a warning). `before` is the
/// version on the base side and whether the sound differs from it; the
/// first of the result says whether the line is an error.
pub open spec fn patch_verdict_of(toml_path: Seq<char>, head: u32, before: Option<(u32, bool)>) -> Option<(bool, Seq<char>)> {
    match before {
        None => if head != 1 {
            Some((false, "::warning file="@ + toml_path + "::new patch starts at version "@ + decimal(head as nat) + ", expected 1"@))
        } else {
            None
        },
        Some((was, changed)) => if changed && head <= was {
            Some((
                true,
                "::error file="@ + toml_path + "::the .syx changed but version is still "@ + decimal(head as nat)
                    + ". Set version = "@ + decimal((was + 1) as nat) + "."@,
            ))
        } else if !changed && head != was {
            Some((
                false,
                "::warning file="@ + toml_path + "::version changed from "@ + decimal(was as nat) + " to "@ + decimal(
                    head as nat,
                ) + " but the sound did not. Only bump when the .syx bytes change."@,
            ))
        } else {
            None
        },
    }
}

/// What one changed patch's versions raise, and whether it is an error.
pub fn patch_verdict(toml_path: &str, head: u32, before: Option<(u32, bool)>) -> (r: Option<(bool, String)>)
    ensures
        match patch_verdict_of(toml_path@, head, before) {
            None => r is None,
            Some((e, m)) => r matches Some((x, y)) && x == e && y@ == m,
        },
{
    match before {
        None => {
            if head != 1 {
                let mut m = owned("::warning file=");
                push_str(&mut m, toml_path);
                push_str(&mut m, "::new patch starts at version ");
                push_decimal(&mut m, head as u64);
                push_str(&mut m, ", expected 1");
                Some((false, m))
            } else {
                None
            }
        },
        Some((was, changed)) => {
            if changed && head <= was {
                let mut m = owned("::error file=");
                push_str(&mut m, toml_path);
                push_str(&mut m, "::the .syx changed but version is still ");
                push_decimal(&mut m, head as u64);
                push_str(&mut m, ". Set version = ");
                push_decimal(&mut m, was as u64 + 1);
                push_str(&mut m, ".");
                Some((true, m))
            } else if !changed && head != was {
                let mut m = owned("::warning file=");
                push_str(&mut m, toml_path);
                push_str(&mut m, "::version changed from ");
                push_decimal(&mut m, was as u64);
                push_str(&mut m, " to ");
                push_decimal(&mut m, head as u64);
                push_str(&mut m, " but the sound did not. Only bump when the .syx bytes change.");
                Some((false, m))
            } else {
                None
            }
        },
    }
}

/// A path with its extension set: the file stem, and `.ext` unless `ext`
/// is empty.
pub open spec fn with_extension(path: Seq<char>, ext: Seq<char>) -> Seq<char> {
    let i = crate::library::last_index(path, '/');
    path.take(i + 1) + crate::library::file_stem_of(crate::library::file_name_of(path)) + if ext.len() > 0 {
        "."@ + ext
    } else {
        seq![]
    }
}

fn set_extension(path: &str, ext: &str) -> (r: String)
    ensures
        r@ == with_extension(path@, ext@),
{
    let (_, _, stem, _) = crate::library::path_parts(path);
    let chars = chars_of(path);
    proof {
        crate::library::lemma_last_index(chars@, '/');
    }
    let n = chars.len();
    let cut = match crate::library::find_last(chars.as_slice(), '/') {
        Some(i) => {
            assert(i < n);
            i + 1
        },
        None => 0,
    };
    let head = crate::text::slice_of(chars.as_slice(), 0, cut);
    let mut r = string_of(head.as_slice());
    push_str(&mut r, stem.as_str());
    if ext.unicode_len() > 0 {
        push_str(&mut r, ".");
        push_str(&mut r, ext);
    }
    r
}

/// The stems under `presets/` a diff touches, each once, in the order first
/// touched; deletions do not count.
pub open spec fn touched_stems(cs: Seq<(Change, Seq<char>)>) -> Seq<Seq<char>>
    decreases cs.len(),
{
    if cs.len() == 0 {
        seq![]
    } else {
        let earlier = touched_stems(cs.drop_last());
        let (change, path) = cs.last();
        let stem = with_extension(path, seq![]);
        if !is_under(path, "presets"@) || change == Change::Deleted || earlier.contains(stem) {
            earlier
        } else {
            earlier.push(stem)
        }
    }
}

/// The stems under `presets/` a diff touches, each once.
pub fn touched(changes: &[(Change, String)]) -> (r: Vec<String>)
    ensures
        texts(r@) == touched_stems(change_list(changes@)),
{
    let mut out: Vec<String> = Vec::new();
    let mut i: usize = 0;
    while i < changes.len()
        invariant
            i <= changes@.len(),
            texts(out@) == touched_stems(change_list(changes@).take(i as int)),
        decreases changes@.len() - i,
    {
        assert(change_list(changes@).take(i + 1).drop_last() =~= change_list(changes@).take(i as int));
        let (change, path) = &changes[i];
        if crate::rules::is_under(path.as_str(), "presets") && *change != Change::Deleted {
            let stem = set_extension(path.as_str(), "");
            proof {
                reveal_strlit("");
            }
            let seen = crate::rules::holds(&out, stem.as_str());
            proof {
                let earlier = touched_stems(change_list(changes@).take(i as int));
                if seen {
                    let j = choose|j: int| 0 <= j < out@.len() && (#[trigger] out@[j])@ == stem@;
                    assert(texts(out@)[j] == stem@);
                } else if earlier.contains(stem@) {
                    let j = choose|j: int| 0 <= j < earlier.len() && earlier[j] == stem@;
                    assert(out@[j]@ == stem@);
                    assert(crate::rules::text_set(out@).contains(stem@));
                }
            }
            if !seen {
                let ghost before = out@;
                out.push(stem);
                assert(texts(out@) =~= texts(before).push(out@.last()@));
            }
        }
        i = i + 1;
    }
    assert(change_list(changes@).take(changes@.len() as int) =~= change_list(changes@));
    out
}

/// The `.toml` and `.syx` of a stem.
pub fn stem_files(stem: &str) -> (r: (String, String))
    ensures
        r.0@ == with_extension(stem@, "toml"@),
        r.1@ == with_extension(stem@, "syx"@),
{
    (set_extension(stem, "toml"), set_extension(stem, "syx"))
}

/// What the release check decided: the lines to print, whether it fails,
/// the bump the version moved by, the bump the change needs, and whether
/// the crate's code changed.
pub struct Verdict {
    /// The lines to print, in order.
    pub lines: Vec<String>,
    /// Whether the check fails.
    pub failed: bool,
    /// The bump the version moved by.
    pub step: Bump,
    /// The bump the change needs.
    pub required: Bump,
    /// Whether the crate's code changed.
    pub code_changed: bool,
}

/// The crate manifest, relative to the root.
pub open spec fn manifest() -> Seq<char> {
    "crates/deepmind-patches/Cargo.toml"@
}

/// Whether a diff changed the crate: a path under it other than the
/// manifest, or the manifest beyond its version line.
pub open spec fn code_changed_of(cs: Seq<(Change, Seq<char>)>, beyond_version: bool) -> bool {
    exists|i: int| 0 <= i < cs.len() && is_under(#[trigger] cs[i].1, "crates/deepmind-patches"@) && (cs[i].1 != manifest() || beyond_version)
}

/// The bump a change needs: what its content needs, and at least a patch
/// when the code changed.
pub open spec fn required_of(cs: Seq<(Change, Seq<char>)>, beyond_version: bool) -> Bump {
    if code_changed_of(cs, beyond_version) {
        larger(classify_of(cs), Bump::Patch)
    } else {
        classify_of(cs)
    }
}

/// What the version check raises and the bump it found, given the version
/// on the base side, the version now and the calendar's two-digit year.
#[verifier::opaque]
pub open spec fn step_verdict(before: Option<LibraryVersion>, head: LibraryVersion, required: Bump, year: u32) -> (Seq<Seq<char>>, bool, Bump) {
    let file = manifest();
    match before {
        None => (seq![], false, Bump::Release),
        Some(b) => if b == head {
            if required != Bump::Nothing {
                let expected = if year > head.year {
                    version_text(next_of(head, Bump::Year, year)) + " to start the year"@
                } else {
                    version_text(next_of(head, Bump::Patch, head.year)) + " for a fix or "@ + version_text(
                        next_of(head, Bump::Release, head.year),
                    ) + " for an addition"@
                };
                (
                    seq![
                        "::error file="@ + file + "::this change needs a "@ + bump_text(required) + " bump but version is still "@
                            + version_text(head) + ". Set version = "@ + expected + ", then run cargo check so Cargo.lock follows."@,
                    ],
                    true,
                    Bump::Nothing,
                )
            } else {
                (seq![], false, Bump::Nothing)
            }
        } else {
            match step_of(b, head, year) {
                Some(step) => {
                    let year_moved = year > b.year && step != Bump::Year;
                    let too_small = rank(step) < rank(required);
                    (
                        (if year_moved {
                            seq![
                                "::error file="@ + file + "::the year moved on; the next version is "@ + version_text(
                                    next_of(b, Bump::Year, year),
                                ) + ", not "@ + version_text(head) + "."@,
                            ]
                        } else {
                            seq![]
                        }) + (if too_small {
                            seq![
                                "::error file="@ + file + "::this change needs a "@ + bump_text(required) + " bump but "@
                                    + version_text(b) + " to "@ + version_text(head) + " is a "@ + bump_text(step)
                                    + " bump. Set version = "@ + version_text(next_of(b, required, year)) + "."@,
                            ]
                        } else {
                            seq![]
                        }) + (if required == Bump::Nothing {
                            seq![
                                "::warning file="@ + file + "::version went from "@ + version_text(b) + " to "@
                                    + version_text(head) + " but nothing that ships changed. Merging still releases it."@,
                            ]
                        } else {
                            seq![]
                        }),
                        year_moved || too_small,
                        step,
                    )
                },
                None => (
                    seq!["::error file="@ + file + "::"@ + "version: "@ + step_message(b, head, year)],
                    true,
                    Bump::Nothing,
                ),
            }
        },
    }
}

/// Whether a diff touched the changelog.
pub open spec fn changelog_changed(cs: Seq<(Change, Seq<char>)>) -> bool {
    exists|i: int| 0 <= i < cs.len() && #[trigger] cs[i].1 == "CHANGELOG.md"@
}

/// The lines the whole check prints: the version verdict, the changelog
/// reminder, then the four outputs.
pub open spec fn verdict_lines(cs: Seq<(Change, Seq<char>)>, before: Option<LibraryVersion>, head: LibraryVersion, beyond_version: bool, year: u32) -> Seq<Seq<char>> {
    let code = code_changed_of(cs, beyond_version);
    let required = required_of(cs, beyond_version);
    let (ls, _, step) = step_verdict(before, head, required, year);
    ls + (if code && !changelog_changed(cs) {
        seq!["::warning file=CHANGELOG.md::crates/deepmind-patches changed without a line in CHANGELOG.md."@]
    } else {
        seq![]
    }) + seq![
        "version="@ + version_text(head),
        "bump="@ + bump_text(step),
        "needs="@ + bump_text(required),
        "code_changed="@ + (if code { "true"@ } else { "false"@ }),
    ]
}

fn code_changed(changes: &[(Change, String)], beyond_version: bool) -> (r: bool)
    ensures
        r == code_changed_of(change_list(changes@), beyond_version),
{
    let mut i: usize = 0;
    while i < changes.len()
        invariant
            i <= changes@.len(),
            forall|j: int| 0 <= j < i ==> !(is_under(#[trigger] change_list(changes@)[j].1, "crates/deepmind-patches"@)
                && (change_list(changes@)[j].1 != manifest() || beyond_version)),
        decreases changes@.len() - i,
    {
        let path = changes[i].1.as_str();
        assert(change_list(changes@)[i as int].1 == path@);
        if crate::rules::is_under(path, "crates/deepmind-patches") && (!str_eq(path, "crates/deepmind-patches/Cargo.toml")
            || beyond_version) {
            return true;
        }
        i = i + 1;
    }
    false
}

fn touches_changelog(changes: &[(Change, String)]) -> (r: bool)
    ensures
        r == changelog_changed(change_list(changes@)),
{
    let mut i: usize = 0;
    while i < changes.len()
        invariant
            i <= changes@.len(),
            forall|j: int| 0 <= j < i ==> #[trigger] change_list(changes@)[j].1 != "CHANGELOG.md"@,
        decreases changes@.len() - i,
    {
        assert(change_list(changes@)[i as int].1 == changes@[i as int].1@);
        if str_eq(changes[i].1.as_str(), "CHANGELOG.md") {
            return true;
        }
        i = i + 1;
    }
    false
}

fn version_line_text(prefix: &str, v: LibraryVersion) -> (r: String)
    ensures
        r@ == prefix@ + version_text(v),
{
    let mut m = owned(prefix);
    let t = v.to_string();
    push_str(&mut m, t.as_str());
    m
}

fn step_lines(before: Option<LibraryVersion>, head: LibraryVersion, required: Bump, year: u32) -> (r: (Vec<String>, bool, Bump))
    requires
        head.patch < u32::MAX,
        head.release < u32::MAX,
        before matches Some(b) ==> b.patch < u32::MAX && b.release < u32::MAX,
    ensures
        texts(r.0@) == step_verdict(before, head, required, year).0,
        r.1 == step_verdict(before, head, required, year).1,
        r.2 == step_verdict(before, head, required, year).2,
{
    proof {
        reveal(step_verdict);
    }
    let mut out: Vec<String> = Vec::new();
    let file = "crates/deepmind-patches/Cargo.toml";
    match before {
        None => {
            assert(texts(out@) =~= Seq::<Seq<char>>::empty());
            (out, false, Bump::Release)
        },
        Some(b) => {
            if b == head {
                if required != Bump::Nothing {
                    let mut m = owned("::error file=");
                    push_str(&mut m, file);
                    push_str(&mut m, "::this change needs a ");
                    push_str(&mut m, bump_label(required));
                    push_str(&mut m, " bump but version is still ");
                    let h = head.to_string();
                    push_str(&mut m, h.as_str());
                    push_str(&mut m, ". Set version = ");
                    if year > head.year {
                        let y = head.next(Bump::Year, year).to_string();
                        push_str(&mut m, y.as_str());
                        push_str(&mut m, " to start the year");
                    } else {
                        let a = head.next(Bump::Patch, head.year).to_string();
                        push_str(&mut m, a.as_str());
                        push_str(&mut m, " for a fix or ");
                        let c = head.next(Bump::Release, head.year).to_string();
                        push_str(&mut m, c.as_str());
                        push_str(&mut m, " for an addition");
                    }
                    push_str(&mut m, ", then run cargo check so Cargo.lock follows.");
                    proof {
                        let expected = if year > head.year {
                            version_text(next_of(head, Bump::Year, year)) + " to start the year"@
                        } else {
                            version_text(next_of(head, Bump::Patch, head.year)) + " for a fix or "@ + version_text(
                                next_of(head, Bump::Release, head.year),
                            ) + " for an addition"@
                        };
                        assert(m@ =~= "::error file="@ + manifest() + "::this change needs a "@ + bump_text(required)
                            + " bump but version is still "@ + version_text(head) + ". Set version = "@ + expected
                            + ", then run cargo check so Cargo.lock follows."@);
                    }
                    out.push(m);
                    assert(texts(out@) =~= step_verdict(before, head, required, year).0);
                    (out, true, Bump::Nothing)
                } else {
                    assert(texts(out@) =~= Seq::<Seq<char>>::empty());
                    (out, false, Bump::Nothing)
                }
            } else {
                match b.step_to(head, year) {
                    Ok(step) => {
                        let year_moved = year > b.year && step != Bump::Year;
                        let too_small = step.is_below(required);
                        if year_moved {
                            let mut m = owned("::error file=");
                            push_str(&mut m, file);
                            push_str(&mut m, "::the year moved on; the next version is ");
                            let y = b.next(Bump::Year, year).to_string();
                            push_str(&mut m, y.as_str());
                            push_str(&mut m, ", not ");
                            let h = head.to_string();
                            push_str(&mut m, h.as_str());
                            push_str(&mut m, ".");
                            assert(m@ =~= "::error file="@ + manifest() + "::the year moved on; the next version is "@
                                + version_text(next_of(b, Bump::Year, year)) + ", not "@ + version_text(head) + "."@);
                            out.push(m);
                        }
                        let ghost a = texts(out@);
                        if too_small {
                            let mut m = owned("::error file=");
                            push_str(&mut m, file);
                            push_str(&mut m, "::this change needs a ");
                            push_str(&mut m, bump_label(required));
                            push_str(&mut m, " bump but ");
                            let bt = b.to_string();
                            push_str(&mut m, bt.as_str());
                            push_str(&mut m, " to ");
                            let h = head.to_string();
                            push_str(&mut m, h.as_str());
                            push_str(&mut m, " is a ");
                            push_str(&mut m, bump_label(step));
                            push_str(&mut m, " bump. Set version = ");
                            let n = b.next(required, year).to_string();
                            push_str(&mut m, n.as_str());
                            push_str(&mut m, ".");
                            assert(m@ =~= "::error file="@ + manifest() + "::this change needs a "@ + bump_text(required)
                                + " bump but "@ + version_text(b) + " to "@ + version_text(head) + " is a "@ + bump_text(step)
                                + " bump. Set version = "@ + version_text(next_of(b, required, year)) + "."@);
                            out.push(m);
                        }
                        let ghost c = texts(out@);
                        if required == Bump::Nothing {
                            let mut m = owned("::warning file=");
                            push_str(&mut m, file);
                            push_str(&mut m, "::version went from ");
                            let bt = b.to_string();
                            push_str(&mut m, bt.as_str());
                            push_str(&mut m, " to ");
                            let h = head.to_string();
                            push_str(&mut m, h.as_str());
                            push_str(&mut m, " but nothing that ships changed. Merging still releases it.");
                            assert(m@ =~= "::warning file="@ + manifest() + "::version went from "@ + version_text(b) + " to "@
                                + version_text(head) + " but nothing that ships changed. Merging still releases it."@);
                            out.push(m);
                        }
                        assert(texts(out@) =~= step_verdict(before, head, required, year).0);
                        (out, year_moved || too_small, step)
                    },
                    Err(e) => {
                        let mut m = owned("::error file=");
                        push_str(&mut m, file);
                        push_str(&mut m, "::");
                        let t = e.to_string();
                        push_str(&mut m, t.as_str());
                        assert(m@ =~= "::error file="@ + manifest() + "::"@ + "version: "@ + step_message(b, head, year));
                        out.push(m);
                        assert(texts(out@) =~= step_verdict(before, head, required, year).0);
                        (out, true, Bump::Nothing)
                    },
                }
            }
        },
    }
}

/// Decides the release check: the bump the change needs, the bump the
/// version moved by, what to print, and whether it fails. `beyond_version`
/// says whether the manifest changed anywhere but its version line; `year`
/// is the calendar's two-digit year.
pub fn release_verdict(
    changes: &[(Change, String)],
    before: Option<LibraryVersion>,
    head: LibraryVersion,
    beyond_version: bool,
    year: u32,
) -> (r: Verdict)
    requires
        head.patch < u32::MAX,
        head.release < u32::MAX,
        before matches Some(b) ==> b.patch < u32::MAX && b.release < u32::MAX,
    ensures
        r.code_changed == code_changed_of(change_list(changes@), beyond_version),
        r.required == required_of(change_list(changes@), beyond_version),
        r.step == step_verdict(before, head, r.required, year).2,
        r.failed == step_verdict(before, head, r.required, year).1,
        texts(r.lines@) == verdict_lines(change_list(changes@), before, head, beyond_version, year),
{
    let code = code_changed(changes, beyond_version);
    let content = classify(changes);
    assert(crate::version::change_views(changes@) == change_list(changes@)) by {
        assert(crate::version::change_views(changes@) =~= change_list(changes@));
    }
    let required = if code {
        content.max(Bump::Patch)
    } else {
        content
    };
    let (mut lines, failed, step) = step_lines(before, head, required, year);
    let ghost a = texts(lines@);
    if code && !touches_changelog(changes) {
        lines.push(owned("::warning file=CHANGELOG.md::crates/deepmind-patches changed without a line in CHANGELOG.md."));
    }
    let ghost b = texts(lines@);
    lines.push(version_line_text("version=", head));
    let mut m = owned("bump=");
    push_str(&mut m, bump_label(step));
    lines.push(m);
    let mut m = owned("needs=");
    push_str(&mut m, bump_label(required));
    lines.push(m);
    let mut m = owned("code_changed=");
    push_str(&mut m, if code { "true" } else { "false" });
    lines.push(m);
    assert(texts(lines@) =~= verdict_lines(change_list(changes@), before, head, beyond_version, year));
    Verdict { lines, failed, step, required, code_changed: code }
}

// ---- release notes and summaries

/// One patch in the release notes.
pub struct NotedPatch {
    /// The stored name.
    pub name: String,
    /// Who made it.
    pub author: String,
    /// Its category.
    pub category: Category,
    /// Its version on the previous release's side, if it existed there.
    pub before: Option<u32>,
    /// Its version now.
    pub version: u32,
}

/// The line an added patch gets.
pub open spec fn added_line(p: NotedPatch) -> Seq<char> {
    "- **"@ + p.name@ + "** by "@ + p.author@ + " ("@ + name_of(p.category) + ")\n"@
}

/// What changed about an updated patch: its version, or only metadata.
pub open spec fn update_text(p: NotedPatch) -> Seq<char> {
    match p.before {
        Some(b) => if b != p.version {
            "v"@ + decimal(b as nat) + " to v"@ + decimal(p.version as nat)
        } else {
            "metadata"@
        },
        None => "metadata"@,
    }
}

/// The line an updated patch gets.
pub open spec fn updated_line(p: NotedPatch) -> Seq<char> {
    "- **"@ + p.name@ + "** by "@ + p.author@ + " ("@ + name_of(p.category) + "): "@ + update_text(p) + "\n"@
}

/// The concatenation of some texts.
pub open spec fn concat(parts: Seq<Seq<char>>) -> Seq<char>
    decreases parts.len(),
{
    if parts.len() == 0 {
        seq![]
    } else {
        concat(parts.drop_last()) + parts.last()
    }
}

/// The release notes: the version, the count, the added and the updated
/// patches, and the assets.
pub open spec fn notes_of(version: LibraryVersion, total: nat, added: Seq<NotedPatch>, updated: Seq<NotedPatch>) -> Seq<char> {
    "## "@ + version_text(version) + "\n\n"@ + decimal(total) + " patches in the library.\n\n"@ + (if added.len() > 0 {
        "### Added\n\n"@ + concat(added.map_values(|p: NotedPatch| added_line(p))) + "\n"@
    } else {
        seq![]
    }) + (if updated.len() > 0 {
        "### Updated\n\n"@ + concat(updated.map_values(|p: NotedPatch| updated_line(p))) + "\n"@
    } else {
        seq![]
    }) + (if added.len() == 0 && updated.len() == 0 {
        "No patch changes.\n\n"@
    } else {
        seq![]
    }) + "Assets: `index.toml`, `patches.tar.gz` (presets/), `demos.tar.gz` (demos/).\n"@
}

fn added_text(p: &NotedPatch) -> (r: String)
    ensures
        r@ == added_line(*p),
{
    let mut out = owned("- **");
    push_str(&mut out, p.name.as_str());
    push_str(&mut out, "** by ");
    push_str(&mut out, p.author.as_str());
    push_str(&mut out, " (");
    push_str(&mut out, p.category.name());
    push_str(&mut out, ")\n");
    out
}

fn updated_text(p: &NotedPatch) -> (r: String)
    ensures
        r@ == updated_line(*p),
{
    let mut out = owned("- **");
    push_str(&mut out, p.name.as_str());
    push_str(&mut out, "** by ");
    push_str(&mut out, p.author.as_str());
    push_str(&mut out, " (");
    push_str(&mut out, p.category.name());
    push_str(&mut out, "): ");
    let ghost mid = out@;
    match p.before {
        Some(b) => {
            if b != p.version {
                push_str(&mut out, "v");
                push_decimal(&mut out, b as u64);
                push_str(&mut out, " to v");
                push_decimal(&mut out, p.version as u64);
            } else {
                push_str(&mut out, "metadata");
            }
        },
        None => {
            push_str(&mut out, "metadata");
        },
    }
    assert(out@ =~= mid + update_text(*p));
    push_str(&mut out, "\n");
    out
}

fn push_lines(out: &mut String, ps: &[NotedPatch], updated: bool)
    ensures
        final(out)@ == old(out)@ + concat(
            if updated {
                ps@.map_values(|p: NotedPatch| updated_line(p))
            } else {
                ps@.map_values(|p: NotedPatch| added_line(p))
            },
        ),
{
    let ghost start = out@;
    let ghost lines = if updated {
        ps@.map_values(|p: NotedPatch| updated_line(p))
    } else {
        ps@.map_values(|p: NotedPatch| added_line(p))
    };
    let mut i: usize = 0;
    while i < ps.len()
        invariant
            i <= ps@.len(),
            lines.len() == ps@.len(),
            forall|j: int| 0 <= j < ps@.len() ==> #[trigger] lines[j] == (if updated { updated_line(ps@[j]) } else { added_line(ps@[j]) }),
            out@ == start + concat(lines.take(i as int)),
        decreases ps@.len() - i,
    {
        let line = if updated {
            updated_text(&ps[i])
        } else {
            added_text(&ps[i])
        };
        assert(line@ == lines[i as int]);
        push_str(out, line.as_str());
        assert(lines.take(i + 1).drop_last() =~= lines.take(i as int));
        assert(out@ =~= start + concat(lines.take(i + 1)));
        i = i + 1;
    }
    assert(lines.take(ps@.len() as int) =~= lines);
}

/// The release notes for a version.
pub fn notes(version: LibraryVersion, total: usize, added: &[NotedPatch], updated: &[NotedPatch]) -> (r: String)
    ensures
        r@ == notes_of(version, total as nat, added@, updated@),
{
    let mut out = owned("## ");
    let v = version.to_string();
    push_str(&mut out, v.as_str());
    push_str(&mut out, "\n\n");
    push_decimal(&mut out, total as u64);
    push_str(&mut out, " patches in the library.\n\n");
    let ghost a = out@;
    if added.len() > 0 {
        push_str(&mut out, "### Added\n\n");
        push_lines(&mut out, added, false);
        push_str(&mut out, "\n");
    }
    let ghost b = out@;
    if updated.len() > 0 {
        push_str(&mut out, "### Updated\n\n");
        push_lines(&mut out, updated, true);
        push_str(&mut out, "\n");
    }
    let ghost c = out@;
    if added.len() == 0 && updated.len() == 0 {
        push_str(&mut out, "No patch changes.\n\n");
    }
    push_str(&mut out, "Assets: `index.toml`, `patches.tar.gz` (presets/), `demos.tar.gz` (demos/).\n");
    assert(out@ =~= notes_of(version, total as nat, added@, updated@));
    out
}

/// Whether a diff touched a patch: its `.syx` or its `.toml` changed.
pub open spec fn touched_patch(cs: Seq<(Change, Seq<char>)>, syx: Seq<char>, toml: Seq<char>) -> bool {
    exists|i: int| 0 <= i < cs.len() && (#[trigger] cs[i].1 == syx || cs[i].1 == toml)
}

/// Whether a diff touched a patch: its `.syx` or its `.toml` changed.
pub fn touches(changes: &[(Change, String)], syx: &str, toml: &str) -> (r: bool)
    ensures
        r == touched_patch(change_list(changes@), syx@, toml@),
{
    let mut i: usize = 0;
    while i < changes.len()
        invariant
            i <= changes@.len(),
            forall|j: int| 0 <= j < i ==> !(#[trigger] change_list(changes@)[j].1 == syx@ || change_list(changes@)[j].1 == toml@),
        decreases changes@.len() - i,
    {
        assert(change_list(changes@)[i as int].1 == changes@[i as int].1@);
        if str_eq(changes[i].1.as_str(), syx) || str_eq(changes[i].1.as_str(), toml) {
            return true;
        }
        i = i + 1;
    }
    false
}

/// How many entries of a sequence appear for the first time.
pub open spec fn distinct_count(s: Seq<Seq<char>>) -> nat
    decreases s.len(),
{
    if s.len() == 0 {
        0
    } else {
        distinct_count(s.drop_last()) + if s.drop_last().contains(s.last()) { 0nat } else { 1nat }
    }
}

/// How many patches are in a category.
pub open spec fn category_count(ps: Seq<Patch>, c: Category) -> nat
    decreases ps.len(),
{
    if ps.len() == 0 {
        0
    } else {
        category_count(ps.drop_last(), c) + if ps.last().category == c { 1nat } else { 0nat }
    }
}

/// How many demos the patches declare.
pub open spec fn demo_count(ps: Seq<Patch>) -> nat
    decreases ps.len(),
{
    if ps.len() == 0 {
        0
    } else {
        demo_count(ps.drop_last()) + ps.last().meta.demos@.len()
    }
}

/// `Bass 3, Pads 1`: each category with patches, in the instrument's
/// order, for the first `n` categories.
pub open spec fn category_counts(ps: Seq<Patch>, n: int) -> Seq<Seq<char>>
    decreases n,
{
    if n <= 0 {
        seq![]
    } else {
        let c = nth(n - 1);
        category_counts(ps, n - 1) + if category_count(ps, c) > 0 {
            seq![name_of(c) + " "@ + decimal(category_count(ps, c))]
        } else {
            seq![]
        }
    }
}

/// The one-paragraph summary of a library.
pub open spec fn summary_of(ps: Seq<Patch>) -> Seq<char> {
    decimal(ps.len()) + " patches by "@ + decimal(distinct_count(ps.map_values(|p: Patch| p.meta.author@)))
        + " authors, "@ + decimal(demo_count(ps)) + " demos. "@ + join(category_counts(ps, 12), ", "@) + "."@
}

fn count_in(ps: &[Patch], c: Category) -> (r: usize)
    ensures
        r == category_count(ps@, c),
{
    let mut n: usize = 0;
    let mut i: usize = 0;
    while i < ps.len()
        invariant
            i <= ps@.len(),
            n == category_count(ps@.take(i as int), c),
            n <= i,
        decreases ps@.len() - i,
    {
        assert(ps@.take(i + 1).drop_last() =~= ps@.take(i as int));
        if ps[i].category == c {
            n = n + 1;
        }
        i = i + 1;
    }
    assert(ps@.take(ps@.len() as int) =~= ps@);
    n
}

/// A one-paragraph summary of a library: patches, authors, demos, and the
/// patches per category.
pub fn summary(library: &Library) -> (r: String)
    ensures
        r@ == summary_of(library.patch_list()),
{
    let ps = library.patches();
    let mut authors: Vec<String> = Vec::new();
    let mut distinct: usize = 0;
    let mut demos: u128 = 0;
    let mut i: usize = 0;
    let ghost names = ps@.map_values(|p: Patch| p.meta.author@);
    while i < ps.len()
        invariant
            i <= ps@.len(),
            names == ps@.map_values(|p: Patch| p.meta.author@),
            texts(authors@) == names.take(i as int),
            distinct == distinct_count(names.take(i as int)),
            distinct <= i,
            demos == demo_count(ps@.take(i as int)),
            demos <= i * 0x1_0000_0000_0000_0000,
        decreases ps@.len() - i,
    {
        assert(names.take(i + 1).drop_last() =~= names.take(i as int));
        assert(ps@.take(i + 1).drop_last() =~= ps@.take(i as int));
        let author = ps[i].meta.author.as_str();
        let seen = crate::rules::holds(&authors, author);
        proof {
            let earlier = names.take(i as int);
            if seen {
                let j = choose|j: int| 0 <= j < authors@.len() && (#[trigger] authors@[j])@ == author@;
                assert(texts(authors@)[j] == author@);
            } else if earlier.contains(author@) {
                let j = choose|j: int| 0 <= j < earlier.len() && earlier[j] == author@;
                assert(authors@[j]@ == author@);
                assert(crate::rules::text_set(authors@).contains(author@));
            }
        }
        if !seen {
            distinct = distinct + 1;
        }
        let ghost before = authors@;
        authors.push(owned(author));
        assert(texts(authors@) =~= texts(before).push(author@));
        demos = demos + ps[i].meta.demos.len() as u128;
        i = i + 1;
    }
    assert(names.take(ps@.len() as int) =~= names);
    assert(ps@.take(ps@.len() as int) =~= ps@);
    let all = Category::all();
    let mut parts: Vec<String> = Vec::new();
    let mut k: usize = 0;
    while k < 12
        invariant
            k <= 12,
            forall|j: int| 0 <= j < 12 ==> #[trigger] all@[j] == nth(j),
            texts(parts@) == category_counts(ps@, k as int),
        decreases 12 - k,
    {
        let c = all[k];
        let n = count_in(ps, c);
        if n > 0 {
            let mut t = owned(c.name());
            push_str(&mut t, " ");
            push_decimal(&mut t, n as u64);
            let ghost before = parts@;
            parts.push(t);
            assert(texts(parts@) =~= texts(before).push(t@));
        }
        assert(texts(parts@) =~= category_counts(ps@, k + 1));
        k = k + 1;
    }
    let mut out = String::new();
    push_decimal(&mut out, ps.len() as u64);
    push_str(&mut out, " patches by ");
    push_decimal(&mut out, distinct as u64);
    push_str(&mut out, " authors, ");
    let d = crate::text::decimal_text_wide(demos);
    push_str(&mut out, d.as_str());
    push_str(&mut out, " demos. ");
    let joined = crate::text::join_strings(parts.as_slice(), ", ");
    push_str(&mut out, joined.as_str());
    push_str(&mut out, ".");
    out
}

/// One row of the pull request table.
pub open spec fn pr_row(p: Patch) -> Seq<char> {
    let d = p.derived;
    "| "@ + p.meta.name@ + " by "@ + p.meta.author@ + " | "@ + name_of(p.category) + " | "@ + decimal(p.meta.version as nat)
        + " | "@ + (if d.effects@.len() == 0 {
        "bypassed"@
    } else {
        crate::text::join(texts(d.effects@), ", "@)
    }) + " | "@ + (match d.arp_mode {
        Some(m) => m@,
        None => "off"@,
    }) + " | "@ + d.polyphony@ + " | "@ + decimal(d.routings as nat) + " | "@ + p.meta.licence@ + " |\n"@
}

/// The rows of the patches a diff touched, in library order.
pub open spec fn pr_rows(ps: Seq<Patch>, cs: Seq<(Change, Seq<char>)>) -> Seq<Seq<char>>
    decreases ps.len(),
{
    if ps.len() == 0 {
        seq![]
    } else {
        pr_rows(ps.drop_last(), cs) + if touched_patch(cs, ps.last().syx_path@, ps.last().toml_path@) {
            seq![pr_row(ps.last())]
        } else {
            seq![]
        }
    }
}

/// The pull request summary: a table of the patches a diff touched, read
/// from their bytes.
pub open spec fn pr_summary_of(ps: Seq<Patch>, cs: Seq<(Change, Seq<char>)>) -> Seq<char> {
    let rows = pr_rows(ps, cs);
    if rows.len() == 0 {
        "No patches changed.\n"@
    } else {
        "| Patch | Category | Version | Effects | Arp | Voices | Routings | Licence |\n"@
            + "| --- | --- | --- | --- | --- | --- | --- | --- |\n"@ + concat(rows)
            + "\nRead from the `.syx` bytes, not the description.\n"@
    }
}

fn pr_row_text(p: &Patch) -> (r: String)
    ensures
        r@ == pr_row(*p),
{
    let d = &p.derived;
    let mut out = owned("| ");
    push_str(&mut out, p.meta.name.as_str());
    push_str(&mut out, " by ");
    push_str(&mut out, p.meta.author.as_str());
    push_str(&mut out, " | ");
    push_str(&mut out, p.category.name());
    push_str(&mut out, " | ");
    push_decimal(&mut out, p.meta.version as u64);
    push_str(&mut out, " | ");
    let ghost a = out@;
    if d.effects.len() == 0 {
        push_str(&mut out, "bypassed");
    } else {
        let j = crate::text::join_strings(d.effects.as_slice(), ", ");
        push_str(&mut out, j.as_str());
    }
    push_str(&mut out, " | ");
    let ghost b = out@;
    match &d.arp_mode {
        Some(m) => push_str(&mut out, m.as_str()),
        None => push_str(&mut out, "off"),
    }
    push_str(&mut out, " | ");
    push_str(&mut out, d.polyphony.as_str());
    push_str(&mut out, " | ");
    push_decimal(&mut out, d.routings as u64);
    push_str(&mut out, " | ");
    push_str(&mut out, p.meta.licence.as_str());
    push_str(&mut out, " |\n");
    assert(out@ =~= pr_row(*p));
    out
}

/// A pull request summary of the patches a diff touches.
pub fn pr_summary(library: &Library, changes: &[(Change, String)]) -> (r: String)
    ensures
        r@ == pr_summary_of(library.patch_list(), change_list(changes@)),
{
    let ps = library.patches();
    let mut rows = String::new();
    let mut count: usize = 0;
    let mut i: usize = 0;
    while i < ps.len()
        invariant
            i <= ps@.len(),
            rows@ == concat(pr_rows(ps@.take(i as int), change_list(changes@))),
            count == pr_rows(ps@.take(i as int), change_list(changes@)).len(),
            count <= i,
        decreases ps@.len() - i,
    {
        assert(ps@.take(i + 1).drop_last() =~= ps@.take(i as int));
        let p = &ps[i];
        let ghost before = pr_rows(ps@.take(i as int), change_list(changes@));
        assert(ps@.take(i + 1).last() == ps@[i as int]);
        if touches(changes, p.syx_path.as_str(), p.toml_path.as_str()) {
            let row = pr_row_text(p);
            let ghost old_rows = rows@;
            push_str(&mut rows, row.as_str());
            count = count + 1;
            let ghost after = before.push(pr_row(*p));
            assert(pr_rows(ps@.take(i + 1), change_list(changes@)) == after);
            assert(after.drop_last() =~= before);
            assert(concat(after) == concat(before) + pr_row(*p));
        } else {
            assert(pr_rows(ps@.take(i + 1), change_list(changes@)) =~= before);
        }
        i = i + 1;
    }
    assert(ps@.take(ps@.len() as int) =~= ps@);
    if count == 0 {
        owned("No patches changed.\n")
    } else {
        let mut out = owned("| Patch | Category | Version | Effects | Arp | Voices | Routings | Licence |\n");
        push_str(&mut out, "| --- | --- | --- | --- | --- | --- | --- | --- |\n");
        push_str(&mut out, rows.as_str());
        push_str(&mut out, "\nRead from the `.syx` bytes, not the description.\n");
        out
    }
}

/// A patch as one revision has it: its metadata, and the fingerprint of the
/// first program of its `.syx` where that file is there and reads.
#[derive(Debug)]
pub struct Side {
    /// The parsed `.toml`.
    pub meta: PatchMeta,
    /// The first program's fingerprint.
    pub fingerprint: Option<Fingerprint>,
}

/// The fingerprint a revision's `.syx` bytes give: that of the first frame,
/// where there is one and it reads.
pub open spec fn first_fingerprint(syx: Option<Seq<u8>>) -> Option<Seq<u8>> {
    match syx {
        None => None,
        Some(bytes) => if syx_entries(bytes).len() > 0 && syx_entries(bytes)[0] is Ok {
            Some(sha256(sound_bytes(syx_entries(bytes)[0]->Ok_0.1.1)))
        } else {
            None
        },
    }
}

/// Reads one revision of a patch from its two files' bytes. A `.toml` that
/// does not parse is an error that names its path.
pub fn side(toml_path: &str, toml_bytes: &[u8], syx_bytes: Option<&[u8]>) -> (r: Result<Side, String>)
    ensures
        match toml_read(utf8_lossy(toml_bytes@)) {
            Err(m) => r matches Err(e) && e@ == toml_path@ + ": "@ + m@,
            Ok(doc) => match meta_problem(doc@) {
                Some(m) => r matches Err(e) && e@ == toml_path@ + ": "@ + m,
                None => r matches Ok(s) && meta_of(s.meta, doc@) && match (s.fingerprint, first_fingerprint(
                    match syx_bytes {
                        Some(b) => Some(b@),
                        None => None,
                    },
                )) {
                    (Some(f), Some(g)) => f.0@ == g,
                    (None, None) => true,
                    _ => false,
                },
            },
        },
{
    let text = lossy_text(toml_bytes);
    let meta = match PatchMeta::parse(text.as_str()) {
        Ok(meta) => meta,
        Err(message) => {
            let mut e = owned(toml_path);
            push_str(&mut e, ": ");
            push_str(&mut e, message.as_str());
            return Err(e);
        },
    };
    let fingerprint = match syx_bytes {
        None => None,
        Some(bytes) => {
            let mut entries = read_syx(bytes);
            if entries.len() == 0 {
                None
            } else {
                assert(entries@[0] == entries@[0]);
                match entries.remove(0) {
                    Ok(entry) => Some(Fingerprint::of(&entry.program)),
                    Err(_) => None,
                }
            }
        },
    };
    Ok(Side { meta, fingerprint })
}

/// Whether the first `n` sightings hold a version.
pub open spec fn seen_before(seen: Seq<(u32, Fingerprint)>, n: int, version: u32) -> bool {
    exists|k: int| 0 <= k < n && #[trigger] seen[k].0 == version
}

/// Whether a history has an entry for a version.
pub open spec fn has_version(entries: Seq<HistoryEntry>, version: u32) -> bool {
    exists|j: int| 0 <= j < entries.len() && #[trigger] entries[j].version == version
}

/// Whether an entry is what the first sighting of its version, among the
/// first `n`, recorded.
pub open spec fn first_sighting(seen: Seq<(u32, Fingerprint)>, n: int, e: HistoryEntry) -> bool {
    exists|k: int|
        0 <= k < n && #[trigger] seen[k].0 == e.version && !seen_before(seen, k, e.version) && e.fingerprint == seen[k].1
}

/// A patch's history from what each commit touching it held, newest commit
/// first: one entry per version, oldest version first, each with the
/// fingerprint the newest commit at that version had.
pub fn history_entries(seen: &[(u32, Fingerprint)]) -> (r: Vec<HistoryEntry>)
    ensures
        forall|a: int, b: int| 0 <= a < b < r@.len() ==> #[trigger] r@[a].version < #[trigger] r@[b].version,
        forall|k: int| 0 <= k < seen@.len() ==> has_version(r@, #[trigger] seen@[k].0),
        forall|j: int| 0 <= j < r@.len() ==> first_sighting(seen@, seen@.len() as int, #[trigger] r@[j]),
{
    let mut out: Vec<HistoryEntry> = Vec::new();
    let mut i: usize = 0;
    while i < seen.len()
        invariant
            i <= seen@.len(),
            forall|a: int, b: int| 0 <= a < b < out@.len() ==> #[trigger] out@[a].version < #[trigger] out@[b].version,
            forall|k: int| 0 <= k < i ==> has_version(out@, #[trigger] seen@[k].0),
            forall|j: int| 0 <= j < out@.len() ==> first_sighting(seen@, i as int, #[trigger] out@[j]),
        decreases seen@.len() - i,
    {
        let (version, fingerprint) = seen[i];
        let mut k: usize = 0;
        while k < out.len() && out[k].version < version
            invariant
                k <= out@.len(),
                forall|j: int| 0 <= j < k ==> #[trigger] out@[j].version < version,
            decreases out@.len() - k,
        {
            k = k + 1;
        }
        if k < out.len() && out[k].version == version {
            assert(has_version(out@, seen@[i as int].0));
            assert forall|j: int| 0 <= j < out@.len() implies first_sighting(seen@, i + 1, #[trigger] out@[j]) by {
                let k2 = choose|k2: int|
                    0 <= k2 < i && #[trigger] seen@[k2].0 == out@[j].version && !seen_before(seen@, k2, out@[j].version)
                        && out@[j].fingerprint == seen@[k2].1;
                assert(0 <= k2 < i + 1);
            }
        } else {
            proof {
                assert forall|k2: int| 0 <= k2 < i implies #[trigger] seen@[k2].0 != version by {
                    assert(has_version(out@, seen@[k2].0));
                    let j = choose|j: int| 0 <= j < out@.len() && #[trigger] out@[j].version == seen@[k2].0;
                    if j > k {
                        assert(out@[k as int].version < out@[j].version);
                    }
                }
            }
            let ghost before = out@;
            out.insert(k, HistoryEntry { version, fingerprint });
            proof {
                assert(!seen_before(seen@, i as int, version));
                assert forall|a: int, b: int| 0 <= a < b < out@.len() implies #[trigger] out@[a].version < #[trigger] out@[b].version by {
                    if b < k {
                        assert(out@[a] == before[a] && out@[b] == before[b]);
                    } else if b == k {
                        assert(out@[a] == before[a]);
                    } else if a == k {
                        assert(out@[b] == before[b - 1]);
                    } else if a < k {
                        assert(out@[a] == before[a] && out@[b] == before[b - 1]);
                    } else {
                        assert(out@[a] == before[a - 1] && out@[b] == before[b - 1]);
                    }
                }
                assert forall|k2: int| 0 <= k2 <= i implies has_version(out@, #[trigger] seen@[k2].0) by {
                    if k2 == i {
                        assert(out@[k as int].version == seen@[k2].0);
                    } else {
                        assert(has_version(before, seen@[k2].0));
                        let j = choose|j: int| 0 <= j < before.len() && #[trigger] before[j].version == seen@[k2].0;
                        if j < k {
                            assert(out@[j] == before[j]);
                        } else {
                            assert(out@[j + 1] == before[j]);
                        }
                    }
                }
                assert forall|j: int| 0 <= j < out@.len() implies first_sighting(seen@, i + 1, #[trigger] out@[j]) by {
                    if j == k {
                        assert(seen@[i as int].0 == out@[j].version);
                    } else {
                        let jj = if j < k { j } else { j - 1 };
                        assert(out@[j] == before[jj]);
                        assert(first_sighting(seen@, i as int, before[jj]));
                        let k2 = choose|k2: int|
                            0 <= k2 < i && #[trigger] seen@[k2].0 == before[jj].version && !seen_before(seen@, k2, before[jj].version)
                                && before[jj].fingerprint == seen@[k2].1;
                        assert(0 <= k2 < i + 1);
                    }
                }
            }
        }
        i = i + 1;
    }
    out
}

/// The version a crate manifest's text gives for `package.version`, if it
/// has one as a string.
pub open spec fn package_version(doc: Seq<(String, TomlValue)>) -> Option<Seq<char>> {
    match lookup(doc, "package"@) {
        Some(TomlValue::Table(t)) => match lookup(t@, "version"@) {
            Some(TomlValue::Text(v)) => Some(v@),
            _ => None,
        },
        _ => None,
    }
}

/// The library version the crate's `Cargo.toml` carries.
pub fn manifest_version(bytes: &[u8]) -> (r: Result<LibraryVersion, String>)
    ensures
        match toml_read(utf8_lossy(bytes@)) {
            Err(m) => r matches Err(e) && e@ == manifest() + ": "@ + m@,
            Ok(doc) => match package_version(doc@) {
                None => r matches Err(e) && e@ == manifest() + " has no package.version"@,
                Some(v) => match parse_version(v) {
                    Ok((y, rel, p)) => r == Ok::<LibraryVersion, String>(LibraryVersion { year: y, release: rel, patch: p }),
                    Err(m) => r matches Err(e) && e@ == manifest() + ": version: "@ + m,
                },
            },
        },
{
    let text = lossy_text(bytes);
    let doc = match read_toml(text.as_str()) {
        Ok(doc) => doc,
        Err(message) => {
            let mut e = owned(CRATE_DIR);
            push_str(&mut e, "/Cargo.toml: ");
            push_str(&mut e, message.as_str());
            assert(e@ =~= manifest() + ": "@ + message@) by {
                reveal_strlit("crates/deepmind-patches");
                reveal_strlit("/Cargo.toml: ");
                reveal_strlit("crates/deepmind-patches/Cargo.toml");
                reveal_strlit(": ");
            }
            return Err(e);
        },
    };
    let mut version: Option<&String> = None;
    match get(&doc, "package") {
        Some(TomlValue::Table(t)) => match get(t, "version") {
            Some(TomlValue::Text(v)) => {
                version = Some(v);
            },
            _ => {},
        },
        _ => {},
    }
    match version {
        None => {
            let mut e = owned(CRATE_DIR);
            push_str(&mut e, "/Cargo.toml has no package.version");
            assert(e@ =~= manifest() + " has no package.version"@) by {
                reveal_strlit("crates/deepmind-patches");
                reveal_strlit("/Cargo.toml has no package.version");
                reveal_strlit("crates/deepmind-patches/Cargo.toml");
                reveal_strlit(" has no package.version");
            }
            Err(e)
        },
        Some(v) => match LibraryVersion::parse(v.as_str()) {
            Ok(parsed) => Ok(parsed),
            Err(error) => {
                let mut e = owned(CRATE_DIR);
                push_str(&mut e, "/Cargo.toml: ");
                let t = error.to_string();
                push_str(&mut e, t.as_str());
                proof {
                    reveal_strlit("crates/deepmind-patches");
                    reveal_strlit("/Cargo.toml: ");
                    reveal_strlit("crates/deepmind-patches/Cargo.toml");
                    reveal_strlit(": ");
                    reveal_strlit("version: ");
                    reveal_strlit(": version: ");
                }
                assert(e@ =~= manifest() + ": version: "@ + (match parse_version(v@) { Err(m) => m, Ok(_) => seq![] }));
                Err(e)
            },
        },
    }
}

/// How many findings are errors.
pub open spec fn error_count(findings: Seq<Finding>) -> nat
    decreases findings.len(),
{
    if findings.len() == 0 {
        0
    } else {
        error_count(findings.drop_last()) + if findings.last().severity == Severity::Error { 1nat } else { 0nat }
    }
}

/// How many slots hold parsed metadata and exactly one program.
pub open spec fn complete_count(slots: Seq<Slot>) -> nat
    decreases slots.len(),
{
    if slots.len() == 0 {
        0
    } else {
        complete_count(slots.drop_last()) + if slots.last().meta is Some && slots.last().programs@.len() == 1 {
            1nat
        } else {
            0nat
        }
    }
}

/// The line a check ends with: patches, errors, warnings.
pub open spec fn tally_text(slots: Seq<Slot>, findings: Seq<Finding>) -> Seq<char> {
    decimal(complete_count(slots)) + " patches, "@ + decimal(error_count(findings)) + " errors, "@ + decimal(
        (findings.len() - error_count(findings)) as nat,
    ) + " warnings"@
}

/// How a check sums up: how many patches are complete, how many findings
/// are errors and how many warnings.
pub fn tally(scan: &Scan, findings: &[Finding]) -> (r: String)
    ensures
        r@ == tally_text(scan.slots@, findings@),
{
    let mut errors: usize = 0;
    let mut i: usize = 0;
    while i < findings.len()
        invariant
            i <= findings@.len(),
            errors == error_count(findings@.take(i as int)),
            errors <= i,
        decreases findings@.len() - i,
    {
        assert(findings@.take(i + 1).drop_last() =~= findings@.take(i as int));
        if findings[i].severity == Severity::Error {
            errors = errors + 1;
        }
        i = i + 1;
    }
    assert(findings@.take(i as int) =~= findings@);
    let mut patches: usize = 0;
    let mut j: usize = 0;
    while j < scan.slots.len()
        invariant
            j <= scan.slots@.len(),
            patches == complete_count(scan.slots@.take(j as int)),
            patches <= j,
        decreases scan.slots@.len() - j,
    {
        assert(scan.slots@.take(j + 1).drop_last() =~= scan.slots@.take(j as int));
        let s = &scan.slots[j];
        if s.meta.is_some() && s.programs.len() == 1 {
            patches = patches + 1;
        }
        j = j + 1;
    }
    assert(scan.slots@.take(j as int) =~= scan.slots@);
    let mut out = String::new();
    push_decimal(&mut out, patches as u64);
    push_str(&mut out, " patches, ");
    push_decimal(&mut out, errors as u64);
    push_str(&mut out, " errors, ");
    push_decimal(&mut out, (findings.len() - errors) as u64);
    push_str(&mut out, " warnings");
    out
}

} // verus!
