//! Library versioning: `yy.release.patch`.
//!
//! - `yy` is the two-digit year of the release. It resets the other two.
//! - `release` bumps when presets are added.
//! - `patch` bumps when only existing presets, demos, taxonomy or docs change.
//!
//! The version lives in git tags (`v26.1.0`), never in a file, so a content
//! pull request never edits a shared version line. The release workflow
//! computes the next version from what changed since the last tag.

use vstd::prelude::*;

use crate::error::Error;
use crate::text::{
    all_digits, chars_of, decimal, digits_value, parse_u32, push_char, push_decimal, push_str,
    quoted, debug_quoted, split, split_chars, views, lemma_split_nonempty, lower, to_lower, join, is_ascii_digit,
    lemma_decimal_digits, lemma_digits_decimal, lemma_split_concat, lemma_split_join, lemma_split_single,
};

verus! {

/// A library version.
#[derive(Debug, Clone, Copy, PartialEq, Eq, Structural, PartialOrd, Ord, Hash, Default)]
pub struct LibraryVersion {
    /// Two-digit year, `26` for 2026.
    pub year: u32,
    /// Content releases this year.
    pub release: u32,
    /// Patches since the last release.
    pub patch: u32,
}

/// What kind of bump a change needs, smallest first.
#[derive(Debug, Clone, Copy, PartialEq, Eq, Structural, PartialOrd, Ord, Hash)]
pub enum Bump {
    /// Nothing that ships changed.
    Nothing,
    /// Existing content changed.
    Patch,
    /// Content was added.
    Release,
    /// First release of a new year.
    Year,
}

/// Where a bump stands among the four, smallest first.
pub open spec fn rank(b: Bump) -> nat {
    match b {
        Bump::Nothing => 0,
        Bump::Patch => 1,
        Bump::Release => 2,
        Bump::Year => 3,
    }
}

/// The larger of two bumps.
pub open spec fn larger(a: Bump, b: Bump) -> Bump {
    if rank(a) >= rank(b) {
        a
    } else {
        b
    }
}

impl Bump {
    /// Where this bump stands among the four, smallest first.
    pub fn rank(self) -> (r: u8)
        ensures
            r == rank(self),
    {
        match self {
            Bump::Nothing => 0,
            Bump::Patch => 1,
            Bump::Release => 2,
            Bump::Year => 3,
        }
    }

    /// The larger of two bumps.
    pub fn max(self, other: Bump) -> (r: Bump)
        ensures
            r == larger(self, other),
    {
        if self.rank() >= other.rank() {
            self
        } else {
            other
        }
    }

    /// Whether this bump is smaller than another.
    pub fn is_below(self, other: Bump) -> (r: bool)
        ensures
            r == (rank(self) < rank(other)),
    {
        self.rank() < other.rank()
    }
}

/// `yy.release.patch`, in decimal.
pub open spec fn version_text(v: LibraryVersion) -> Seq<char> {
    decimal(v.year as nat) + "."@ + decimal(v.release as nat) + "."@ + decimal(v.patch as nat)
}

/// Whether a part of a version is a number written plainly: digits, no
/// leading zero, within `u32`.
pub open spec fn part_ok(p: Seq<char>) -> bool {
    &&& p.len() > 0
    &&& !(p.len() > 1 && p[0] == '0')
    &&& all_digits(p)
    &&& digits_value(p) <= u32::MAX
}

/// What reading a version gives: the three numbers, or the message it is
/// refused with.
pub open spec fn parse_version(text: Seq<char>) -> Result<(u32, u32, u32), Seq<char>> {
    let parts = split(text, '.');
    if parts.len() != 3 || !part_ok(parts[0]) || !part_ok(parts[1]) || !part_ok(parts[2]) {
        Err(debug_quoted(text) + " is not yy.release.patch"@)
    } else if digits_value(parts[0]) > 99 {
        Err(debug_quoted(text) + ": year is two digits"@)
    } else {
        Ok(
            (
                digits_value(parts[0]) as u32,
                digits_value(parts[1]) as u32,
                digits_value(parts[2]) as u32,
            ),
        )
    }
}

/// Whether a result of reading a version is what [`parse_version`] says.
pub open spec fn parsed_as(r: Result<LibraryVersion, Error>, text: Seq<char>) -> bool {
    match (r, parse_version(text)) {
        (Ok(v), Ok((y, rel, p))) => v.year == y && v.release == rel && v.patch == p,
        (Err(Error::Version(m)), Err(message)) => m@ == message,
        _ => false,
    }
}

/// A tag with one leading `v` removed, if it has one.
pub open spec fn untagged(tag: Seq<char>) -> Seq<char> {
    if tag.len() > 0 && tag[0] == 'v' {
        tag.drop_first()
    } else {
        tag
    }
}

/// The version after a bump, given the current two-digit year.
pub open spec fn next_of(v: LibraryVersion, bump: Bump, year: u32) -> LibraryVersion {
    match bump {
        Bump::Nothing => v,
        _ => if year != v.year || bump == Bump::Year {
            LibraryVersion { year, release: 0, patch: 0 }
        } else if bump == Bump::Patch {
            LibraryVersion { patch: (v.patch + 1) as u32, ..v }
        } else {
            LibraryVersion { release: (v.release + 1) as u32, patch: 0, ..v }
        },
    }
}

/// Whether `a` is a later version than `b`.
pub open spec fn is_newer(a: LibraryVersion, b: LibraryVersion) -> bool {
    a.year > b.year || (a.year == b.year && (a.release > b.release || (a.release == b.release
        && a.patch > b.patch)))
}

/// The bump that takes `v` to `next` in one step, if any: a patch, a release,
/// or this year's first version when the calendar year is past `v`'s.
pub open spec fn step_of(v: LibraryVersion, next: LibraryVersion, year: u32) -> Option<Bump> {
    if next_of(v, Bump::Patch, v.year) == next {
        Some(Bump::Patch)
    } else if next_of(v, Bump::Release, v.year) == next {
        Some(Bump::Release)
    } else if next_of(v, Bump::Year, year) == next && year > v.year {
        Some(Bump::Year)
    } else {
        None
    }
}

/// The message a version that is not one step away is refused with.
pub open spec fn step_message(v: LibraryVersion, next: LibraryVersion, year: u32) -> Seq<char> {
    let expected = version_text(next_of(v, Bump::Patch, v.year)) + ", "@ + version_text(
        next_of(v, Bump::Release, v.year),
    );
    let expected = if year > v.year {
        expected + ", "@ + version_text(next_of(v, Bump::Year, year))
    } else {
        expected
    };
    version_text(next) + " is not one step from "@ + version_text(v) + "; expected "@ + expected
}

impl LibraryVersion {
    /// `yy.release.patch`.
    pub fn to_string(&self) -> (s: String)
        ensures
            s@ == version_text(*self),
    {
        let mut s = String::new();
        push_decimal(&mut s, self.year as u64);
        push_str(&mut s, ".");
        push_decimal(&mut s, self.release as u64);
        push_str(&mut s, ".");
        push_decimal(&mut s, self.patch as u64);
        s
    }

    /// The tag a version is released under: `v26.1.0`.
    pub fn tag(&self) -> (s: String)
        ensures
            s@ == "v"@ + version_text(*self),
    {
        let mut s = String::new();
        push_str(&mut s, "v");
        let t = self.to_string();
        push_str(&mut s, t.as_str());
        s
    }

    /// Reads `yy.release.patch`: three plain numbers, the year below 100.
    pub fn parse(text: &str) -> (r: Result<Self, Error>)
        ensures
            parsed_as(r, text@),
    {
        let chars = chars_of(text);
        Self::parse_chars(chars.as_slice(), text)
    }

    fn parse_chars(chars: &[char], text: &str) -> (r: Result<Self, Error>)
        requires
            chars@ == text@,
        ensures
            parsed_as(r, text@),
    {
        let parts = split_chars(chars, '.');
        proof {
            lemma_split_nonempty(text@, '.');
        }
        if parts.len() != 3 {
            return Err(Self::malformed(text));
        }
        assert(views(parts@)[0] == parts@[0]@);
        assert(views(parts@)[1] == parts@[1]@);
        assert(views(parts@)[2] == parts@[2]@);
        let year = match Self::part(parts[0].as_slice()) {
            Some(v) => v,
            None => return Err(Self::malformed(text)),
        };
        let release = match Self::part(parts[1].as_slice()) {
            Some(v) => v,
            None => return Err(Self::malformed(text)),
        };
        let patch = match Self::part(parts[2].as_slice()) {
            Some(v) => v,
            None => return Err(Self::malformed(text)),
        };
        if year > 99 {
            let mut m = quoted(text);
            push_str(&mut m, ": year is two digits");
            return Err(Error::Version(m));
        }
        Ok(LibraryVersion { year, release, patch })
    }

    fn part(p: &[char]) -> (r: Option<u32>)
        ensures
            r is Some <==> part_ok(p@),
            r matches Some(v) ==> v as nat == digits_value(p@),
    {
        if p.len() > 1 && p[0] == '0' {
            return None;
        }
        parse_u32(p)
    }

    fn malformed(text: &str) -> (e: Error)
        ensures
            e matches Error::Version(m) && m@ == debug_quoted(text@) + " is not yy.release.patch"@,
    {
        let mut m = quoted(text);
        push_str(&mut m, " is not yy.release.patch");
        Error::Version(m)
    }

    /// Parses a tag, with or without the `v`.
    pub fn from_tag(tag: &str) -> (r: Result<Self, Error>)
        ensures
            parsed_as(r, untagged(tag@)),
    {
        let chars = chars_of(tag);
        if chars.len() > 0 && chars[0] == 'v' {
            let rest = crate::text::slice_of(chars.as_slice(), 1, chars.len());
            assert(rest@ == tag@.drop_first());
            let s = crate::text::string_of(rest.as_slice());
            Self::parse_chars(rest.as_slice(), s.as_str())
        } else {
            Self::parse_chars(chars.as_slice(), tag)
        }
    }

    /// The next version after a bump, given the current two-digit year.
    ///
    /// A new year turns any content bump into `yy.0.0`; `Bump::Nothing` returns
    /// the same version.
    pub fn next(self, bump: Bump, year: u32) -> (r: Self)
        requires
            year == self.year && bump == Bump::Patch ==> self.patch < u32::MAX,
            year == self.year && bump == Bump::Release ==> self.release < u32::MAX,
        ensures
            r == next_of(self, bump, year),
    {
        match bump {
            Bump::Nothing => self,
            _ => {
                if year != self.year || bump == Bump::Year {
                    LibraryVersion { year, release: 0, patch: 0 }
                } else if bump == Bump::Patch {
                    LibraryVersion { patch: self.patch + 1, ..self }
                } else {
                    LibraryVersion { release: self.release + 1, patch: 0, ..self }
                }
            },
        }
    }

    /// Whether this version is later than another.
    pub fn is_newer_than(&self, other: &LibraryVersion) -> (r: bool)
        ensures
            r == is_newer(*self, *other),
    {
        self.year > other.year || (self.year == other.year && (self.release > other.release || (
        self.release == other.release && self.patch > other.patch)))
    }

    /// The bump that takes `self` to `next`, if `next` is exactly one step
    /// away.
    ///
    /// A change bumps the patch, the release, or starts the given year at
    /// `yy.0.0`. Anything else, including a skipped number, going backwards,
    /// or a year that is not this year, is an error saying what was expected.
    pub fn step_to(self, next: Self, year: u32) -> (r: Result<Bump, Error>)
        requires
            self.patch < u32::MAX,
            self.release < u32::MAX,
        ensures
            match step_of(self, next, year) {
                Some(b) => r == Ok::<Bump, Error>(b),
                None => r matches Err(Error::Version(m)) && m@ == step_message(self, next, year),
            },
    {
        let patch = self.next(Bump::Patch, self.year);
        let release = self.next(Bump::Release, self.year);
        let new_year = self.next(Bump::Year, year);
        if patch == next {
            return Ok(Bump::Patch);
        }
        if release == next {
            return Ok(Bump::Release);
        }
        if new_year == next && year > self.year {
            return Ok(Bump::Year);
        }
        let mut m = next.to_string();
        push_str(&mut m, " is not one step from ");
        let this = self.to_string();
        push_str(&mut m, this.as_str());
        push_str(&mut m, "; expected ");
        let a = patch.to_string();
        push_str(&mut m, a.as_str());
        push_str(&mut m, ", ");
        let b = release.to_string();
        push_str(&mut m, b.as_str());
        if year > self.year {
            push_str(&mut m, ", ");
            let c = new_year.to_string();
            push_str(&mut m, c.as_str());
        }
        Err(Error::Version(m))
    }
}

impl core::str::FromStr for LibraryVersion {
    type Err = Error;

    fn from_str(text: &str) -> (r: Result<Self, Self::Err>)
        ensures
            parsed_as(r, text@),
    {
        LibraryVersion::parse(text)
    }
}

/// How a changed path was changed.
#[derive(Debug, Clone, Copy, PartialEq, Eq, Structural, Hash)]
pub enum Change {
    /// The path is new.
    Added,
    /// The path exists on both sides and differs.
    Modified,
    /// The path is gone.
    Deleted,
    /// The path moved. Counts as modified.
    Renamed,
}

/// Whether a `/`-separated path is `dir` or lies under it.
pub open spec fn is_under(path: Seq<char>, dir: Seq<char>) -> bool {
    path == dir || (path.len() > dir.len() && path.take(dir.len() as int) == dir && path[dir.len() as int] == '/')
}

/// The last `/`-separated piece of a path.
pub open spec fn file_name(path: Seq<char>) -> Seq<char> {
    split(path, '/').last()
}

/// Whether a file name's extension, the text after its last `.` when that is
/// not its first character, is `syx` in any case.
pub open spec fn has_syx_extension(path: Seq<char>) -> bool {
    let name = file_name(path);
    &&& name.len() >= 5
    &&& name[name.len() - 4] == '.'
    &&& lower(name[name.len() - 3]) == 's'
    &&& lower(name[name.len() - 2]) == 'y'
    &&& lower(name[name.len() - 1]) == 'x'
}

/// Whether a path is part of what a release ships.
pub open spec fn ships(path: Seq<char>) -> bool {
    is_under(path, "presets"@) || is_under(path, "demos"@) || is_under(path, "resources"@) || path
        == "taxonomy.toml"@
}

/// Whether a change adds a program file.
pub open spec fn adds_program(change: Change, path: Seq<char>) -> bool {
    change == Change::Added && is_under(path, "presets"@) && has_syx_extension(path)
}

/// The bump a set of changed paths requires.
pub open spec fn classify_of(changes: Seq<(Change, Seq<char>)>) -> Bump {
    if exists|i: int| 0 <= i < changes.len() && adds_program(changes[i].0, #[trigger] changes[i].1) {
        Bump::Release
    } else if exists|i: int| 0 <= i < changes.len() && ships(#[trigger] changes[i].1) {
        Bump::Patch
    } else {
        Bump::Nothing
    }
}

/// The changes with each path as characters.
pub open spec fn change_views(changes: Seq<(Change, String)>) -> Seq<(Change, Seq<char>)> {
    changes.map_values(|c: (Change, String)| (c.0, c.1@))
}

/// Whether text is `prefix` or starts with `prefix` and a `/`.
fn under(path: &[char], dir: &str) -> (r: bool)
    ensures
        r == is_under(path@, dir@),
{
    let d = chars_of(dir);
    if path.len() < d.len() {
        return false;
    }
    let mut i: usize = 0;
    while i < d.len()
        invariant
            i <= d@.len(),
            d@.len() <= path@.len(),
            d@ == dir@,
            forall|j: int| 0 <= j < i ==> path@[j] == d@[j],
        decreases d@.len() - i,
    {
        if path[i] != d[i] {
            assert(path@.take(d@.len() as int)[i as int] != d@[i as int]);
            assert(path@ != d@);
            return false;
        }
        i = i + 1;
    }
    assert(path@.take(d@.len() as int) == d@);
    if path.len() == d.len() {
        assert(path@ == d@);
        true
    } else {
        path[d.len()] == '/'
    }
}

fn syx_extension(path: &[char]) -> (r: bool)
    ensures
        r == has_syx_extension(path@),
{
    let parts = split_chars(path, '/');
    proof {
        lemma_split_nonempty(path@, '/');
    }
    let name = &parts[parts.len() - 1];
    assert(name@ == file_name(path@));
    let n = name.len();
    n >= 5 && name[n - 4] == '.' && to_lower(name[n - 3]) == 's' && to_lower(name[n - 2]) == 'y'
        && to_lower(name[n - 1]) == 'x'
}

/// The bump a set of changed paths requires.
///
/// A new `.syx` under `presets/` is a release. Anything else that ships, which
/// is everything under `presets/`, `demos/` and `resources/`, plus
/// `taxonomy.toml`, is a patch. Tooling, workflows and docs need no bump.
pub fn classify(changes: &[(Change, String)]) -> (r: Bump)
    ensures
        r == classify_of(change_views(changes@)),
{
    let ghost cs = change_views(changes@);
    let mut bump = Bump::Nothing;
    let mut i: usize = 0;
    while i < changes.len()
        invariant
            i <= changes@.len(),
            cs == change_views(changes@),
            cs.len() == changes@.len(),
            forall|j: int| 0 <= j < i ==> !adds_program(cs[j].0, #[trigger] cs[j].1),
            bump == Bump::Patch <==> exists|j: int| 0 <= j < i && ships(#[trigger] cs[j].1),
            bump == Bump::Patch || bump == Bump::Nothing,
        decreases changes@.len() - i,
    {
        let (change, path) = &changes[i];
        assert(cs[i as int] == (*change, path@));
        let p = chars_of(path.as_str());
        let in_presets = under(p.as_slice(), "presets");
        let is_syx = syx_extension(p.as_slice());
        if in_presets && is_syx && *change == Change::Added {
            proof {
                reveal_strlit("presets");
                assert(adds_program(cs[i as int].0, cs[i as int].1));
            }
            return Bump::Release;
        }
        let ships_now = in_presets || under(p.as_slice(), "demos") || under(p.as_slice(), "resources")
            || crate::text::str_eq(path.as_str(), "taxonomy.toml");
        assert(ships_now == ships(cs[i as int].1));
        if ships_now {
            bump = Bump::Patch;
        }
        proof {
            if ships_now {
                assert(ships(cs[i as int].1));
            }
            assert forall|j: int| 0 <= j < i + 1 && ships(#[trigger] cs[j].1) implies (j < i
                || ships_now) by {}
        }
        i = i + 1;
    }
    bump
}

/// A version printed and read back is the same version, for any version
/// whose year has two digits.
pub proof fn lemma_print_then_parse(v: LibraryVersion)
    requires
        v.year <= 99,
    ensures
        parse_version(version_text(v)) == Ok::<(u32, u32, u32), Seq<char>>((v.year, v.release, v.patch)),
{
    let a = decimal(v.year as nat);
    let b = decimal(v.release as nat);
    let c = decimal(v.patch as nat);
    lemma_decimal_digits(v.year as nat);
    lemma_decimal_digits(v.release as nat);
    lemma_decimal_digits(v.patch as nat);
    assert forall|x: Seq<char>| all_digits(x) implies forall|i: int| 0 <= i < x.len() ==> x[i] != '.' by {
        assert forall|i: int| 0 <= i < x.len() implies x[i] != '.' by {
            assert(is_ascii_digit(x[i]));
        }
    }
    lemma_split_single(a, '.');
    lemma_split_single(b, '.');
    lemma_split_single(c, '.');
    reveal_strlit(".");
    assert(version_text(v) =~= (a + seq!['.'] + b) + seq!['.'] + c);
    lemma_split_concat(a + seq!['.'] + b, c, '.');
    lemma_split_concat(a, b, '.');
    let parts = split(version_text(v), '.');
    assert(parts =~= seq![a, b, c]);
}

/// Text that reads as a version is the text that version prints: a version
/// has one way to be written.
pub proof fn lemma_parse_then_print(text: Seq<char>)
    requires
        parse_version(text) is Ok,
    ensures
        ({
            let (y, r, p) = parse_version(text)->Ok_0;
            version_text(LibraryVersion { year: y, release: r, patch: p }) == text
        }),
{
    let parts = split(text, '.');
    lemma_digits_decimal(parts[0]);
    lemma_digits_decimal(parts[1]);
    lemma_digits_decimal(parts[2]);
    lemma_split_join(text, '.');
    reveal_strlit(".");
    assert(parts.drop_last().drop_last() =~= seq![parts[0]]);
    assert(parts.drop_last() =~= seq![parts[0], parts[1]]);
    assert(join(parts.drop_last().drop_last(), seq!['.']) == parts[0]);
    assert(join(parts.drop_last(), seq!['.']) == parts[0] + seq!['.'] + parts[1]);
    assert(join(parts, seq!['.']) == parts[0] + seq!['.'] + parts[1] + seq!['.'] + parts[2]);
}

/// A version's tag reads back as the version.
pub proof fn lemma_tag_round_trip(v: LibraryVersion)
    requires
        v.year <= 99,
    ensures
        parse_version(untagged("v"@ + version_text(v))) == Ok::<(u32, u32, u32), Seq<char>>((v.year, v.release, v.patch)),
{
    reveal_strlit("v");
    assert(("v"@ + version_text(v)).drop_first() =~= version_text(v));
    lemma_print_then_parse(v);
}

/// The version a bump computes is one step from the current one: the bump
/// itself within the year, or the new year's first version once the
/// calendar year is past the version's.
pub proof fn lemma_next_is_one_step(v: LibraryVersion, bump: Bump, year: u32)
    requires
        bump != Bump::Nothing,
        year >= v.year,
        year > v.year || bump != Bump::Year,
    ensures
        step_of(v, next_of(v, bump, year), year) == Some(if year > v.year { Bump::Year } else { bump }),
{
    let next = next_of(v, bump, year);
    if year > v.year {
        assert(next == LibraryVersion { year, release: 0, patch: 0 });
        assert(next_of(v, Bump::Patch, v.year).year == v.year);
        assert(next_of(v, Bump::Release, v.year).year == v.year);
    } else if bump == Bump::Release {
        assert(next.release == (v.release + 1) as u32);
        let r = v.release;
        assert((r + 1) as u32 != r) by (bit_vector);
        assert(next_of(v, Bump::Patch, v.year).release == v.release);
    }
}


/// Versions are ordered strictly: none is newer than itself, of two
/// versions at most one is newer than the other, newer is transitive, and
/// of two different versions one is newer. So an update is offered only for
/// a version that is not the one held.
pub proof fn lemma_newer_is_a_strict_order(a: LibraryVersion, b: LibraryVersion, c: LibraryVersion)
    ensures
        !is_newer(a, a),
        is_newer(a, b) ==> !is_newer(b, a),
        is_newer(a, b) && is_newer(b, c) ==> is_newer(a, c),
        a != b ==> is_newer(a, b) || is_newer(b, a),
{
}

/// The year counts first, then the release, then the patch: a later year
/// is newer whatever the counts, a later release in the same year is newer
/// whatever the patches, and a later patch of the same release is newer.
pub proof fn lemma_newer_reads_year_release_patch(a: LibraryVersion, b: LibraryVersion)
    ensures
        a.year > b.year ==> is_newer(a, b),
        a.year == b.year && a.release > b.release ==> is_newer(a, b),
        a.year == b.year && a.release == b.release && a.patch > b.patch ==> is_newer(a, b),
        a.year == b.year && a.release == b.release && a.patch == b.patch ==> !is_newer(a, b),
{
}

/// Every bump gives a newer version: within the year a patch or a release
/// bump, and a year bump or any bump once the calendar year is past the
/// version's.
pub proof fn lemma_bumps_are_newer(v: LibraryVersion, bump: Bump, year: u32)
    requires
        bump != Bump::Nothing,
        year >= v.year,
        year > v.year || bump != Bump::Year,
        year == v.year && bump == Bump::Patch ==> v.patch < u32::MAX,
        year == v.year && bump == Bump::Release ==> v.release < u32::MAX,
    ensures
        is_newer(next_of(v, bump, year), v),
{
}

/// A path inside a folder of the checkout: the folder itself, or anything
/// below it.
pub open spec fn inside(path: Seq<char>, folder: Seq<char>) -> bool {
    path == folder || (path.len() >= folder.len() + 1 && path.take(folder.len() + 1int) == folder + "/"@)
}

proof fn lemma_inside_is_under(path: Seq<char>, dir: Seq<char>)
    ensures
        inside(path, dir) <==> is_under(path, dir),
{
    reveal_strlit("/");
    if is_under(path, dir) && path != dir {
        assert(path.take(dir.len() + 1int) =~= dir + "/"@);
        if path.len() == dir.len() + 1 {
            assert(path =~= dir + "/"@);
        }
    }
    if inside(path, dir) && path != dir {
        let with_slash = dir + "/"@;
        assert(path.take(dir.len() + 1int) == with_slash);
        assert(with_slash.take(dir.len() as int) =~= dir);
        assert(with_slash[dir.len() as int] == '/');
        assert(path.take(dir.len() as int) =~= path.take(dir.len() + 1int).take(dir.len() as int));
        assert(path[dir.len() as int] == path.take(dir.len() + 1int)[dir.len() as int]);
    }
}

/// What a release ships decides the bump: a change to anything under
/// `presets/`, `demos/` or `resources/`, or to `taxonomy.toml`, needs at
/// least a patch release, and a list of changes touching none of them needs
/// nothing. An added `.syx` under `presets/` needs a release.
pub proof fn lemma_shipped_paths_need_a_bump(changes: Seq<(Change, Seq<char>)>)
    ensures
        (exists|i: int|
            0 <= i < changes.len() && (inside(#[trigger] changes[i].1, "presets"@) || inside(changes[i].1, "demos"@)
                || inside(changes[i].1, "resources"@) || changes[i].1 == "taxonomy.toml"@)) ==> classify_of(changes)
            != Bump::Nothing,
        (forall|i: int|
            0 <= i < changes.len() ==> !inside(#[trigger] changes[i].1, "presets"@) && !inside(changes[i].1, "demos"@)
                && !inside(changes[i].1, "resources"@) && changes[i].1 != "taxonomy.toml"@) ==> classify_of(changes)
            == Bump::Nothing,
        (exists|i: int|
            0 <= i < changes.len() && changes[i].0 == Change::Added && inside(#[trigger] changes[i].1, "presets"@)
                && has_syx_extension(changes[i].1)) ==> classify_of(changes) == Bump::Release,
{
    assert forall|p: Seq<char>| #[trigger] ships(p) <==> (inside(p, "presets"@) || inside(p, "demos"@) || inside(
        p,
        "resources"@,
    ) || p == "taxonomy.toml"@) by {
        lemma_inside_is_under(p, "presets"@);
        lemma_inside_is_under(p, "demos"@);
        lemma_inside_is_under(p, "resources"@);
    }
    assert forall|c: Change, p: Seq<char>| #[trigger] adds_program(c, p) <==> (c == Change::Added && inside(
        p,
        "presets"@,
    ) && has_syx_extension(p)) by {
        lemma_inside_is_under(p, "presets"@);
    }
    if exists|i: int|
        0 <= i < changes.len() && (inside(#[trigger] changes[i].1, "presets"@) || inside(changes[i].1, "demos"@)
            || inside(changes[i].1, "resources"@) || changes[i].1 == "taxonomy.toml"@) {
        let i = choose|i: int|
            0 <= i < changes.len() && (inside(#[trigger] changes[i].1, "presets"@) || inside(changes[i].1, "demos"@)
                || inside(changes[i].1, "resources"@) || changes[i].1 == "taxonomy.toml"@);
        assert(ships(changes[i].1));
    }
    if exists|i: int|
        0 <= i < changes.len() && changes[i].0 == Change::Added && inside(#[trigger] changes[i].1, "presets"@)
            && has_syx_extension(changes[i].1) {
        let i = choose|i: int|
            0 <= i < changes.len() && changes[i].0 == Change::Added && inside(#[trigger] changes[i].1, "presets"@)
                && has_syx_extension(changes[i].1);
        assert(adds_program(changes[i].0, changes[i].1));
    }
}

} // verus!
