//! A checkout of the repository: every patch, demo and icon it holds.
//!
//! A [`Scan`] is filled from what a reader finds on disk, file by file, and
//! records what it could not read. [`crate::rules`] turns a scan into
//! findings. [`Library::from_scan`] hands back typed patches for every slot
//! that is whole, which is what an application wants; a validator wants the
//! scan. [`Library::open_scan`] does both, refusing a scan the rules find
//! errors in.

use vstd::prelude::*;

use crate::category::{foldered, name_of, named, Category};
use crate::derived::{derived_from, Derived};
use crate::document::{read_toml, toml_read, Document, TomlValue};
use crate::fingerprint::{hex_of, sha256, sha256_hex, sound_bytes, Fingerprint};
use crate::icon::{icon_read, Icon};
use crate::meta::{
    demo_stem_of_variant, first, icon_problem, list_of, opt_text_at, opt_view, optional_text_problem,
    Demo, PatchMeta,
};
use crate::order::{lemma_lex_total, lemma_lex_transitive, lemma_slot_key_injective, lex_less, slot_key, slot_key_less};
use crate::program::{dump_fits, StoredProgram, SyxEntry};
use crate::slug::{id, id_of, stem_of};
use crate::taxonomy::Taxonomy;
use crate::text::{owned, push_str, str_eq};
use crate::error::Error;
use crate::rules::{count_errors, err, note, notes, run, scan_errors};
use crate::validate::Finding;

verus! {

/// One icon file under `resources/icons/`.
#[derive(Debug, Clone, PartialEq, Eq)]
pub struct IconFile {
    /// The picture.
    pub icon: Icon,
    /// What it shows, one line.
    pub about: Option<String>,
}

/// The icons a checkout carries: one per category, plus badges.
#[derive(Debug, Clone, PartialEq, Eq, Default)]
pub struct Icons {
    /// By category name, in file order. Complete in a valid checkout.
    pub categories: Vec<(String, Icon)>,
    /// By file stem, in file order: `arp`, `seq`, `unison`, `fx`.
    pub badges: Vec<(String, Icon)>,
}

/// The icon a list holds under a key: the first entry with it.
pub open spec fn icon_under(list: Seq<(String, Icon)>, key: Seq<char>) -> Option<Icon>
    decreases list.len(),
{
    if list.len() == 0 {
        None
    } else if list[0].0@ == key {
        Some(list[0].1)
    } else {
        icon_under(list.drop_first(), key)
    }
}

impl Icons {
    /// The icon for a category, if present.
    pub fn category(&self, category: Category) -> (r: Option<&Icon>)
        ensures
            match icon_under(self.categories@, name_of(category)) {
                Some(i) => r == Some(&i),
                None => r is None,
            },
    {
        let key = category.name();
        let mut i: usize = 0;
        assert(self.categories@.skip(0) == self.categories@);
        while i < self.categories.len()
            invariant
                i <= self.categories@.len(),
                key@ == name_of(category),
                icon_under(self.categories@, key@) == icon_under(self.categories@.skip(i as int), key@),
            decreases self.categories@.len() - i,
        {
            assert(self.categories@.skip(i as int).drop_first() == self.categories@.skip(i + 1));
            if str_eq(self.categories[i].0.as_str(), key) {
                return Some(&self.categories[i].1);
            }
            i = i + 1;
        }
        None
    }
}

/// `resources/palette.toml`: named colours, grouped. Carried, not
/// interpreted.
pub type Palette = Vec<(String, Vec<(String, String)>)>;

/// One filename stem in one folder: the `.syx`, the `.toml`, and whatever
/// reading them produced. What the validator looks at.
pub struct Slot {
    /// Folder relative to the root: `presets/Pad/Aurora Pads`.
    pub folder: String,
    /// The first folder under `presets/`, which should be a category name.
    pub category_dir: String,
    /// The second folder, if any.
    pub collection: Option<String>,
    /// Folders below the category beyond the one allowed collection.
    pub extra_depth: usize,
    /// The filename without extension.
    pub stem: String,
    /// The `.syx` path relative to the root, if present.
    pub syx: Option<String>,
    /// The `.toml` path relative to the root, if present.
    pub toml: Option<String>,
    /// The `.toml` text, if it could be read.
    pub toml_text: Option<String>,
    /// The parsed metadata, if it parsed.
    pub meta: Option<PatchMeta>,
    /// The `.syx` bytes, if they could be read.
    pub bytes: Option<Vec<u8>>,
    /// Every program the file carried, with the slot each names.
    pub programs: Vec<SyxEntry>,
}

impl Slot {
    /// The one program, when the file holds exactly one.
    pub fn program(&self) -> (r: Option<&StoredProgram>)
        ensures
            self.programs@.len() == 1 ==> r == Some(&self.programs@[0].program),
            self.programs@.len() != 1 ==> r is None,
    {
        if self.programs.len() == 1 {
            Some(&self.programs[0].program)
        } else {
            None
        }
    }
}

/// Everything read from a checkout, including what failed to read.
pub struct Scan {
    /// The checkout root.
    pub root: String,
    /// The vocabularies, if the file parsed.
    pub taxonomy: Option<Taxonomy>,
    /// The icons that parsed.
    pub icons: Icons,
    /// The palette, if present and parsed.
    pub palette: Option<Palette>,
    /// Every stem under `presets/`, in path order.
    pub slots: Vec<Slot>,
    /// Every file under `demos/`, relative to the root, in walk order.
    pub demo_files: Vec<String>,
    /// What reading each file of `demo_files` gave: its bytes, or the
    /// system's message.
    pub demo_reads: Vec<Result<Vec<u8>, String>>,
    /// Every file under the root that no rule accounts for.
    pub stray: Vec<String>,
    /// Problems met while reading, before any rule ran.
    pub problems: Vec<Finding>,
}

/// One valid patch.
pub struct Patch {
    /// `bass/acid-growl-nyx`.
    pub id: String,
    /// The folder, which the program byte agrees with.
    pub category: Category,
    /// The collection folder, if any.
    pub collection: Option<String>,
    /// The filename stem.
    pub stem: String,
    /// The `.syx` relative to the root.
    pub syx_path: String,
    /// The `.toml` relative to the root.
    pub toml_path: String,
    /// What the author wrote.
    pub meta: PatchMeta,
    /// The program.
    pub program: StoredProgram,
    /// What the program says.
    pub derived: Derived,
    /// Identity of the sound.
    pub fingerprint: Fingerprint,
    /// SHA-256 of the `.syx` file, hex.
    pub sha256: String,
    /// The `.syx` bytes.
    pub bytes: Vec<u8>,
}

/// Where a demo of a patch lives: `demos/<category>/[<collection>/]<file>`.
pub open spec fn demo_path_of(
    category_dir: Seq<char>,
    collection: Option<Seq<char>>,
    file: Seq<char>,
) -> Seq<char> {
    match collection {
        Some(c) => "demos/"@ + category_dir + "/"@ + c + "/"@ + file,
        None => "demos/"@ + category_dir + "/"@ + file,
    }
}

/// Builds `demos/<category>/[<collection>/]<file>`.
pub fn demo_path_in(category_dir: &str, collection: &Option<String>, file: &str) -> (r: String)
    ensures
        r@ == demo_path_of(category_dir@, opt_view(*collection), file@),
{
    let mut path = owned("demos/");
    push_str(&mut path, category_dir);
    push_str(&mut path, "/");
    match collection {
        Some(c) => {
            push_str(&mut path, c.as_str());
            push_str(&mut path, "/");
        },
        None => {},
    }
    push_str(&mut path, file);
    path
}

impl Patch {
    /// The path a demo lives at, relative to the root.
    pub fn demo_path(&self, demo: &Demo) -> (r: String)
        ensures
            r@ == demo_path_of(
                name_of(self.category),
                opt_view(self.collection),
                demo_stem_of_variant(self.meta, *demo) + ".mp3"@,
            ),
    {
        let file = self.meta.demo_file_name(demo);
        demo_path_in(self.category.name(), &self.collection, file.as_str())
    }
}

/// A valid checkout.
pub struct Library {
    /// The checkout root.
    pub root: String,
    /// The vocabularies.
    pub taxonomy: Taxonomy,
    /// The icons.
    pub icons: Icons,
    /// The palette, if any.
    pub palette: Option<Palette>,
    /// The patches, sorted by id.
    pub patches: Vec<Patch>,
}

/// Whether text comes strictly before other text, character by character, a
/// prefix first: how `String` orders.
pub open spec fn text_less(a: Seq<char>, b: Seq<char>) -> bool
    decreases a.len(),
{
    if b.len() == 0 {
        false
    } else if a.len() == 0 {
        true
    } else if a[0] != b[0] {
        a[0] < b[0]
    } else {
        text_less(a.drop_first(), b.drop_first())
    }
}

impl Library {
    /// The patches, sorted by id.
    pub closed spec fn patch_list(&self) -> Seq<Patch> {
        self.patches@
    }

    /// The category icons the library carries.
    pub closed spec fn category_icons(&self) -> Seq<(String, Icon)> {
        self.icons.categories@
    }

    /// Every patch, sorted by id.
    pub fn patches(&self) -> (r: &[Patch])
        ensures
            r@ == self.patch_list(),
    {
        self.patches.as_slice()
    }

    /// One patch by id: the first with it.
    pub fn patch(&self, id: &str) -> (r: Option<&Patch>)
        ensures
            match r {
                Some(p) => exists|i: int|
                    0 <= i < self.patch_list().len() && self.patch_list()[i] == *p && p.id@ == id@
                        && forall|j: int| 0 <= j < i ==> (#[trigger] self.patch_list()[j]).id@ != id@,
                None => forall|j: int|
                    0 <= j < self.patch_list().len() ==> (#[trigger] self.patch_list()[j]).id@ != id@,
            },
    {
        let mut i: usize = 0;
        while i < self.patches.len()
            invariant
                i <= self.patches@.len(),
                forall|j: int| 0 <= j < i ==> (#[trigger] self.patches@[j]).id@ != id@,
            decreases self.patches@.len() - i,
        {
            if str_eq(self.patches[i].id.as_str(), id) {
                return Some(&self.patches[i]);
            }
            i = i + 1;
        }
        None
    }

    /// The patches in one category, in id order.
    pub fn in_category(&self, category: Category) -> (r: Vec<&Patch>)
        ensures
            r@.len() <= self.patch_list().len(),
            forall|k: int| 0 <= k < r@.len() ==> (#[trigger] r@[k]).category == category,
            r@.map_values(|p: &Patch| *p) == self.patch_list().filter(|p: Patch| p.category == category),
    {
        let mut out: Vec<&Patch> = Vec::new();
        let mut i: usize = 0;
        while i < self.patches.len()
            invariant
                i <= self.patches@.len(),
                out@.map_values(|p: &Patch| *p) == self.patches@.take(i as int).filter(
                    |p: Patch| p.category == category,
                ),
                out@.len() <= i,
                forall|k: int| 0 <= k < out@.len() ==> (#[trigger] out@[k]).category == category,
            decreases self.patches@.len() - i,
        {
            let ghost before = out@;
            if self.patches[i].category == category {
                out.push(&self.patches[i]);
                assert(out@.map_values(|p: &Patch| *p) =~= before.map_values(|p: &Patch| *p).push(
                    self.patches@[i as int],
                ));
            } else {
                assert(out@ == before);
            }
            assert(self.patches@.take(i + 1).filter(|p: Patch| p.category == category)
                == out@.map_values(|p: &Patch| *p)) by {
                let s = self.patches@.take(i + 1);
                reveal(Seq::filter);
                assert(s.drop_last() =~= self.patches@.take(i as int));
                assert(s.last() == self.patches@[i as int]);
            }
            i = i + 1;
        }
        assert(self.patches@.take(self.patches@.len() as int) =~= self.patches@);
        out
    }

    /// The patch whose current bytes carry a fingerprint: the first.
    pub fn by_fingerprint(&self, fingerprint: &Fingerprint) -> (r: Option<&Patch>)
        ensures
            match r {
                Some(p) => exists|i: int|
                    0 <= i < self.patch_list().len() && self.patch_list()[i] == *p && p.fingerprint.0@
                        == fingerprint.0@ && forall|j: int|
                        0 <= j < i ==> (#[trigger] self.patch_list()[j]).fingerprint.0@ != fingerprint.0@,
                None => forall|j: int|
                    0 <= j < self.patch_list().len() ==> (#[trigger] self.patch_list()[j]).fingerprint.0@
                        != fingerprint.0@,
            },
    {
        let mut i: usize = 0;
        while i < self.patches.len()
            invariant
                i <= self.patches@.len(),
                forall|j: int| 0 <= j < i ==> (#[trigger] self.patches@[j]).fingerprint.0@ != fingerprint.0@,
            decreases self.patches@.len() - i,
        {
            if self.patches[i].fingerprint.same(fingerprint) {
                return Some(&self.patches[i]);
            }
            i = i + 1;
        }
        None
    }

    /// The icon to show for a patch: its own, else its category's, else blank.
    pub fn icon_for(&self, patch: &Patch) -> (r: Icon)
        ensures
            r.bits() == match patch.meta.icon {
                Some(i) => i.bits(),
                None => match icon_under(self.category_icons(), name_of(patch.category)) {
                    Some(i) => i.bits(),
                    None => seq![0u8, 0, 0, 0, 0, 0, 0],
                },
            },
    {
        match &patch.meta.icon {
            Some(icon) => *icon,
            None => match self.icons.category(patch.category) {
                Some(icon) => *icon,
                None => Icon::blank(),
            },
        }
    }
}

/// Where the last `c` in a text is, or -1.
pub open spec fn last_index(s: Seq<char>, c: char) -> int
    decreases s.len(),
{
    if s.len() == 0 {
        -1
    } else if s.last() == c {
        s.len() - 1
    } else {
        last_index(s.drop_last(), c)
    }
}

pub(crate) proof fn lemma_last_index(s: Seq<char>, c: char)
    ensures
        -1 <= last_index(s, c) < s.len(),
        last_index(s, c) >= 0 ==> s[last_index(s, c)] == c,
        forall|j: int| last_index(s, c) < j < s.len() ==> s[j] != c,
    decreases s.len(),
{
    if s.len() > 0 && s.last() != c {
        lemma_last_index(s.drop_last(), c);
        assert forall|j: int| last_index(s, c) < j < s.len() implies s[j] != c by {
            if j < s.len() - 1 {
                assert(s.drop_last()[j] == s[j]);
            }
        }
    }
}

proof fn lemma_last_index_is(s: Seq<char>, c: char, k: int)
    requires
        0 <= k < s.len(),
        s[k] == c,
        forall|j: int| k < j < s.len() ==> s[j] != c,
    ensures
        last_index(s, c) == k,
    decreases s.len(),
{
    if k < s.len() - 1 {
        assert(s.drop_last()[k] == s[k]);
        assert forall|j: int| k < j < s.drop_last().len() implies s.drop_last()[j] != c by {
            assert(s.drop_last()[j] == s[j]);
        }
        lemma_last_index_is(s.drop_last(), c, k);
    }
}

pub(crate) fn find_last(s: &[char], c: char) -> (r: Option<usize>)
    ensures
        match r {
            Some(i) => i == last_index(s@, c),
            None => last_index(s@, c) == -1,
        },
{
    proof {
        lemma_last_index(s@, c);
    }
    let mut i: usize = s.len();
    while i > 0
        invariant
            i <= s@.len(),
            last_index(s@, c) < i,
            last_index(s@, c) >= 0 ==> s@[last_index(s@, c)] == c,
            forall|j: int| i <= j < s@.len() ==> s@[j] != c,
        decreases i,
    {
        if s[i - 1] == c {
            proof {
                lemma_last_index_is(s@, c, i - 1);
            }
            return Some(i - 1);
        }
        i = i - 1;
    }
    None
}

/// The folder a relative path sits in: everything before its last `/`.
pub open spec fn folder_of(path: Seq<char>) -> Seq<char> {
    let i = last_index(path, '/');
    if i < 0 {
        seq![]
    } else {
        path.take(i)
    }
}

/// The file name of a relative path: everything after its last `/`.
pub open spec fn file_name_of(path: Seq<char>) -> Seq<char> {
    path.skip(last_index(path, '/') + 1)
}

/// The stem of a file name: before its last `.`, unless that is its first
/// character.
pub open spec fn file_stem_of(name: Seq<char>) -> Seq<char> {
    let i = last_index(name, '.');
    if i <= 0 {
        name
    } else {
        name.take(i)
    }
}

/// The extension of a file name: after its last `.`, unless that is its
/// first character.
pub open spec fn extension_of(name: Seq<char>) -> Option<Seq<char>> {
    let i = last_index(name, '.');
    if i <= 0 {
        None
    } else {
        Some(name.skip(i + 1))
    }
}

/// The file name, stem and extension of a relative path.
pub fn path_parts(path: &str) -> (r: (String, String, String, Option<String>))
    ensures
        r.0@ == folder_of(path@),
        r.1@ == file_name_of(path@),
        r.2@ == file_stem_of(file_name_of(path@)),
        opt_view(r.3) == extension_of(file_name_of(path@)),
{
    let chars = crate::text::chars_of(path);
    proof {
        lemma_last_index(chars@, '/');
    }
    let n = chars.len();
    let (folder, name) = match find_last(chars.as_slice(), '/') {
        Some(i) => {
            assert(i < n);
            (
            crate::text::slice_of(chars.as_slice(), 0, i),
            crate::text::slice_of(chars.as_slice(), i + 1, chars.len()),
        )
        },
        None => (Vec::new(), crate::text::slice_of(chars.as_slice(), 0, chars.len())),
    };
    proof {
        assert(chars@.take(chars@.len() as int) =~= chars@);
        assert(chars@.skip(0) =~= chars@);
        lemma_last_index(name@, '.');
    }
    let (stem, extension) = match find_last(name.as_slice(), '.') {
        Some(j) => if j == 0 {
            (crate::text::string_of(name.as_slice()), None)
        } else {
            let st = crate::text::slice_of(name.as_slice(), 0, j);
            let ex = crate::text::slice_of(name.as_slice(), j + 1, name.len());
            (crate::text::string_of(st.as_slice()), Some(crate::text::string_of(ex.as_slice())))
        },
        None => (crate::text::string_of(name.as_slice()), None),
    };
    (crate::text::string_of(folder.as_slice()), crate::text::string_of(name.as_slice()), stem, extension)
}

/// How a file under `presets/` is read: as a program dump, as metadata, or
/// not at all.
#[derive(Debug, Clone, Copy, PartialEq, Eq, Structural)]
pub enum PresetKind {
    /// A `.syx`, extension compared without case.
    Syx,
    /// A `.toml`, extension compared without case.
    Toml,
    /// Anything else.
    Stray,
}

/// ASCII letters lowered, the rest kept.
pub open spec fn lower_text(s: Seq<char>) -> Seq<char> {
    s.map_values(|c: char| crate::text::lower(c))
}

/// How a file at a relative path under `presets/` is read.
pub open spec fn preset_kind(path: Seq<char>) -> PresetKind {
    match extension_of(file_name_of(path)) {
        None => PresetKind::Stray,
        Some(e) => if lower_text(e) == "syx"@ {
            PresetKind::Syx
        } else if lower_text(e) == "toml"@ {
            PresetKind::Toml
        } else {
            PresetKind::Stray
        },
    }
}

fn lowered(s: &str) -> (r: String)
    ensures
        r@ == lower_text(s@),
{
    let chars = crate::text::chars_of(s);
    let mut out = String::new();
    let mut i: usize = 0;
    while i < chars.len()
        invariant
            i <= chars@.len(),
            out@ == lower_text(chars@.take(i as int)),
        decreases chars@.len() - i,
    {
        crate::text::push_char(&mut out, crate::text::to_lower(chars[i]));
        assert(lower_text(chars@.take(i + 1)) =~= lower_text(chars@.take(i as int)).push(
            crate::text::lower(chars@[i as int]),
        ));
        i = i + 1;
    }
    assert(chars@.take(chars@.len() as int) =~= chars@);
    out
}

/// How a file at a relative path under `presets/` is read.
pub fn classify_preset(path: &str) -> (r: PresetKind)
    ensures
        r == preset_kind(path@),
{
    let (_, _, _, extension) = path_parts(path);
    match extension {
        None => PresetKind::Stray,
        Some(e) => {
            let low = lowered(e.as_str());
            if str_eq(low.as_str(), "syx") {
                PresetKind::Syx
            } else if str_eq(low.as_str(), "toml") {
                PresetKind::Toml
            } else {
                PresetKind::Stray
            }
        },
    }
}

/// The folders of a path below `presets/`.
pub open spec fn folder_parts(folder: Seq<char>) -> Seq<Seq<char>> {
    let c = crate::text::split(folder, '/');
    if c.len() > 0 && c[0] == "presets"@ {
        c.drop_first()
    } else {
        c
    }
}

/// The key a slot sorts by.
pub open spec fn key_of(s: Slot) -> Seq<int> {
    slot_key(s.folder@, s.stem@)
}

/// Whether slots are in key order, each key once.
pub open spec fn slots_sorted(slots: Seq<Slot>) -> bool {
    forall|i: int, j: int| 0 <= i < j < slots.len() ==> lex_less(#[trigger] key_of(slots[i]), #[trigger] key_of(slots[j]))
}

/// Whether every program a slot holds is whole.
pub open spec fn slot_programs_wf(s: Slot) -> bool {
    forall|j: int| 0 <= j < s.programs@.len() ==> (#[trigger] s.programs@[j]).program.wf() && (
    s.programs@[j].slot matches Some(x) ==> x.0 < 8 && x.1 < 128)
}

/// Whether every program every slot holds is whole.
pub open spec fn programs_wf(slots: Seq<Slot>) -> bool {
    forall|i: int| 0 <= i < slots.len() ==> slot_programs_wf(#[trigger] slots[i])
}

/// Whether a slot is a fresh one for a stem in a folder: named by the
/// folder's parts, nothing read yet.
pub open spec fn fresh_slot(s: Slot, folder: Seq<char>, stem: Seq<char>) -> bool {
    let parts = folder_parts(folder);
    &&& s.folder@ == folder
    &&& s.stem@ == stem
    &&& s.category_dir@ == (if parts.len() > 0 { parts[0] } else { seq![] })
    &&& opt_view(s.collection) == (if parts.len() > 1 { Some(parts[1]) } else { None })
    &&& s.extra_depth == (if parts.len() > 2 { parts.len() - 2 } else { 0 })
    &&& s.syx is None
    &&& s.toml is None
    &&& s.toml_text is None
    &&& s.meta is None
    &&& s.bytes is None
    &&& s.programs@.len() == 0
}

fn fresh(folder: &str, stem: &str) -> (r: Slot)
    ensures
        fresh_slot(r, folder@, stem@),
{
    let chars = crate::text::chars_of(folder);
    let all = crate::text::split_chars(chars.as_slice(), '/');
    proof {
        crate::text::lemma_split_nonempty(chars@, '/');
    }
    let first = crate::text::string_of(all[0].as_slice());
    let start: usize = if str_eq(first.as_str(), "presets") {
        1
    } else {
        0
    };
    assert(crate::text::views(all@)[0] == all@[0]@);
    let ghost parts = folder_parts(folder@);
    assert(parts =~= crate::text::views(all@).skip(start as int));
    let n = all.len() - start;
    let category_dir = if n > 0 {
        crate::text::string_of(all[start].as_slice())
    } else {
        String::new()
    };
    let collection = if n > 1 {
        Some(crate::text::string_of(all[start + 1].as_slice()))
    } else {
        None
    };
    let extra_depth: usize = if n > 2 {
        n - 2
    } else {
        0
    };
    Slot {
        folder: owned(folder),
        category_dir,
        collection,
        extra_depth,
        stem: owned(stem),
        syx: None,
        toml: None,
        toml_text: None,
        meta: None,
        bytes: None,
        programs: Vec::new(),
    }
}

/// Whether a scan is empty but for its root.
pub open spec fn empty_scan(s: Scan, root: Seq<char>) -> bool {
    &&& s.root@ == root
    &&& s.taxonomy is None
    &&& s.icons.categories@.len() == 0
    &&& s.icons.badges@.len() == 0
    &&& s.palette is None
    &&& s.slots@.len() == 0
    &&& s.demo_files@.len() == 0
    &&& s.demo_reads@.len() == 0
    &&& s.stray@.len() == 0
    &&& s.problems@.len() == 0
}

impl Scan {
    /// A scan of a checkout at a root, with nothing read yet.
    pub fn new(root: &str) -> (s: Scan)
        ensures
            empty_scan(s, root@),
    {
        Scan {
            root: owned(root),
            taxonomy: None,
            icons: Icons { categories: Vec::new(), badges: Vec::new() },
            palette: None,
            slots: Vec::new(),
            demo_files: Vec::new(),
            demo_reads: Vec::new(),
            stray: Vec::new(),
            problems: Vec::new(),
        }
    }

    /// Whether the slots are in key order.
    pub open spec fn wf(&self) -> bool {
        &&& slots_sorted(self.slots@)
        &&& programs_wf(self.slots@)
        &&& self.demo_reads@.len() == self.demo_files@.len()
    }

    /// Where a stem in a folder sits among the slots, and whether it is
    /// there.
    fn slot_position(&self, folder: &str, stem: &str) -> (r: (usize, bool))
        requires
            self.wf(),
        ensures
            r.0 <= self.slots@.len(),
            forall|j: int| 0 <= j < r.0 ==> lex_less(#[trigger] key_of(self.slots@[j]), slot_key(folder@, stem@)),
            r.1 ==> r.0 < self.slots@.len() && self.slots@[r.0 as int].folder@ == folder@
                && self.slots@[r.0 as int].stem@ == stem@,
            !r.1 ==> forall|j: int| r.0 <= j < self.slots@.len() ==> lex_less(slot_key(folder@, stem@), #[trigger] key_of(self.slots@[j])),
    {
        let ghost k = slot_key(folder@, stem@);
        let mut i: usize = 0;
        while i < self.slots.len() && slot_key_less(
            self.slots[i].folder.as_str(),
            self.slots[i].stem.as_str(),
            folder,
            stem,
        )
            invariant
                i <= self.slots@.len(),
                k == slot_key(folder@, stem@),
                forall|j: int| 0 <= j < i ==> lex_less(#[trigger] key_of(self.slots@[j]), k),
            decreases self.slots@.len() - i,
        {
            i = i + 1;
        }
        if i < self.slots.len() && str_eq(self.slots[i].folder.as_str(), folder) && str_eq(
            self.slots[i].stem.as_str(),
            stem,
        ) {
            return (i, true);
        }
        proof {
            if i < self.slots@.len() {
                let ki = key_of(self.slots@[i as int]);
                assert(!lex_less(ki, k));
                if ki == k {
                    lemma_slot_key_injective(self.slots@[i as int].folder@, self.slots@[i as int].stem@, folder@, stem@);
                }
                lemma_lex_total(ki, k);
                assert forall|j: int| i <= j < self.slots@.len() implies lex_less(k, #[trigger] key_of(self.slots@[j])) by {
                    if j > i {
                        assert(lex_less(key_of(self.slots@[i as int]), key_of(self.slots@[j])));
                        lemma_lex_transitive(k, ki, key_of(self.slots@[j]));
                    }
                }
            }
        }
        (i, false)
    }

    /// The index of the slot for a stem in a folder, made fresh if there was
    /// none.
    fn slot_for(&mut self, folder: &str, stem: &str) -> (i: usize)
        requires
            old(self).wf(),
        ensures
            final(self).wf(),
            i < final(self).slots@.len(),
            i <= old(self).slots@.len(),
            final(self).slots@[i as int].folder@ == folder@,
            final(self).slots@[i as int].stem@ == stem@,
            final(self).slots@ == old(self).slots@ || (final(self).slots@ == old(self).slots@.insert(
                i as int,
                final(self).slots@[i as int],
            ) && fresh_slot(final(self).slots@[i as int], folder@, stem@)),
            final(self).root == old(self).root,
            final(self).taxonomy == old(self).taxonomy,
            final(self).icons == old(self).icons,
            final(self).palette == old(self).palette,
            final(self).demo_files == old(self).demo_files,
            final(self).demo_reads == old(self).demo_reads,
            final(self).stray == old(self).stray,
            final(self).problems == old(self).problems,
    {
        let (i, found) = self.slot_position(folder, stem);
        if found {
            return i;
        }
        let slot = fresh(folder, stem);
        let ghost before = self.slots@;
        let ghost k = slot_key(folder@, stem@);
        self.slots.insert(i, slot);
        proof {
            let after = self.slots@;
            assert(key_of(after[i as int]) == k);
            assert forall|a: int, b: int| 0 <= a < b < after.len() implies lex_less(#[trigger] key_of(after[a]), #[trigger] key_of(after[b])) by {
                if b < i {
                    assert(after[a] == before[a] && after[b] == before[b]);
                } else if b == i {
                    assert(after[a] == before[a]);
                } else if a == i {
                    assert(after[b] == before[b - 1]);
                } else if a < i {
                    assert(after[a] == before[a] && after[b] == before[b - 1]);
                    lemma_lex_transitive(key_of(before[a]), k, key_of(before[b - 1]));
                } else {
                    assert(after[a] == before[a - 1] && after[b] == before[b - 1]);
                }
            }
            assert forall|a: int| 0 <= a < after.len() implies slot_programs_wf(#[trigger] after[a]) by {
                if a < i {
                    assert(after[a] == before[a]);
                } else if a > i {
                    assert(after[a] == before[a - 1]);
                }
            }
        }
        i
    }
}

/// A program entry as plain values: the slot it names and the program.
pub open spec fn entry_view(e: SyxEntry) -> (Option<(u8, u8)>, (u8, Seq<u8>)) {
    (e.slot, e.program@)
}

/// The programs that read, in order.
pub open spec fn read_programs(
    es: Seq<Result<(Option<(u8, u8)>, (u8, Seq<u8>)), Seq<char>>>,
) -> Seq<(Option<(u8, u8)>, (u8, Seq<u8>))>
    decreases es.len(),
{
    if es.len() == 0 {
        seq![]
    } else {
        match es.last() {
            Ok(p) => read_programs(es.drop_last()).push(p),
            Err(_) => read_programs(es.drop_last()),
        }
    }
}

/// The frames that did not read, in order: each as the finding's message.
pub open spec fn frame_problems(
    es: Seq<Result<(Option<(u8, u8)>, (u8, Seq<u8>)), Seq<char>>>,
) -> Seq<Seq<char>>
    decreases es.len(),
{
    if es.len() == 0 {
        seq![]
    } else {
        match es.last() {
            Ok(_) => frame_problems(es.drop_last()),
            Err(m) => frame_problems(es.drop_last()).push("a frame did not parse: "@ + m),
        }
    }
}

/// Messages as errors on one path.
pub open spec fn errors_on(path: Seq<char>, messages: Seq<Seq<char>>) -> Seq<crate::rules::Note> {
    messages.map_values(|m: Seq<char>| err(path, m))
}

/// The message reading text gives for bytes that are not UTF-8.
pub open spec fn not_utf8() -> Seq<char> {
    "stream did not contain valid UTF-8"@
}

/// Whether `after` is slot `before` once one of its files was read: the
/// path recorded; for a `.syx`, the bytes kept and the programs they hold
/// added, in order; for a `.toml`, its text kept and, where it parses, the
/// metadata. Nothing else changes, and nothing changes but the path where
/// the read failed.
pub open spec fn slot_filed(before: Slot, after: Slot, path: Seq<char>, read: Result<Vec<u8>, String>, kind: PresetKind) -> bool {
    &&& after.folder == before.folder
    &&& after.stem == before.stem
    &&& after.category_dir == before.category_dir
    &&& after.collection == before.collection
    &&& after.extra_depth == before.extra_depth
    &&& match kind {
        PresetKind::Syx => {
            &&& opt_view(after.syx) == Some(path)
            &&& after.toml == before.toml
            &&& after.toml_text == before.toml_text
            &&& after.meta == before.meta
            &&& match read {
                Ok(b) => after.bytes == Some(b) && after.programs@.map_values(|e: SyxEntry| entry_view(e))
                    == before.programs@.map_values(|e: SyxEntry| entry_view(e)) + read_programs(
                    crate::program::syx_entries(b@),
                ),
                Err(_) => after.bytes == before.bytes && after.programs == before.programs,
            }
        },
        PresetKind::Toml => {
            &&& opt_view(after.toml) == Some(path)
            &&& after.syx == before.syx
            &&& after.bytes == before.bytes
            &&& after.programs == before.programs
            &&& match read {
                Ok(b) => if vstd::utf8::valid_utf8(b@) {
                    let text = vstd::utf8::decode_utf8(b@);
                    &&& opt_view(after.toml_text) == Some(text)
                    &&& match toml_read(text) {
                        Ok(doc) => match crate::meta::meta_problem(doc@) {
                            None => after.meta matches Some(m) && crate::meta::meta_of(m, doc@),
                            Some(_) => after.meta == before.meta,
                        },
                        Err(_) => after.meta == before.meta,
                    }
                } else {
                    after.toml_text == before.toml_text && after.meta == before.meta
                },
                Err(_) => after.toml_text == before.toml_text && after.meta == before.meta,
            }
        },
        PresetKind::Stray => after == before,
    }
}

/// What filing a preset file records as problems, in order: the read's
/// message where it failed; for a `.syx`, each frame that did not parse; for
/// a `.toml`, text that is not UTF-8 or the first thing wrong with it.
pub open spec fn preset_problems(read: Result<Vec<u8>, String>, kind: PresetKind) -> Seq<Seq<char>> {
    match read {
        Err(m) => if kind == PresetKind::Stray { seq![] } else { seq![m@] },
        Ok(b) => match kind {
            PresetKind::Syx => frame_problems(crate::program::syx_entries(b@)),
            PresetKind::Toml => if vstd::utf8::valid_utf8(b@) {
                match toml_read(vstd::utf8::decode_utf8(b@)) {
                    Err(m) => seq![m@],
                    Ok(doc) => match crate::meta::meta_problem(doc@) {
                        Some(m) => seq![m],
                        None => seq![],
                    },
                }
            } else {
                seq![not_utf8()]
            },
            PresetKind::Stray => seq![],
        },
    }
}

/// Whether filing a file under `presets/` took the slots from `before` to
/// `after` through slot `i`: the slot of the file's stem in its folder, which
/// was there already or is new at `i`, fresh; that slot has the file's read
/// in it and every other slot is as it was.
pub open spec fn preset_filed(before: Seq<Slot>, after: Seq<Slot>, i: int, path: Seq<char>, read: Result<Vec<u8>, String>, kind: PresetKind) -> bool {
    let folder = folder_of(path);
    let stem = file_stem_of(file_name_of(path));
    &&& 0 <= i < after.len()
    &&& after[i].folder@ == folder
    &&& after[i].stem@ == stem
    &&& ((i < before.len() && after == before.update(i, after[i]) && slot_filed(before[i], after[i], path, read, kind))
        || (after == before.insert(i, after[i]) && exists|b: Slot|
        fresh_slot(b, folder, stem) && #[trigger] slot_filed(b, after[i], path, read, kind)))
}

proof fn lemma_preset_filed(
    s0: Seq<Slot>,
    s1: Seq<Slot>,
    after: Seq<Slot>,
    i: int,
    path: Seq<char>,
    read: Result<Vec<u8>, String>,
    kind: PresetKind,
)
    requires
        0 <= i < s1.len(),
        s1[i].folder@ == folder_of(path),
        s1[i].stem@ == file_stem_of(file_name_of(path)),
        i <= s0.len(),
        s1 == s0 || (s1 == s0.insert(i, s1[i]) && fresh_slot(s1[i], folder_of(path), file_stem_of(file_name_of(path)))),
        after.len() == s1.len(),
        forall|j: int| 0 <= j < s1.len() && j != i ==> after[j] == s1[j],
        slot_filed(s1[i], after[i], path, read, kind),
    ensures
        preset_filed(s0, after, i, path, read, kind),
{
    if s1 == s0 {
        assert(after =~= s0.update(i, after[i]));
    } else {
        let ins = s0.insert(i, s1[i]);
        assert(s1 == ins);
        assert(after =~= s0.insert(i, after[i])) by {
            assert forall|j: int| 0 <= j < after.len() implies after[j] == s0.insert(i, after[i])[j] by {
                if j < i {
                    assert(ins[j] == s0[j]);
                    assert(s1[j] == s0[j]);
                } else if j > i {
                    assert(ins[j] == s0[j - 1]);
                }
            }
        }
        assert(fresh_slot(s1[i], folder_of(path), file_stem_of(file_name_of(path))) && slot_filed(s1[i], after[i], path, read, kind));
    }
}

/// Whether a finding is an error on a path with a message and nothing else.
pub open spec fn plain_error(f: Finding, path: Seq<char>, message: Seq<char>) -> bool {
    &&& f.severity == crate::validate::Severity::Error
    &&& f.path@ == path
    &&& f.line is None
    &&& f.message@ == message
    &&& f.hint is None
}

impl Scan {
    fn problem(&mut self, path: &str, message: &str)
        ensures
            final(self).problems@.len() == old(self).problems@.len() + 1,
            forall|i: int| 0 <= i < old(self).problems@.len() ==> final(self).problems@[i] == old(self).problems@[i],
            plain_error(final(self).problems@.last(), path@, message@),
            notes(final(self).problems@) == notes(old(self).problems@).push(err(path@, message@)),
            final(self).root == old(self).root,
            final(self).taxonomy == old(self).taxonomy,
            final(self).icons == old(self).icons,
            final(self).palette == old(self).palette,
            final(self).slots == old(self).slots,
            final(self).demo_files == old(self).demo_files,
            final(self).demo_reads == old(self).demo_reads,
            final(self).stray == old(self).stray,
    {
        let ghost before = self.problems@;
        self.problems.push(Finding::error(path, message));
        assert(notes(self.problems@) =~= notes(before).push(note(self.problems@.last())));
    }

    fn read_frames(&mut self, i: usize, relative: &str, bytes: &[u8])
        requires
            i < old(self).slots@.len(),
        ensures
            programs_wf(old(self).slots@) ==> programs_wf(final(self).slots@),
            final(self).slots@.len() == old(self).slots@.len(),
            forall|j: int| 0 <= j < old(self).slots@.len() && j != i ==> final(self).slots@[j] == old(self).slots@[j],
            final(self).slots@[i as int].folder == old(self).slots@[i as int].folder,
            final(self).slots@[i as int].stem == old(self).slots@[i as int].stem,
            final(self).slots@[i as int].syx == old(self).slots@[i as int].syx,
            final(self).slots@[i as int].toml == old(self).slots@[i as int].toml,
            final(self).slots@[i as int].meta == old(self).slots@[i as int].meta,
            final(self).slots@[i as int].bytes == old(self).slots@[i as int].bytes,
            final(self).slots@[i as int].category_dir == old(self).slots@[i as int].category_dir,
            final(self).slots@[i as int].collection == old(self).slots@[i as int].collection,
            final(self).slots@[i as int].extra_depth == old(self).slots@[i as int].extra_depth,
            final(self).slots@[i as int].toml_text == old(self).slots@[i as int].toml_text,
            final(self).slots@[i as int].programs@.map_values(|e: SyxEntry| entry_view(e))
                == old(self).slots@[i as int].programs@.map_values(|e: SyxEntry| entry_view(e))
                + read_programs(crate::program::syx_entries(bytes@)),
            notes(final(self).problems@) == notes(old(self).problems@) + errors_on(
                relative@,
                frame_problems(crate::program::syx_entries(bytes@)),
            ),
            final(self).root == old(self).root,
            final(self).taxonomy == old(self).taxonomy,
            final(self).icons == old(self).icons,
            final(self).palette == old(self).palette,
            final(self).stray == old(self).stray,
            final(self).demo_files == old(self).demo_files,
            final(self).demo_reads == old(self).demo_reads,
    {
        let entries = crate::program::read_syx(bytes);
        let ghost es = crate::program::syx_entries(bytes@);
        let ghost old_slots = self.slots@;
        let mut slot = self.slots.remove(i);
        let ghost rest = self.slots@;
        let ghost s0 = slot;
        let ghost root0 = self.root;
        let ghost taxonomy0 = self.taxonomy;
        let ghost icons0 = self.icons;
        let ghost palette0 = self.palette;
        let ghost stray0 = self.stray;
        let ghost files0 = self.demo_files;
        let ghost reads0 = self.demo_reads;
        let ghost start = slot.programs@.map_values(|e: SyxEntry| entry_view(e));
        let ghost problems0 = notes(self.problems@);
        let mut k: usize = 0;
        let mut entries = entries;
        let ghost all = entries@;
        let total = entries.len();
        while k < total
            invariant
                total == all.len(),
                k <= all.len(),
                all.len() == es.len(),
                entries@ == all.skip(k as int),
                self.slots@ == rest,
                i <= rest.len(),
                self.root == root0,
                self.taxonomy == taxonomy0,
                self.icons == icons0,
                self.palette == palette0,
                self.stray == stray0,
                self.demo_files == files0,
                self.demo_reads == reads0,
                slot.folder == s0.folder,
                slot.stem == s0.stem,
                slot.syx == s0.syx,
                slot.toml == s0.toml,
                slot.meta == s0.meta,
                slot.bytes == s0.bytes,
                slot.category_dir == s0.category_dir,
                slot.collection == s0.collection,
                slot.extra_depth == s0.extra_depth,
                slot.toml_text == s0.toml_text,
                slot_programs_wf(s0) ==> slot_programs_wf(slot),
                forall|j: int|
                    0 <= j < all.len() ==> match (#[trigger] all[j], es[j]) {
                        (Ok(e), Ok((sl, pr))) => e.slot == sl && e.program@ == pr && dump_fits(pr.0, pr.1.len())
                            && (sl matches Some(x) ==> x.0 < 8 && x.1 < 128),
                        (Err(m), Err(n)) => m@ == n,
                        _ => false,
                    },
                slot.programs@.map_values(|e: SyxEntry| entry_view(e)) == start + read_programs(es.take(k as int)),
                notes(self.problems@) == problems0 + errors_on(relative@, frame_problems(es.take(k as int))),
            decreases all.len() - k,
        {
            assert(all.skip(k as int)[0] == all[k as int]);
            let entry = entries.remove(0);
            assert(entries@ =~= all.skip(k + 1));
            assert(es.take(k + 1).drop_last() =~= es.take(k as int));
            assert(es.take(k + 1).last() == es[k as int]);
            match entry {
                Ok(e) => {
                    let ghost before = slot.programs@;
                    assert(e.program.wf());
                    slot.programs.push(e);
                    assert(slot_programs_wf(s0) ==> slot_programs_wf(slot)) by {
                        if slot_programs_wf(s0) {
                            assert forall|j: int| 0 <= j < slot.programs@.len() implies (#[trigger] slot.programs@[j]).program.wf() && (
                                slot.programs@[j].slot matches Some(x) ==> x.0 < 8 && x.1 < 128) by {
                                if j < before.len() {
                                    assert(slot.programs@[j] == before[j]);
                                }
                            }
                        }
                    }
                    assert(slot.programs@.map_values(|e: SyxEntry| entry_view(e)) =~= before.map_values(|e: SyxEntry| entry_view(e)).push(entry_view(slot.programs@.last())));
                },
                Err(m) => {
                    let mut message = owned("a frame did not parse: ");
                    push_str(&mut message, m.as_str());
                    let ghost before = self.problems@;
                    self.problems.push(Finding::error(relative, message.as_str()));
                    proof {
                        let fp = frame_problems(es.take(k as int));
                        assert(frame_problems(es.take(k + 1)) == fp.push("a frame did not parse: "@ + m@));
                        assert(errors_on(relative@, fp.push("a frame did not parse: "@ + m@)) =~= errors_on(relative@, fp).push(
                            err(relative@, "a frame did not parse: "@ + m@),
                        ));
                        assert(notes(self.problems@) =~= notes(before).push(note(self.problems@.last())));
                    }
                },
            }
            k = k + 1;
        }
        assert(es.take(es.len() as int) =~= es);
        self.slots.insert(i, slot);
        assert forall|j: int| 0 <= j < old_slots.len() && j != i implies self.slots@[j] == old_slots[j] by {
            if j < i {
                assert(self.slots@[j] == rest[j]);
            } else {
                assert(self.slots@[j] == rest[j - 1]);
            }
        }
        proof {
            if programs_wf(old_slots) {
                assert(slot_programs_wf(old_slots[i as int]));
                assert forall|j: int| 0 <= j < self.slots@.len() implies slot_programs_wf(#[trigger] self.slots@[j]) by {
                    if j != i {
                        assert(self.slots@[j] == old_slots[j]);
                    }
                }
            }
        }
    }
}

proof fn lemma_update_sorted(slots: Seq<Slot>, i: int, s: Slot)
    requires
        slots_sorted(slots),
        0 <= i < slots.len(),
        key_of(s) == key_of(slots[i]),
    ensures
        slots_sorted(slots.update(i, s)),
{
    let u = slots.update(i, s);
    assert forall|a: int, b: int| 0 <= a < b < u.len() implies lex_less(#[trigger] key_of(u[a]), #[trigger] key_of(u[b])) by {
        assert(key_of(u[a]) == key_of(slots[a]));
        assert(key_of(u[b]) == key_of(slots[b]));
    }
}

impl Scan {
    /// Records one file found under `presets/`, given as its path relative
    /// to the root and what reading it gave. A `.syx` or `.toml` joins the
    /// slot of its stem in its folder; anything else is stray.
    #[verifier::spinoff_prover]
    #[verifier::rlimit(50)]
    pub fn preset_file(&mut self, relative: &str, read: Result<Vec<u8>, String>)
        requires
            old(self).wf(),
        ensures
            final(self).wf(),
            final(self).root == old(self).root,
            final(self).taxonomy == old(self).taxonomy,
            final(self).icons == old(self).icons,
            final(self).palette == old(self).palette,
            final(self).demo_files == old(self).demo_files,
            final(self).demo_reads == old(self).demo_reads,
            notes(final(self).problems@) == notes(old(self).problems@) + errors_on(
                relative@,
                preset_problems(read, preset_kind(relative@)),
            ),
            preset_kind(relative@) == PresetKind::Stray ==> final(self).stray@.len() == old(
                self,
            ).stray@.len() + 1 && final(self).stray@.drop_last() == old(self).stray@
                && final(self).stray@.last()@ == relative@ && final(self).slots@ == old(self).slots@
                && final(self).problems@ == old(self).problems@,
            preset_kind(relative@) != PresetKind::Stray ==> final(self).stray == old(self).stray && exists|i: int|
                #[trigger] preset_filed(old(self).slots@, final(self).slots@, i, relative@, read, preset_kind(relative@)),
    {
        let kind = classify_preset(relative);
        if kind == PresetKind::Stray {
            self.stray.push(owned(relative));
            proof {
                assert(notes(self.problems@) =~= notes(self.problems@) + errors_on(relative@, seq![]));
            }
            return;
        }
        let ghost s0 = self.slots@;
        let ghost p0 = notes(self.problems@);
        let (folder, _, stem, _) = path_parts(relative);
        let i = self.slot_for(folder.as_str(), stem.as_str());
        let ghost s1 = self.slots@;
        let mut slot = self.slots.remove(i);
        if kind == PresetKind::Syx {
            slot.syx = Some(owned(relative));
            self.slots.insert(i, slot);
            proof {
                assert(self.slots@ =~= s1.update(i as int, self.slots@[i as int]));
                lemma_update_sorted(s1, i as int, self.slots@[i as int]);
            }
            match read {
                Ok(bytes) => {
                    self.read_frames(i, relative, bytes.as_slice());
                    let ghost s2 = self.slots@;
                    let mut slot = self.slots.remove(i);
                    slot.bytes = Some(bytes);
                    self.slots.insert(i, slot);
                    proof {
                        assert(self.slots@ =~= s2.update(i as int, self.slots@[i as int]));
                        assert(key_of(s2[i as int]) == key_of(s1[i as int]));
                        assert forall|a: int, b: int| 0 <= a < b < s2.len() implies lex_less(#[trigger] key_of(s2[a]), #[trigger] key_of(s2[b])) by {
                            assert(key_of(s2[a]) == key_of(s1[a]));
                            assert(key_of(s2[b]) == key_of(s1[b]));
                        }
                        lemma_update_sorted(s2, i as int, self.slots@[i as int]);
                        assert(slot_filed(s1[i as int], self.slots@[i as int], relative@, read, kind));
                        lemma_preset_filed(s0, s1, self.slots@, i as int, relative@, read, kind);
                    }
                },
                Err(m) => {
                    self.problem(relative, m.as_str());
                    proof {
                        assert(errors_on(relative@, seq![m@]) =~= seq![err(relative@, m@)]);
                        assert(notes(self.problems@) =~= p0 + errors_on(relative@, seq![m@]));
                        assert(slot_filed(s1[i as int], self.slots@[i as int], relative@, read, kind));
                        lemma_preset_filed(s0, s1, self.slots@, i as int, relative@, read, kind);
                    }
                },
            }
        } else {
            slot.toml = Some(owned(relative));
            let ghost mut said: Seq<Seq<char>> = seq![];
            match &read {
                Ok(bytes) => match crate::text::utf8_text(bytes.as_slice()) {
                    Some(text) => {
                        let parsed = PatchMeta::parse(text.as_str());
                        match parsed {
                            Ok(meta) => {
                                slot.meta = Some(meta);
                            },
                            Err(m) => {
                                self.problem(relative, m.as_str());
                                proof {
                                    said = seq![m@];
                                }
                            },
                        }
                        slot.toml_text = Some(text);
                    },
                    None => {
                        self.problem(relative, "stream did not contain valid UTF-8");
                        proof {
                            said = seq![not_utf8()];
                        }
                    },
                },
                Err(m) => {
                    self.problem(relative, m.as_str());
                    proof {
                        said = seq![m@];
                    }
                },
            }
            self.slots.insert(i, slot);
            proof {
                assert(self.slots@ =~= s1.update(i as int, self.slots@[i as int]));
                lemma_update_sorted(s1, i as int, self.slots@[i as int]);
                assert(said == preset_problems(read, kind));
                if said.len() == 0 {
                    assert(notes(self.problems@) =~= p0 + errors_on(relative@, said));
                } else {
                    assert(errors_on(relative@, said) =~= seq![err(relative@, said[0])]);
                    assert(notes(self.problems@) =~= p0 + errors_on(relative@, said));
                }
                assert(slot_filed(s1[i as int], self.slots@[i as int], relative@, read, kind));
                lemma_preset_filed(s0, s1, self.slots@, i as int, relative@, read, kind);
            }
        }
    }
}

/// The first key of a table that is not one of two allowed keys.
pub open spec fn unknown_key_problem(t: Seq<(String, TomlValue)>, a: Seq<char>, b: Seq<char>) -> Option<Seq<char>>
    decreases t.len(),
{
    if t.len() == 0 {
        None
    } else if t[0].0@ != a && t[0].0@ != b {
        Some("unknown field `"@ + t[0].0@ + "`, expected `"@ + a + "` or `"@ + b + "`"@)
    } else {
        unknown_key_problem(t.drop_first(), a, b)
    }
}

/// The first thing wrong with an icon file: a key other than `icon` and
/// `about`, no `icon`, an `icon` that draws nothing, an `about` that is not a
/// string.
pub open spec fn icon_file_problem(doc: Seq<(String, TomlValue)>) -> Option<Seq<char>> {
    first(
        unknown_key_problem(doc, "icon"@, "about"@),
        first(
            if crate::document::lookup(doc, "icon"@) is None {
                Some("missing field `icon`"@)
            } else {
                icon_problem(doc)
            },
            optional_text_problem(doc, "about"@),
        ),
    )
}

fn unknown_key(t: &Vec<(String, TomlValue)>, a: &str, b: &str) -> (r: Option<String>)
    ensures
        match unknown_key_problem(t@, a@, b@) {
            Some(m) => r matches Some(x) && x@ == m,
            None => r is None,
        },
{
    let mut i: usize = 0;
    assert(t@.skip(0) =~= t@);
    while i < t.len()
        invariant
            i <= t@.len(),
            unknown_key_problem(t@, a@, b@) == unknown_key_problem(t@.skip(i as int), a@, b@),
        decreases t@.len() - i,
    {
        assert(t@.skip(i as int).drop_first() =~= t@.skip(i + 1));
        assert(t@.skip(i as int)[0] == t@[i as int]);
        let k = t[i].0.as_str();
        if !str_eq(k, a) && !str_eq(k, b) {
            let mut m = owned("unknown field `");
            push_str(&mut m, k);
            push_str(&mut m, "`, expected `");
            push_str(&mut m, a);
            push_str(&mut m, "` or `");
            push_str(&mut m, b);
            push_str(&mut m, "`");
            return Some(m);
        }
        i = i + 1;
    }
    assert(t@.skip(t@.len() as int).len() == 0);
    None
}

impl IconFile {
    /// Parses an icon file's text: an `icon` and an optional `about`,
    /// nothing else.
    pub fn parse(text: &str) -> (r: Result<IconFile, String>)
        ensures
            match toml_read(text@) {
                Err(m) => r == Err::<IconFile, String>(m),
                Ok(doc) => match icon_file_problem(doc@) {
                    Some(m) => r matches Err(e) && e@ == m,
                    None => r matches Ok(f) && crate::meta::icon_of(Some(f.icon), crate::document::lookup(doc@, "icon"@))
                        && opt_view(f.about) == opt_text_at(doc@, "about"@),
                },
            },
    {
        let doc = match read_toml(text) {
            Ok(d) => d,
            Err(m) => {
                return Err(m);
            },
        };
        if let Some(m) = unknown_key(&doc, "icon", "about") {
            return Err(m);
        }
        let icon = match crate::meta::icon_field(&doc) {
            Ok(Some(i)) => i,
            Ok(None) => {
                return Err(owned("missing field `icon`"));
            },
            Err(m) => {
                return Err(m);
            },
        };
        let about = match crate::meta::optional_text(&doc, "about") {
            Ok(a) => a,
            Err(m) => {
                return Err(m);
            },
        };
        Ok(IconFile { icon, about })
    }
}

/// The first group of a palette document that is not a table of strings.
pub open spec fn palette_problem(doc: Seq<(String, TomlValue)>) -> Option<Seq<char>>
    decreases doc.len(),
{
    if doc.len() == 0 {
        None
    } else if !crate::taxonomy::is_string_table(doc[0].1) {
        Some(crate::meta::invalid(doc[0].0@, "a table of strings"@))
    } else {
        palette_problem(doc.drop_first())
    }
}

/// Whether a group of colours holds exactly what a document entry lists.
pub open spec fn group_of(g: (String, Vec<(String, String)>), e: (String, TomlValue)) -> bool {
    g.0@ == e.0@ && match e.1 {
        TomlValue::Table(t) => g.1@.len() == t@.len() && forall|j: int|
            0 <= j < t@.len() ==> (#[trigger] g.1@[j]).0@ == t@[j].0@ && g.1@[j].1@ == t@[j].1->Text_0@,
        _ => false,
    }
}

/// Whether a palette holds exactly the groups and colours a document lists.
pub open spec fn palette_of(p: Seq<(String, Vec<(String, String)>)>, doc: Seq<(String, TomlValue)>) -> bool {
    &&& p.len() == doc.len()
    &&& forall|i: int| 0 <= i < p.len() ==> #[trigger] group_of(p[i], doc[i])
}

/// Parses `resources/palette.toml`: groups of named colours.
pub fn parse_palette(text: &str) -> (r: Result<Palette, String>)
    ensures
        match toml_read(text@) {
            Err(m) => r == Err::<Palette, String>(m),
            Ok(doc) => match palette_problem(doc@) {
                Some(m) => r matches Err(e) && e@ == m,
                None => r matches Ok(p) && palette_of(p@, doc@),
            },
        },
{
    let doc = match read_toml(text) {
        Ok(d) => d,
        Err(m) => {
            return Err(m);
        },
    };
    let mut out: Palette = Vec::new();
    let mut i: usize = 0;
    assert(doc@.skip(0) =~= doc@);
    while i < doc.len()
        invariant
            i <= doc@.len(),
            palette_problem(doc@) == palette_problem(doc@.skip(i as int)),
            toml_read(text@) == Ok::<Document, String>(doc),
            out@.len() == i,
            forall|k: int| 0 <= k < i ==> #[trigger] group_of(out@[k], doc@[k]),
        decreases doc@.len() - i,
    {
        assert(doc@.skip(i as int).drop_first() =~= doc@.skip(i + 1));
        assert(doc@.skip(i as int)[0] == doc@[i as int]);
        let (key, value) = &doc[i];
        if !crate::taxonomy::string_table(value) {
            let m = crate::meta::invalid_type(key.as_str(), "a table of strings");
            assert(palette_problem(doc@.skip(i as int)) == Some(crate::meta::invalid(doc@[i as int].0@, "a table of strings"@)));
            assert(m@ == crate::meta::invalid(doc@[i as int].0@, "a table of strings"@));
            return Err(m);
        }
        let mut group: Vec<(String, String)> = Vec::new();
        match value {
            TomlValue::Table(t) => {
                let mut j: usize = 0;
                while j < t.len()
                    invariant
                        j <= t@.len(),
                        forall|q: int| 0 <= q < t@.len() ==> #[trigger] t@[q].1 is Text,
                        group@.len() == j,
                        forall|q: int| 0 <= q < j ==> (#[trigger] group@[q]).0@ == t@[q].0@ && group@[q].1@ == t@[q].1->Text_0@,
                    decreases t@.len() - j,
                {
                    match &t[j].1 {
                        TomlValue::Text(c) => {
                            group.push((t[j].0.clone(), c.clone()));
                        },
                        _ => {
                            assert(t@[j as int].1 is Text);
                        },
                    }
                    j = j + 1;
                }
            },
            _ => {},
        }
        let entry = (key.clone(), group);
        assert(group_of(entry, doc@[i as int]));
        out.push(entry);
        i = i + 1;
    }
    assert(doc@.skip(doc@.len() as int).len() == 0);
    Ok(out)
}

/// Folders at the root that the tooling owns.
pub open spec fn own_folder(name: Seq<char>) -> bool {
    ||| name == "presets"@
    ||| name == "demos"@
    ||| name == "resources"@
    ||| name == "crates"@
    ||| name == "tools"@
    ||| name == "docs"@
    ||| name == ".github"@
    ||| name == ".git"@
    ||| name == "target"@
}

/// Files that belong at the root, release outputs included.
pub open spec fn root_file(name: Seq<char>) -> bool {
    ||| name == "README.md"@
    ||| name == "CONTRIBUTING.md"@
    ||| name == "CHANGELOG.md"@
    ||| name == "LICENSE"@
    ||| name == "Cargo.toml"@
    ||| name == "Cargo.lock"@
    ||| name == "taxonomy.toml"@
    ||| name == ".gitignore"@
    ||| name == ".gitattributes"@
    ||| name == "taplo.toml"@
    ||| name == "rustfmt.toml"@
    ||| name == "clippy.toml"@
    ||| name == "index.toml"@
    ||| name == "patches.tar.gz"@
    ||| name == "demos.tar.gz"@
}

fn is_own_folder(name: &str) -> (r: bool)
    ensures
        r == own_folder(name@),
{
    str_eq(name, "presets") || str_eq(name, "demos") || str_eq(name, "resources") || str_eq(name, "crates")
        || str_eq(name, "tools") || str_eq(name, "docs") || str_eq(name, ".github") || str_eq(name, ".git")
        || str_eq(name, "target")
}

fn is_root_file(name: &str) -> (r: bool)
    ensures
        r == root_file(name@),
{
    str_eq(name, "README.md") || str_eq(name, "CONTRIBUTING.md") || str_eq(name, "CHANGELOG.md")
        || str_eq(name, "LICENSE") || str_eq(name, "Cargo.toml") || str_eq(name, "Cargo.lock")
        || str_eq(name, "taxonomy.toml") || str_eq(name, ".gitignore") || str_eq(name, ".gitattributes")
        || str_eq(name, "taplo.toml") || str_eq(name, "rustfmt.toml") || str_eq(name, "clippy.toml")
        || str_eq(name, "index.toml") || str_eq(name, "patches.tar.gz") || str_eq(name, "demos.tar.gz")
}

/// Whether a file under `resources/` belongs there: the palette, the
/// README, or anything under `icons/`.
pub open spec fn resource_allowed(path: Seq<char>) -> bool {
    ||| path == "resources/palette.toml"@
    ||| path == "resources/README.md"@
    ||| path == "resources/icons"@
    ||| (path.len() > 16 && path.take(16) == "resources/icons/"@)
}

fn starts_with(text: &str, prefix: &str) -> (r: bool)
    ensures
        r == (text@.len() >= prefix@.len() && text@.take(prefix@.len() as int) == prefix@),
{
    let t = crate::text::chars_of(text);
    let p = crate::text::chars_of(prefix);
    if p.len() > t.len() {
        return false;
    }
    let mut i: usize = 0;
    while i < p.len()
        invariant
            i <= p@.len() <= t@.len(),
            t@ == text@,
            p@ == prefix@,
            forall|j: int| 0 <= j < i ==> t@[j] == p@[j],
        decreases p@.len() - i,
    {
        if t[i] != p[i] {
            assert(text@.take(prefix@.len() as int)[i as int] != prefix@[i as int]);
            return false;
        }
        i = i + 1;
    }
    assert(text@.take(prefix@.len() as int) =~= prefix@);
    true
}

fn contains_text(list: &Vec<String>, item: &str) -> (r: bool)
    ensures
        r == exists|i: int| 0 <= i < list@.len() && (#[trigger] list@[i])@ == item@,
{
    let mut i: usize = 0;
    while i < list.len()
        invariant
            i <= list@.len(),
            forall|j: int| 0 <= j < i ==> (#[trigger] list@[j])@ != item@,
        decreases list@.len() - i,
    {
        if str_eq(list[i].as_str(), item) {
            return true;
        }
        i = i + 1;
    }
    false
}

/// Where an icon file sits, relative to the root.
pub open spec fn icon_path(badges: bool, name: Seq<char>) -> Seq<char> {
    (if badges { "resources/icons/badges/"@ } else { "resources/icons/categories/"@ }) + name
}

/// What reading an icon file gave: its rows, or the message.
pub open spec fn icon_file_read(read: Result<String, String>) -> Result<Seq<u8>, Seq<char>> {
    match read {
        Err(m) => Err(m@),
        Ok(text) => match toml_read(text@) {
            Err(m) => Err(m@),
            Ok(doc) => match icon_file_problem(doc@) {
                Some(m) => Err(m),
                None => icon_read(list_of(crate::document::lookup(doc@, "icon"@))),
            },
        },
    }
}

/// Whether one icon group grew by one icon under a key, the other group
/// unchanged.
pub open spec fn icons_grew(before: Icons, after: Icons, badges: bool, key: Seq<char>, bits: Seq<u8>) -> bool {
    let (mine, were) = if badges {
        (after.badges@, before.badges@)
    } else {
        (after.categories@, before.categories@)
    };
    &&& (if badges { after.categories == before.categories } else { after.badges == before.badges })
    &&& mine.len() == were.len() + 1
    &&& mine.drop_last() == were
    &&& mine.last().0@ == key
    &&& mine.last().1.bits() == bits
}

fn read_icon_file(read: Result<String, String>) -> (r: Result<Icon, String>)
    ensures
        match icon_file_read(read) {
            Ok(bits) => r matches Ok(i) && i.bits() == bits,
            Err(m) => r matches Err(e) && e@ == m,
        },
{
    match read {
        Err(m) => Err(m),
        Ok(text) => match IconFile::parse(text.as_str()) {
            Ok(file) => Ok(file.icon),
            Err(m) => Err(m),
        },
    }
}

impl Scan {
    /// Records what reading `taxonomy.toml` at the root gave: its text, or
    /// the system's message.
    pub fn taxonomy_read(&mut self, read: Result<String, String>)
        ensures
            old(self).wf() ==> final(self).wf(),
            final(self).slots == old(self).slots,
            final(self).stray == old(self).stray,
            ({
                let path = old(self).root@ + "/taxonomy.toml"@;
                match read {
                    Err(m) => final(self).problems@ == old(self).problems@.push(final(self).problems@.last())
                        && plain_error(final(self).problems@.last(), "taxonomy.toml"@, path + ": "@ + m@),
                    Ok(text) => match toml_read(text@) {
                        Err(m) => final(self).problems@ == old(self).problems@.push(final(self).problems@.last())
                            && plain_error(final(self).problems@.last(), "taxonomy.toml"@, path + ": "@ + m@),
                        Ok(doc) => match crate::taxonomy::taxonomy_problem(doc@) {
                            Some(m) => final(self).problems@ == old(self).problems@.push(final(self).problems@.last())
                                && plain_error(final(self).problems@.last(), "taxonomy.toml"@, path + ": "@ + m),
                            None => final(self).problems == old(self).problems && (final(self).taxonomy matches Some(t)
                                && crate::taxonomy::taxonomy_of(t, doc@)),
                        },
                    },
                }
            }),
    {
        let mut path = owned(self.root.as_str());
        push_str(&mut path, "/taxonomy.toml");
        let message = match read {
            Err(m) => m,
            Ok(text) => match read_toml(text.as_str()) {
                Err(m) => m,
                Ok(doc) => match Taxonomy::from_document(&doc) {
                    Ok(t) => {
                        self.taxonomy = Some(t);
                        return;
                    },
                    Err(m) => m,
                },
            },
        };
        push_str(&mut path, ": ");
        push_str(&mut path, message.as_str());
        let ghost before = self.problems@;
        self.problem("taxonomy.toml", path.as_str());
        assert(self.problems@ =~= before.push(self.problems@.last()));
    }

    /// Records one file found in `resources/icons/categories/` (or, with
    /// `badges`, `resources/icons/badges/`), given as its file name and
    /// what reading it gave. A file that is not `.toml` is stray.
    pub fn icon_file(&mut self, badges: bool, name: &str, read: Result<String, String>)
        ensures
            old(self).wf() ==> final(self).wf(),
            final(self).slots == old(self).slots,
            extension_of(file_name_of(name@)) != Some("toml"@) ==> final(self).stray@.len() == old(self).stray@.len() + 1
                && final(self).stray@.drop_last() == old(self).stray@
                && final(self).stray@.last()@ == icon_path(badges, name@) && final(self).icons == old(self).icons
                && final(self).problems == old(self).problems,
            extension_of(file_name_of(name@)) == Some("toml"@) ==> final(self).stray == old(self).stray && match icon_file_read(read) {
                Err(m) => final(self).icons == old(self).icons && final(self).problems@.drop_last() == old(self).problems@
                    && final(self).problems@.len() == old(self).problems@.len() + 1
                    && plain_error(final(self).problems@.last(), icon_path(badges, name@), m),
                Ok(bits) => final(self).problems == old(self).problems && icons_grew(
                    old(self).icons,
                    final(self).icons,
                    badges,
                    file_stem_of(file_name_of(name@)),
                    bits,
                ),
            },
    {
        let mut relative = owned(if badges { "resources/icons/badges/" } else { "resources/icons/categories/" });
        push_str(&mut relative, name);
        let (_, _, stem, extension) = path_parts(name);
        let is_toml = match &extension {
            Some(e) => str_eq(e.as_str(), "toml"),
            None => false,
        };
        if !is_toml {
            self.stray.push(relative);
            assert(self.stray@.drop_last() =~= old(self).stray@);
            return;
        }
        match read_icon_file(read) {
            Ok(icon) => {
                if badges {
                    self.icons.badges.push((stem, icon));
                    assert(self.icons.badges@.drop_last() =~= old(self).icons.badges@);
                } else {
                    self.icons.categories.push((stem, icon));
                    assert(self.icons.categories@.drop_last() =~= old(self).icons.categories@);
                }
            },
            Err(m) => {
                self.problem(relative.as_str(), m.as_str());
                assert(self.problems@.drop_last() =~= old(self).problems@);
            },
        }
    }

    /// Records `resources/palette.toml`, when it could be read.
    pub fn palette_read(&mut self, text: Option<String>)
        ensures
            old(self).wf() ==> final(self).wf(),
            final(self).slots == old(self).slots,
            final(self).stray == old(self).stray,
            match text {
                None => final(self).palette == old(self).palette && final(self).problems == old(self).problems,
                Some(t) => match toml_read(t@) {
                    Err(m) => final(self).palette == old(self).palette && final(self).problems@.drop_last() == old(self).problems@
                        && final(self).problems@.len() == old(self).problems@.len() + 1
                        && plain_error(final(self).problems@.last(), "resources/palette.toml"@, m@),
                    Ok(doc) => match palette_problem(doc@) {
                        Some(m) => final(self).palette == old(self).palette && final(self).problems@.drop_last() == old(self).problems@
                            && final(self).problems@.len() == old(self).problems@.len() + 1
                            && plain_error(final(self).problems@.last(), "resources/palette.toml"@, m),
                        None => final(self).problems == old(self).problems && (final(self).palette matches Some(p) && palette_of(p@, doc@)),
                    },
                },
            },
    {
        match text {
            None => {},
            Some(t) => match parse_palette(t.as_str()) {
                Ok(p) => {
                    self.palette = Some(p);
                },
                Err(m) => {
                    self.problem("resources/palette.toml", m.as_str());
                },
            },
        }
    }

    /// Records that there is no `presets/` folder.
    pub fn presets_missing(&mut self)
        ensures
            old(self).wf() ==> final(self).wf(),
            final(self).slots == old(self).slots,
            final(self).stray == old(self).stray,
            final(self).problems@.drop_last() == old(self).problems@,
            final(self).problems@.len() == old(self).problems@.len() + 1,
            plain_error(final(self).problems@.last(), "presets"@, "folder is missing"@),
    {
        self.problem("presets", "folder is missing");
    }

    /// Records one file found under `demos/`, and what reading it gave.
    pub fn demo_file(&mut self, relative: &str, read: Result<Vec<u8>, String>)
        ensures
            old(self).wf() ==> final(self).wf(),
            final(self).slots == old(self).slots,
            final(self).stray == old(self).stray,
            final(self).problems == old(self).problems,
            final(self).demo_files@.len() == old(self).demo_files@.len() + 1,
            final(self).demo_files@.drop_last() == old(self).demo_files@,
            final(self).demo_files@.last()@ == relative@,
            final(self).demo_reads@ == old(self).demo_reads@.push(read),
    {
        self.demo_files.push(owned(relative));
        self.demo_reads.push(read);
    }

    /// Records one entry at the root: a folder the tooling does not own, or
    /// a file that does not belong there, is stray.
    pub fn root_entry(&mut self, name: &str, is_dir: bool)
        ensures
            old(self).wf() ==> final(self).wf(),
            final(self).slots == old(self).slots,
            final(self).problems == old(self).problems,
            if (is_dir && !own_folder(name@)) || (!is_dir && !root_file(name@)) {
                final(self).stray@.len() == old(self).stray@.len() + 1 && final(self).stray@.drop_last() == old(self).stray@
                    && final(self).stray@.last()@ == name@
            } else {
                final(self).stray == old(self).stray
            },
    {
        if is_dir {
            if !is_own_folder(name) {
                self.stray.push(owned(name));
            }
        } else if !is_root_file(name) {
            self.stray.push(owned(name));
        }
    }

    /// Records one file under `resources/`, relative to the root: anything
    /// but the palette, the README and the icons is stray, once.
    pub fn resources_file(&mut self, relative: &str)
        ensures
            old(self).wf() ==> final(self).wf(),
            final(self).slots == old(self).slots,
            final(self).problems == old(self).problems,
            if !resource_allowed(relative@) && !(exists|i: int| 0 <= i < old(self).stray@.len() && (#[trigger] old(self).stray@[i])@ == relative@) {
                final(self).stray@.len() == old(self).stray@.len() + 1 && final(self).stray@.drop_last() == old(self).stray@
                    && final(self).stray@.last()@ == relative@
            } else {
                final(self).stray == old(self).stray
            },
    {
        let allowed = str_eq(relative, "resources/palette.toml") || str_eq(relative, "resources/README.md")
            || str_eq(relative, "resources/icons") || (relative.unicode_len() > 16 && starts_with(relative, "resources/icons/"));
        proof {
            reveal_strlit("resources/icons/");
        }
        if !allowed && !contains_text(&self.stray, relative) {
            self.stray.push(owned(relative));
        }
    }
}

/// Nothing comes before itself.
pub proof fn lemma_text_irreflexive(a: Seq<char>)
    ensures
        !text_less(a, a),
    decreases a.len(),
{
    if a.len() > 0 {
        lemma_text_irreflexive(a.drop_first());
    }
}

/// Coming before is transitive.
pub proof fn lemma_text_transitive(a: Seq<char>, b: Seq<char>, c: Seq<char>)
    requires
        text_less(a, b),
        text_less(b, c),
    ensures
        text_less(a, c),
    decreases a.len(),
{
    if a.len() > 0 && b.len() > 0 && c.len() > 0 && a[0] == b[0] && b[0] == c[0] {
        lemma_text_transitive(a.drop_first(), b.drop_first(), c.drop_first());
    }
}

/// Whether text comes strictly before other text.
pub fn text_before(a: &str, b: &str) -> (r: bool)
    ensures
        r == text_less(a@, b@),
{
    let x = crate::text::chars_of(a);
    let y = crate::text::chars_of(b);
    let mut i: usize = 0;
    assert(x@.skip(0) =~= x@);
    assert(y@.skip(0) =~= y@);
    while i < x.len() && i < y.len() && x[i] == y[i]
        invariant
            i <= x@.len(),
            i <= y@.len(),
            x@ == a@,
            y@ == b@,
            text_less(a@, b@) == text_less(x@.skip(i as int), y@.skip(i as int)),
        decreases x@.len() - i,
    {
        assert(x@.skip(i as int).drop_first() =~= x@.skip(i + 1));
        assert(y@.skip(i as int).drop_first() =~= y@.skip(i + 1));
        i = i + 1;
    }
    if i == y.len() {
        false
    } else if i == x.len() {
        true
    } else {
        assert(x@.skip(i as int)[0] == x@[i as int]);
        assert(y@.skip(i as int)[0] == y@[i as int]);
        x[i] < y[i]
    }
}

/// Whether patches are in id order, equal ids in the order they came.
pub open spec fn sorted_by_id(ps: Seq<Patch>) -> bool {
    forall|a: int, b: int| 0 <= a < b < ps.len() ==> !text_less(#[trigger] ps[b].id@, #[trigger] ps[a].id@)
}

/// Whether a slot is whole: both files read, the metadata parsed, exactly
/// one program, and a category folder.
pub open spec fn whole(s: Slot) -> bool {
    &&& s.meta is Some
    &&& s.programs@.len() == 1
    &&& s.syx is Some
    &&& s.toml is Some
    &&& s.bytes is Some
    &&& foldered(s.category_dir@) is Some
}

/// How many slots are whole.
pub open spec fn whole_count(slots: Seq<Slot>) -> nat
    decreases slots.len(),
{
    if slots.len() == 0 {
        0
    } else {
        whole_count(slots.drop_last()) + if whole(slots.last()) { 1nat } else { 0nat }
    }
}

/// Whether a patch is the one a whole slot gives.
pub open spec fn patch_of(p: Patch, s: Slot) -> bool {
    let c = foldered(s.category_dir@)->Some_0;
    let m = s.meta->Some_0;
    let program = s.programs@[0].program;
    &&& p.category == c
    &&& p.id@ == id_of(name_of(c), opt_view(s.collection), m.name@, m.author@)
    &&& opt_view(p.collection) == opt_view(s.collection)
    &&& p.stem@ == s.stem@
    &&& p.syx_path@ == s.syx->Some_0@
    &&& p.toml_path@ == s.toml->Some_0@
    &&& p.meta == m
    &&& p.program@ == program@
    &&& derived_from(p.derived, program@)
    &&& p.fingerprint.0@ == sha256(sound_bytes(program@.1))
    &&& p.bytes == s.bytes->Some_0
    &&& p.sha256@ == hex_of(sha256(p.bytes@))
}

/// What a library built from a scan holds: the scan's root, icons and
/// palette, its taxonomy (an empty one where it had none), and one patch per
/// whole slot, in id order.
pub open spec fn built_from(r: Library, scan: Scan) -> bool {
    &&& r.root == scan.root
    &&& r.icons == scan.icons
    &&& r.palette == scan.palette
    &&& match scan.taxonomy {
        Some(t) => r.taxonomy == t,
        None => forall|a: crate::taxonomy::Axis| r.taxonomy.entries(a).len() == 0,
    }
    &&& sorted_by_id(r.patch_list())
    &&& r.patch_list().len() == whole_count(scan.slots@)
    &&& forall|i: int| 0 <= i < r.patch_list().len() ==> from_whole_slot(#[trigger] r.patch_list()[i], scan.slots@)
    &&& exists|origin: Seq<int>| one_per_whole_slot(r.patch_list(), scan.slots@, origin)
}

/// Whether a patch is the one some whole slot gives.
pub open spec fn from_whole_slot(p: Patch, slots: Seq<Slot>) -> bool {
    exists|j: int| 0 <= j < slots.len() && whole(slots[j]) && #[trigger] patch_of(p, slots[j])
}

/// Whether `origin` matches patches one to one with the whole slots: patch
/// `i` is the one slot `origin[i]` gives, no slot gives two patches, and
/// every whole slot gives one.
pub open spec fn one_per_whole_slot(ps: Seq<Patch>, slots: Seq<Slot>, origin: Seq<int>) -> bool {
    &&& origin.len() == ps.len()
    &&& forall|i: int|
        0 <= i < ps.len() ==> 0 <= #[trigger] origin[i] < slots.len() && whole(slots[origin[i]]) && patch_of(
            ps[i],
            slots[origin[i]],
        )
    &&& forall|i: int, k: int| 0 <= i < k < ps.len() ==> #[trigger] origin[i] != #[trigger] origin[k]
    &&& forall|j: int| 0 <= j < slots.len() && #[trigger] whole(slots[j]) ==> exists|i: int| 0 <= i < ps.len() && origin[i] == j
}

fn insert_by_id(ps: &mut Vec<Patch>, p: Patch)
    requires
        sorted_by_id(old(ps)@),
    ensures
        sorted_by_id(final(ps)@),
        exists|k: int| 0 <= k <= old(ps)@.len() && final(ps)@ == old(ps)@.insert(k, p),
{
    let mut k: usize = 0;
    while k < ps.len() && !text_before(p.id.as_str(), ps[k].id.as_str())
        invariant
            k <= ps@.len(),
            forall|j: int| 0 <= j < k ==> !text_less(p.id@, #[trigger] ps@[j].id@),
        decreases ps@.len() - k,
    {
        k = k + 1;
    }
    let ghost before = ps@;
    ps.insert(k, p);
    proof {
        let after = ps@;
        assert forall|a: int, b: int| 0 <= a < b < after.len() implies !text_less(#[trigger] after[b].id@, #[trigger] after[a].id@) by {
            if b < k {
                assert(after[a] == before[a] && after[b] == before[b]);
            } else if b == k {
                assert(after[a] == before[a]);
            } else if a == k {
                assert(after[b] == before[b - 1]);
                assert(text_less(p.id@, before[k as int].id@));
                if text_less(before[b - 1].id@, p.id@) {
                    lemma_text_transitive(before[b - 1].id@, p.id@, before[k as int].id@);
                    if b - 1 == k {
                        lemma_text_irreflexive(before[k as int].id@);
                    }
                }
            } else if a < k {
                assert(after[a] == before[a] && after[b] == before[b - 1]);
            } else {
                assert(after[a] == before[a - 1] && after[b] == before[b - 1]);
            }
        }
    }
}

impl Library {
    /// Builds typed patches out of a scan, keeping every slot that is
    /// whole, sorted by id.
    ///
    /// A slot missing a file, a program or a parse is skipped. Run the
    /// rules first when that matters.
    pub fn from_scan(scan: Scan) -> (r: Library)
        requires
            scan.wf(),
        ensures
            built_from(r, scan),
    {
        let ghost all = scan.slots@;
        let Scan { root, taxonomy, icons, palette, slots, .. } = scan;
        assert(slots@ == all);
        let mut slots = slots;
        let mut patches: Vec<Patch> = Vec::new();
        let ghost mut src: Seq<int> = seq![];
        let mut n: usize = 0;
        let total = slots.len();
        while n < total
            invariant
                total == all.len(),
                n <= total,
                slots@ == all.skip(n as int),
                programs_wf(all),
                sorted_by_id(patches@),
                patches@.len() == whole_count(all.take(n as int)),
                src.len() == patches@.len(),
                forall|i: int| 0 <= i < patches@.len() ==> 0 <= #[trigger] src[i] < n && whole(all[src[i]])
                    && patch_of(patches@[i], all[src[i]]),
                forall|i: int, k: int| 0 <= i < k < patches@.len() ==> #[trigger] src[i] != #[trigger] src[k],
                forall|j: int| 0 <= j < n && #[trigger] whole(all[j]) ==> exists|i: int| 0 <= i < patches@.len() && src[i] == j,
            decreases total - n,
        {
            assert(all.skip(n as int)[0] == all[n as int]);
            assert(all.take(n + 1).drop_last() =~= all.take(n as int));
            assert(all.take(n + 1).last() == all[n as int]);
            let slot = slots.remove(0);
            assert(slots@ =~= all.skip(n + 1));
            assert(slot_programs_wf(all[n as int]));
            let Slot { category_dir, collection, stem, syx, toml, meta, bytes, programs, .. } = slot;
            let category = Category::from_name(category_dir.as_str());
            if programs.len() == 1 && meta.is_some() && syx.is_some() && toml.is_some() && bytes.is_some()
                && category.is_some() {
                let mut programs = programs;
                let entry = programs.remove(0);
                let program = entry.program;
                assert(program.wf());
                let meta = meta.unwrap();
                let bytes = bytes.unwrap();
                let category = category.unwrap();
                let c: Option<&str> = match &collection {
                    Some(x) => Some(x.as_str()),
                    None => None,
                };
                let id = id(category.name(), c, meta.name.as_str(), meta.author.as_str());
                let derived = Derived::of(&program);
                let fingerprint = Fingerprint::of(&program);
                let sha256 = sha256_hex(bytes.as_slice());
                let patch = Patch {
                    id,
                    category,
                    collection,
                    stem,
                    syx_path: syx.unwrap(),
                    toml_path: toml.unwrap(),
                    meta,
                    program,
                    derived,
                    fingerprint,
                    sha256,
                    bytes,
                };
                assert(patch_of(patch, all[n as int]));
                let ghost before = patches@;
                let ghost src0 = src;
                insert_by_id(&mut patches, patch);
                proof {
                    let k = choose|k: int| 0 <= k <= before.len() && patches@ == before.insert(k, patch);
                    src = src0.insert(k, n as int);
                    assert forall|i: int| 0 <= i < patches@.len() implies 0 <= #[trigger] src[i] < n + 1 && whole(all[src[i]])
                        && patch_of(patches@[i], all[src[i]]) by {
                        if i < k {
                            assert(patches@[i] == before[i] && src[i] == src0[i]);
                        } else if i == k {
                            assert(patches@[i] == patch && src[i] == n);
                        } else {
                            assert(patches@[i] == before[i - 1] && src[i] == src0[i - 1]);
                        }
                    }
                    assert forall|i: int, m: int| 0 <= i < m < patches@.len() implies #[trigger] src[i] != #[trigger] src[m] by {
                        if i < k && m < k {
                            assert(src[i] == src0[i] && src[m] == src0[m]);
                        } else if i < k && m == k {
                            assert(src[i] == src0[i] && src0[i] < n);
                        } else if i < k {
                            assert(src[i] == src0[i] && src[m] == src0[m - 1]);
                        } else if i == k {
                            assert(src[m] == src0[m - 1] && src0[m - 1] < n);
                        } else {
                            assert(src[i] == src0[i - 1] && src[m] == src0[m - 1]);
                        }
                    }
                    assert forall|j: int| 0 <= j < n + 1 && #[trigger] whole(all[j]) implies exists|i: int|
                        0 <= i < patches@.len() && src[i] == j by {
                        if j == n {
                            assert(src[k] == n);
                        } else {
                            let i0 = choose|i0: int| 0 <= i0 < before.len() && src0[i0] == j;
                            if i0 < k {
                                assert(src[i0] == j);
                            } else {
                                assert(src[i0 + 1] == j);
                            }
                        }
                    }
                }
            } else {
                assert(!whole(all[n as int]));
            }
            n = n + 1;
        }
        assert(all.take(total as int) =~= all);
        let taxonomy = match taxonomy {
            Some(t) => t,
            None => Taxonomy::new(),
        };
        let ghost ps = patches@;
        let r = Library { root, taxonomy, icons, palette, patches };
        assert(r.patch_list() == ps);
        assert forall|i: int| 0 <= i < r.patch_list().len() implies from_whole_slot(#[trigger] r.patch_list()[i], scan.slots@) by {
            let j = src[i];
            assert(r.patch_list()[i] == ps[i]);
            assert(0 <= j < scan.slots@.len() && whole(scan.slots@[j]) && patch_of(r.patch_list()[i], scan.slots@[j]));
        }
        assert(one_per_whole_slot(r.patch_list(), scan.slots@, src));
        r
    }

    /// Validates a scan and builds the library, refusing a checkout with
    /// errors: [`Error::Invalid`] with their count. Run the rules on the scan
    /// to see the findings.
    pub fn open_scan(scan: Scan) -> (r: Result<Library, Error>)
        requires
            scan.wf(),
        ensures
            scan_errors(scan) > 0 ==> (r matches Err(Error::Invalid(n)) && n == scan_errors(scan)),
            scan_errors(scan) == 0 ==> (r matches Ok(lib) && built_from(lib, scan)),
    {
        let findings = run(&scan);
        let errors = count_errors(findings.as_slice());
        if errors > 0 {
            return Err(Error::Invalid(errors));
        }
        Ok(Library::from_scan(scan))
    }
}

} // verus!
