//! The rules a checkout is held to, each a function from what a scan read to
//! the findings it raises.

use vstd::prelude::*;

use crate::category::{foldered, name_of, named, nth, of_value, Category};
use crate::derived::{byte_of, label_or_value};
use crate::document::TomlValue;
use crate::library::{demo_path_in, demo_path_of, lemma_text_irreflexive, lemma_text_transitive, text_before, text_less, Slot};
use crate::order::{lemma_lex_irreflexive, lemma_lex_transitive, lex_less, path_before, path_codes};
use crate::meta::{demo_stem_of_variant, opt_view, Demo};
use crate::mp3::{mp3_read, Mp3Info};
use crate::slug::{id_of, slug_of, stem_of};
use crate::meta::{spdx_listed, PatchMeta, ALL_RIGHTS_RESERVED};
use crate::validate::line_of;
use crate::program::{
    invalid_of, is_program_name, model_names, program_name_problem, program_name_refusal, slot_text,
    slot_to_string, stored_name_of, Param, StoredProgram,
};
use crate::text::{decimal, join};
use crate::library::{icon_under, Scan};
use crate::taxonomy::{axis_at, axis_name, Axis, Taxonomy, Term};
use crate::text::{debug_quoted, is_blank, owned, push_str, quoted, trim};
use crate::validate::{Finding, Severity};

verus! {

/// A finding as plain values: severity, path, line, message, hint.
pub type Note = (Severity, Seq<char>, Option<u32>, Seq<char>, Option<Seq<char>>);

/// A finding as plain values.
pub open spec fn note(f: Finding) -> Note {
    (f.severity, f.path@, f.line, f.message@, match f.hint {
        Some(h) => Some(h@),
        None => None,
    })
}

/// Findings as plain values.
pub open spec fn notes(s: Seq<Finding>) -> Seq<Note> {
    s.map_values(|f: Finding| note(f))
}

/// An error on a path.
pub open spec fn err(path: Seq<char>, message: Seq<char>) -> Note {
    (Severity::Error, path, None, message, None)
}

/// A warning on a path.
pub open spec fn warn(path: Seq<char>, message: Seq<char>) -> Note {
    (Severity::Warning, path, None, message, None)
}

/// A finding with a fix.
pub open spec fn hinted(n: Note, hint: Seq<char>) -> Note {
    (n.0, n.1, n.2, n.3, Some(hint))
}

/// A finding on a line.
pub open spec fn lined(n: Note, line: Option<u32>) -> Note {
    (n.0, n.1, line, n.3, n.4)
}

/// One finding when a condition holds, else none.
pub open spec fn when(c: bool, n: Note) -> Seq<Note> {
    if c {
        seq![n]
    } else {
        seq![]
    }
}

fn emit(out: &mut Vec<Finding>, f: Finding)
    ensures
        notes(final(out)@) == notes(old(out)@).push(note(f)),
{
    let ghost before = out@;
    out.push(f);
    assert(notes(out@) =~= notes(before).push(note(f)));
}

// ---- taxonomy.toml

/// The findings for malformed terms, in order.
pub open spec fn malformed_notes(m: Seq<(Axis, Seq<char>)>) -> Seq<Note>
    decreases m.len(),
{
    if m.len() == 0 {
        seq![]
    } else {
        malformed_notes(m.drop_last()).push(
            hinted(
                err(
                    "taxonomy.toml"@,
                    "["@ + axis_name(m.last().0) + "] term "@ + debug_quoted(m.last().1)
                        + " is not a lowercase word"@,
                ),
                "Use lowercase ASCII letters, digits and hyphens."@,
            ),
        )
    }
}

/// The findings for terms of one axis that have no description.
pub open spec fn undescribed_notes(axis: Axis, terms: Seq<Term>) -> Seq<Note>
    decreases terms.len(),
{
    if terms.len() == 0 {
        seq![]
    } else {
        undescribed_notes(axis, terms.drop_last()) + when(
            is_blank(terms.last().about@),
            err(
                "taxonomy.toml"@,
                "["@ + axis_name(axis) + "] "@ + terms.last().term@ + " has no description"@,
            ),
        )
    }
}

/// What the taxonomy raises: malformed terms, then terms without a
/// description, axis by axis.
pub open spec fn taxonomy_notes(t: Option<Taxonomy>) -> Seq<Note> {
    match t {
        None => seq![],
        Some(t) => malformed_notes(t.malformed()) + undescribed_notes(Axis::Genre, t.genre@)
            + undescribed_notes(Axis::Mood, t.mood@) + undescribed_notes(Axis::Timbre, t.timbre@)
            + undescribed_notes(Axis::Role, t.role@),
    }
}

fn check_undescribed(axis: Axis, terms: &Vec<Term>, out: &mut Vec<Finding>)
    ensures
        notes(final(out)@) == notes(old(out)@) + undescribed_notes(axis, terms@),
{
    let ghost start = notes(out@);
    let mut i: usize = 0;
    while i < terms.len()
        invariant
            i <= terms@.len(),
            notes(out@) == start + undescribed_notes(axis, terms@.take(i as int)),
        decreases terms@.len() - i,
    {
        assert(terms@.take(i + 1).drop_last() =~= terms@.take(i as int));
        let t = &terms[i];
        if crate::text::blank(t.about.as_str()) {
            let mut m = owned("[");
            push_str(&mut m, axis.name());
            push_str(&mut m, "] ");
            push_str(&mut m, t.term.as_str());
            push_str(&mut m, " has no description");
            emit(out, Finding::error("taxonomy.toml", m.as_str()));
        }
        assert(notes(out@) =~= start + undescribed_notes(axis, terms@.take(i + 1)));
        i = i + 1;
    }
    assert(terms@.take(terms@.len() as int) =~= terms@);
}

fn check_taxonomy(scan: &Scan, out: &mut Vec<Finding>)
    ensures
        notes(final(out)@) == notes(old(out)@) + taxonomy_notes(scan.taxonomy),
{
    let taxonomy = match &scan.taxonomy {
        None => {
            assert(notes(out@) =~= notes(out@) + seq![]);
            return;
        },
        Some(t) => t,
    };
    let ghost start = notes(out@);
    let bad = taxonomy.malformed_terms();
    let ghost m = taxonomy.malformed();
    let mut i: usize = 0;
    while i < bad.len()
        invariant
            i <= bad@.len(),
            bad@.map_values(|p: (Axis, String)| (p.0, p.1@)) == m,
            notes(out@) == start + malformed_notes(m.take(i as int)),
        decreases bad@.len() - i,
    {
        assert(m.take(i + 1).drop_last() =~= m.take(i as int));
        assert(m[i as int] == (bad@[i as int].0, bad@[i as int].1@));
        let (axis, term) = &bad[i];
        let mut s = owned("[");
        push_str(&mut s, axis.name());
        push_str(&mut s, "] term ");
        let q = quoted(term.as_str());
        push_str(&mut s, q.as_str());
        push_str(&mut s, " is not a lowercase word");
        emit(
            out,
            Finding::error("taxonomy.toml", s.as_str()).hint(
                "Use lowercase ASCII letters, digits and hyphens.",
            ),
        );
        assert(notes(out@) =~= start + malformed_notes(m.take(i + 1)));
        i = i + 1;
    }
    assert(m.take(m.len() as int) =~= m);
    check_undescribed(Axis::Genre, &taxonomy.genre, out);
    check_undescribed(Axis::Mood, &taxonomy.mood, out);
    check_undescribed(Axis::Timbre, &taxonomy.timbre, out);
    check_undescribed(Axis::Role, &taxonomy.role, out);
    assert(notes(out@) =~= start + taxonomy_notes(scan.taxonomy));
}

// ---- icons

/// Where a category's icon file sits.
pub open spec fn category_icon_path(name: Seq<char>) -> Seq<char> {
    "resources/icons/categories/"@ + name + ".toml"@
}

/// What the category icons raise for the first `n` categories: each one
/// missing or blank.
pub open spec fn category_icon_notes(categories: Seq<(String, crate::icon::Icon)>, n: int) -> Seq<Note>
    decreases n,
{
    if n <= 0 {
        seq![]
    } else {
        let c = nth(n - 1);
        let path = category_icon_path(name_of(c));
        category_icon_notes(categories, n - 1) + match icon_under(categories, name_of(c)) {
            None => seq![hinted(err(path, "category icon is missing"@), "Add a file with a 7x7 `icon` and a one-line `about`."@)],
            Some(i) => when(
                i.nothing_lit(),
                err(path, "category icon is blank"@),
            ),
        }
    }
}

/// What icons named after no category raise.
pub open spec fn stray_icon_notes(categories: Seq<(String, crate::icon::Icon)>) -> Seq<Note>
    decreases categories.len(),
{
    if categories.len() == 0 {
        seq![]
    } else {
        stray_icon_notes(categories.drop_last()) + when(
            named(categories.last().0@) is None,
            hinted(
                err(category_icon_path(categories.last().0@), "not a category name"@),
                "Category icons are named exactly as the instrument writes the category."@,
            ),
        )
    }
}

/// What blank badges raise.
pub open spec fn badge_notes(badges: Seq<(String, crate::icon::Icon)>) -> Seq<Note>
    decreases badges.len(),
{
    if badges.len() == 0 {
        seq![]
    } else {
        badge_notes(badges.drop_last()) + when(
            badges.last().1.nothing_lit(),
            err("resources/icons/badges/"@ + badges.last().0@ + ".toml"@, "badge icon is blank"@),
        )
    }
}

/// What the icons raise: every category in order, then icons named after no
/// category, then blank badges.
pub open spec fn icon_notes(s: Scan) -> Seq<Note> {
    category_icon_notes(s.icons.categories@, 12) + stray_icon_notes(s.icons.categories@) + badge_notes(
        s.icons.badges@,
    )
}

fn icon_path(dir: &str, name: &str) -> (r: String)
    ensures
        r@ == dir@ + name@ + ".toml"@,
{
    let mut p = owned(dir);
    push_str(&mut p, name);
    push_str(&mut p, ".toml");
    p
}

fn check_icons(scan: &Scan, out: &mut Vec<Finding>)
    ensures
        notes(final(out)@) == notes(old(out)@) + icon_notes(*scan),
{
    let ghost start = notes(out@);
    let all = Category::all();
    let mut k: usize = 0;
    while k < 12
        invariant
            k <= 12,
            forall|i: int| 0 <= i < 12 ==> #[trigger] all@[i] == nth(i),
            notes(out@) == start + category_icon_notes(scan.icons.categories@, k as int),
        decreases 12 - k,
    {
        let c = all[k];
        let path = icon_path("resources/icons/categories/", c.name());
        match scan.icons.category(c) {
            None => {
                emit(out, Finding::error(path.as_str(), "category icon is missing").hint(
                    "Add a file with a 7x7 `icon` and a one-line `about`.",
                ));
            },
            Some(icon) => {
                if icon.is_blank() {
                    emit(out, Finding::error(path.as_str(), "category icon is blank"));
                }
            },
        }
        assert(notes(out@) =~= start + category_icon_notes(scan.icons.categories@, k + 1));
        k = k + 1;
    }
    let cats = &scan.icons.categories;
    let ghost mid = notes(out@);
    let mut i: usize = 0;
    while i < cats.len()
        invariant
            i <= cats@.len(),
            notes(out@) == mid + stray_icon_notes(cats@.take(i as int)),
        decreases cats@.len() - i,
    {
        assert(cats@.take(i + 1).drop_last() =~= cats@.take(i as int));
        let name = cats[i].0.as_str();
        if Category::by_readable_name(name).is_none() {
            let path = icon_path("resources/icons/categories/", name);
            emit(out, Finding::error(path.as_str(), "not a category name").hint(
                "Category icons are named exactly as the instrument writes the category.",
            ));
        }
        assert(notes(out@) =~= mid + stray_icon_notes(cats@.take(i + 1)));
        i = i + 1;
    }
    assert(cats@.take(cats@.len() as int) =~= cats@);
    let badges = &scan.icons.badges;
    let ghost mid2 = notes(out@);
    let mut j: usize = 0;
    while j < badges.len()
        invariant
            j <= badges@.len(),
            notes(out@) == mid2 + badge_notes(badges@.take(j as int)),
        decreases badges@.len() - j,
    {
        assert(badges@.take(j + 1).drop_last() =~= badges@.take(j as int));
        if badges[j].1.is_blank() {
            let path = icon_path("resources/icons/badges/", badges[j].0.as_str());
            emit(out, Finding::error(path.as_str(), "badge icon is blank"));
        }
        assert(notes(out@) =~= mid2 + badge_notes(badges@.take(j + 1)));
        j = j + 1;
    }
    assert(badges@.take(badges@.len() as int) =~= badges@);
    assert(notes(out@) =~= start + icon_notes(*scan));
}

// ---- stray files

/// Whether a relative path lies in a top folder: is it, or starts with it
/// and a `/`.
pub open spec fn under(path: Seq<char>, dir: Seq<char>) -> bool {
    path == dir || (path.len() > dir.len() && path.take(dir.len() as int) == dir && path[dir.len() as int] == '/')
}

/// What to do about a stray file, by where it is.
pub open spec fn stray_hint(path: Seq<char>) -> Seq<char> {
    if under(path, "presets"@) {
        "Only .syx and .toml files belong under presets/."@
    } else if under(path, "resources"@) {
        "Only icons and palette.toml belong under resources/."@
    } else {
        "Nothing else belongs at the root."@
    }
}

/// What stray files raise.
pub open spec fn stray_notes(stray: Seq<String>) -> Seq<Note>
    decreases stray.len(),
{
    if stray.len() == 0 {
        seq![]
    } else {
        stray_notes(stray.drop_last()).push(
            hinted(err(stray.last()@, "file does not belong here"@), stray_hint(stray.last()@)),
        )
    }
}

pub(crate) fn is_under(path: &str, dir: &str) -> (r: bool)
    ensures
        r == under(path@, dir@),
{
    let p = crate::text::chars_of(path);
    let d = crate::text::chars_of(dir);
    if p.len() < d.len() {
        return false;
    }
    let mut i: usize = 0;
    while i < d.len()
        invariant
            i <= d@.len() <= p@.len(),
            p@ == path@,
            d@ == dir@,
            forall|j: int| 0 <= j < i ==> p@[j] == d@[j],
        decreases d@.len() - i,
    {
        if p[i] != d[i] {
            assert(p@.take(d@.len() as int)[i as int] != d@[i as int]);
            assert(p@ != d@);
            return false;
        }
        i = i + 1;
    }
    assert(p@.take(d@.len() as int) =~= d@);
    if p.len() == d.len() {
        assert(p@ =~= d@);
        true
    } else {
        p[d.len()] == '/'
    }
}

fn check_strays(scan: &Scan, out: &mut Vec<Finding>)
    ensures
        notes(final(out)@) == notes(old(out)@) + stray_notes(scan.stray@),
{
    let ghost start = notes(out@);
    let mut i: usize = 0;
    while i < scan.stray.len()
        invariant
            i <= scan.stray@.len(),
            notes(out@) == start + stray_notes(scan.stray@.take(i as int)),
        decreases scan.stray@.len() - i,
    {
        assert(scan.stray@.take(i + 1).drop_last() =~= scan.stray@.take(i as int));
        let path = scan.stray[i].as_str();
        let hint = if is_under(path, "presets") {
            "Only .syx and .toml files belong under presets/."
        } else if is_under(path, "resources") {
            "Only icons and palette.toml belong under resources/."
        } else {
            "Nothing else belongs at the root."
        };
        emit(out, Finding::error(path, "file does not belong here").hint(hint));
        assert(notes(out@) =~= start + stray_notes(scan.stray@.take(i + 1)));
        i = i + 1;
    }
    assert(scan.stray@.take(scan.stray@.len() as int) =~= scan.stray@);
}

// ---- demo files nobody declares

/// What demo files that no patch declares raise; the folder's README is
/// left alone.
pub open spec fn undeclared_notes(files: Seq<String>, declared: Set<Seq<char>>) -> Seq<Note>
    decreases files.len(),
{
    if files.len() == 0 {
        seq![]
    } else {
        undeclared_notes(files.drop_last(), declared) + when(
            files.last()@ != "demos/README.md"@ && !declared.contains(files.last()@),
            hinted(
                err(files.last()@, "no patch declares this demo"@),
                "Add a [[demo]] entry to the patch's .toml, or delete the file."@,
            ),
        )
    }
}

/// The texts a list holds, as a set.
pub open spec fn text_set(v: Seq<String>) -> Set<Seq<char>> {
    Set::new(|t: Seq<char>| exists|i: int| 0 <= i < v.len() && (#[trigger] v[i])@ == t)
}

pub(crate) fn holds(list: &Vec<String>, item: &str) -> (r: bool)
    ensures
        r == text_set(list@).contains(item@),
{
    let mut i: usize = 0;
    while i < list.len()
        invariant
            i <= list@.len(),
            forall|j: int| 0 <= j < i ==> (#[trigger] list@[j])@ != item@,
        decreases list@.len() - i,
    {
        if crate::text::str_eq(list[i].as_str(), item) {
            assert(text_set(list@).contains(item@));
            return true;
        }
        i = i + 1;
    }
    false
}

fn check_demo_files(scan: &Scan, declared: &Vec<String>, out: &mut Vec<Finding>)
    ensures
        notes(final(out)@) == notes(old(out)@) + undeclared_notes(scan.demo_files@, text_set(declared@)),
{
    let ghost start = notes(out@);
    let mut i: usize = 0;
    while i < scan.demo_files.len()
        invariant
            i <= scan.demo_files@.len(),
            notes(out@) == start + undeclared_notes(scan.demo_files@.take(i as int), text_set(declared@)),
        decreases scan.demo_files@.len() - i,
    {
        assert(scan.demo_files@.take(i + 1).drop_last() =~= scan.demo_files@.take(i as int));
        let file = scan.demo_files[i].as_str();
        if !crate::text::str_eq(file, "demos/README.md") && !holds(declared, file) {
            emit(out, Finding::error(file, "no patch declares this demo").hint(
                "Add a [[demo]] entry to the patch's .toml, or delete the file.",
            ));
        }
        assert(notes(out@) =~= start + undeclared_notes(scan.demo_files@.take(i + 1), text_set(declared@)));
        i = i + 1;
    }
    assert(scan.demo_files@.take(scan.demo_files@.len() as int) =~= scan.demo_files@);
}

// ---- the program in a .syx

/// What the slot a program is stored in raises: anything but A1, or none.
pub open spec fn stored_slot_notes(path: Seq<char>, slot: Option<(u8, u8)>) -> Seq<Note> {
    match slot {
        Some(x) => when(
            x != (0u8, 0u8),
            hinted(
                err(path, "is stored as "@ + slot_text(x) + ", expected A1"@),
                "Run `validate normalise` or re-save the program to A1. The slot means nothing here."@,
            ),
        ),
        None => seq![
            hinted(
                err(path, "is an edit buffer dump, not a stored program"@),
                "Save the program to a slot on the instrument and dump that."@,
            ),
        ],
    }
}

/// What the category byte raises: not a category, or not the folder's.
pub open spec fn category_byte_notes(path: Seq<char>, p: (u8, Seq<u8>), folder: Option<Category>) -> Seq<Note> {
    let value = byte_of(p, Param::ProgramCategory);
    match of_value(value) {
        None => seq![
            hinted(
                err(
                    path,
                    "category is "@ + debug_quoted(label_or_value(Param::ProgramCategory, value))
                        + ", which is not one of the twelve"@,
                ),
                "Set a category on the instrument first."@,
            ),
        ],
        Some(stored) => match folder {
            Some(f) => when(
                stored != f,
                hinted(
                    err(path, "program says "@ + name_of(stored) + " but sits in "@ + name_of(f) + "/"@),
                    "Move the files or change the category on the instrument."@,
                ),
            ),
            None => seq![],
        },
    }
}

/// What a stored name unlike the metadata's raises.
pub open spec fn stored_name_notes(slot: Slot, syx: Seq<char>, p: (u8, Seq<u8>)) -> Seq<Note> {
    match slot.meta {
        Some(m) => when(
            stored_name_of(p) != m.name@,
            hinted(
                err(
                    match slot.toml {
                        Some(t) => t@,
                        None => syx,
                    },
                    "name is "@ + debug_quoted(m.name@) + " but the program is called "@ + debug_quoted(
                        stored_name_of(p),
                    ),
                ),
                "The TOML name must equal the sixteen characters stored in the program."@,
            ),
        ),
        None => seq![],
    }
}

/// How an out-of-range parameter is listed: `name = value`.
pub open spec fn invalid_text(x: (Seq<char>, u8)) -> Seq<char> {
    x.0 + " = "@ + decimal(x.1 as nat)
}

/// What out-of-range parameters raise: one warning listing them.
pub open spec fn invalid_notes(path: Seq<char>, p: (u8, Seq<u8>)) -> Seq<Note> {
    when(
        invalid_of(p).len() > 0,
        hinted(
            warn(
                path,
                "parameters out of range: "@ + join(invalid_of(p).map_values(|x: (Seq<char>, u8)| invalid_text(x)), ", "@),
            ),
            "The instrument may ignore or clamp these."@,
        ),
    )
}

/// What a slot's program raises, given the category its folder names.
#[verifier::opaque]
pub open spec fn program_notes(slot: Slot, folder: Option<Category>) -> Seq<Note> {
    match slot.syx {
        None => seq![],
        Some(syx) => if slot.bytes is None {
            seq![]
        } else if slot.programs@.len() == 0 {
            seq![
                hinted(
                    err(syx@, "holds no program dump"@),
                    "Save one program from the instrument, not the globals or a pattern."@,
                ),
            ]
        } else if slot.programs@.len() != 1 {
            seq![
                hinted(
                    err(syx@, "holds "@ + decimal(slot.programs@.len()) + " programs, expected one"@),
                    "One sound per file. Export a single program, not a bank."@,
                ),
            ]
        } else {
            let e = slot.programs@[0];
            stored_slot_notes(syx@, e.slot) + category_byte_notes(syx@, e.program@, folder)
                + stored_name_notes(slot, syx@, e.program@) + invalid_notes(syx@, e.program@)
        },
    }
}

fn check_stored_slot(syx: &str, slot: Option<(u8, u8)>, out: &mut Vec<Finding>)
    requires
        slot matches Some(x) ==> x.0 < 8,
    ensures
        notes(final(out)@) == notes(old(out)@) + stored_slot_notes(syx@, slot),
{
    let ghost start = notes(out@);
    match slot {
        Some(x) => {
            if x.0 != 0 || x.1 != 0 {
                let mut m = owned("is stored as ");
                let t = slot_to_string(x);
                push_str(&mut m, t.as_str());
                push_str(&mut m, ", expected A1");
                emit(out, Finding::error(syx, m.as_str()).hint(
                    "Run `validate normalise` or re-save the program to A1. The slot means nothing here.",
                ));
            }
        },
        None => {
            emit(out, Finding::error(syx, "is an edit buffer dump, not a stored program").hint(
                "Save the program to a slot on the instrument and dump that.",
            ));
        },
    }
    assert(notes(out@) =~= start + stored_slot_notes(syx@, slot));
}

fn check_category_byte(syx: &str, program: &StoredProgram, folder: Option<Category>, out: &mut Vec<Finding>)
    requires
        program.wf(),
    ensures
        notes(final(out)@) == notes(old(out)@) + category_byte_notes(syx@, program@, folder),
{
    let ghost start = notes(out@);
    match Category::of(program) {
        None => {
            let label = Category::label_of_value(program.get(Param::ProgramCategory));
            let mut m = owned("category is ");
            let q = quoted(label.as_str());
            push_str(&mut m, q.as_str());
            push_str(&mut m, ", which is not one of the twelve");
            emit(out, Finding::error(syx, m.as_str()).hint("Set a category on the instrument first."));
        },
        Some(stored) => match folder {
            Some(f) => {
                if stored != f {
                    let mut m = owned("program says ");
                    push_str(&mut m, stored.name());
                    push_str(&mut m, " but sits in ");
                    push_str(&mut m, f.name());
                    push_str(&mut m, "/");
                    emit(out, Finding::error(syx, m.as_str()).hint(
                        "Move the files or change the category on the instrument.",
                    ));
                }
            },
            None => {},
        },
    }
    assert(notes(out@) =~= start + category_byte_notes(syx@, program@, folder));
}

fn check_stored_name(slot: &Slot, syx: &str, program: &StoredProgram, out: &mut Vec<Finding>)
    ensures
        notes(final(out)@) == notes(old(out)@) + stored_name_notes(*slot, syx@, program@),
{
    let ghost start = notes(out@);
    match &slot.meta {
        Some(meta) => {
            let stored = program.name();
            if !crate::text::str_eq(stored.as_str(), meta.name.as_str()) {
                let path = match &slot.toml {
                    Some(t) => t.as_str(),
                    None => syx,
                };
                let mut m = owned("name is ");
                let q = quoted(meta.name.as_str());
                push_str(&mut m, q.as_str());
                push_str(&mut m, " but the program is called ");
                let q2 = quoted(stored.as_str());
                push_str(&mut m, q2.as_str());
                emit(out, Finding::error(path, m.as_str()).hint(
                    "The TOML name must equal the sixteen characters stored in the program.",
                ));
            }
        },
        None => {},
    }
    assert(notes(out@) =~= start + stored_name_notes(*slot, syx@, program@));
}

fn check_invalid(syx: &str, program: &StoredProgram, out: &mut Vec<Finding>)
    ensures
        notes(final(out)@) == notes(old(out)@) + invalid_notes(syx@, program@),
{
    let ghost start = notes(out@);
    let invalid = program.invalid();
    if invalid.len() > 0 {
        let mut parts: Vec<String> = Vec::new();
        let mut i: usize = 0;
        while i < invalid.len()
            invariant
                i <= invalid@.len(),
                invalid@.len() == invalid_of(program@).len(),
                forall|j: int|
                    0 <= j < invalid@.len() ==> (#[trigger] invalid@[j]).0@ == invalid_of(program@)[j].0
                        && invalid@[j].1 == invalid_of(program@)[j].1,
                crate::text::texts(parts@) == invalid_of(program@).take(i as int).map_values(
                    |x: (Seq<char>, u8)| invalid_text(x),
                ),
            decreases invalid@.len() - i,
        {
            let mut t = owned(invalid[i].0.as_str());
            push_str(&mut t, " = ");
            crate::text::push_decimal(&mut t, invalid[i].1 as u64);
            let ghost before = parts@;
            parts.push(t);
            assert(crate::text::texts(parts@) =~= crate::text::texts(before).push(t@));
            assert(invalid_of(program@).take(i + 1).map_values(|x: (Seq<char>, u8)| invalid_text(x))
                =~= invalid_of(program@).take(i as int).map_values(|x: (Seq<char>, u8)| invalid_text(x)).push(
                invalid_text(invalid_of(program@)[i as int]),
            ));
            i = i + 1;
        }
        assert(invalid_of(program@).take(invalid@.len() as int) =~= invalid_of(program@));
        let joined = crate::text::join_strings(parts.as_slice(), ", ");
        let mut m = owned("parameters out of range: ");
        push_str(&mut m, joined.as_str());
        emit(out, Finding::warning(syx, m.as_str()).hint("The instrument may ignore or clamp these."));
    }
    assert(notes(out@) =~= start + invalid_notes(syx@, program@));
}

fn check_program(slot: &Slot, folder: Option<Category>, out: &mut Vec<Finding>)
    requires
        crate::library::slot_programs_wf(*slot),
    ensures
        notes(final(out)@) == notes(old(out)@) + program_notes(*slot, folder),
{
    proof {
        reveal(program_notes);
    }
    let ghost start = notes(out@);
    let syx = match &slot.syx {
        None => {
            assert(notes(out@) =~= start + program_notes(*slot, folder));
            return;
        },
        Some(p) => p.as_str(),
    };
    if slot.bytes.is_none() {
        assert(notes(out@) =~= start + program_notes(*slot, folder));
        return;
    }
    if slot.programs.len() == 0 {
        emit(out, Finding::error(syx, "holds no program dump").hint(
            "Save one program from the instrument, not the globals or a pattern.",
        ));
        assert(notes(out@) =~= start + program_notes(*slot, folder));
        return;
    }
    if slot.programs.len() != 1 {
        let mut m = owned("holds ");
        crate::text::push_decimal(&mut m, slot.programs.len() as u64);
        push_str(&mut m, " programs, expected one");
        emit(out, Finding::error(syx, m.as_str()).hint(
            "One sound per file. Export a single program, not a bank.",
        ));
        assert(notes(out@) =~= start + program_notes(*slot, folder));
        return;
    }
    let entry = &slot.programs[0];
    assert(entry.program.wf());
    check_stored_slot(syx, entry.slot, out);
    let ghost a1 = notes(out@);
    check_category_byte(syx, &entry.program, folder, out);
    let ghost a2 = notes(out@);
    check_stored_name(slot, syx, &entry.program, out);
    let ghost a3 = notes(out@);
    check_invalid(syx, &entry.program, out);
    assert(notes(out@) =~= start + program_notes(*slot, folder));
}

// ---- the metadata in a .toml

/// The line a key sits on in the `.toml` text.
pub open spec fn line(text: Seq<char>, key: Seq<char>) -> Option<u32> {
    crate::validate::line_of_key(text, key)
}

/// What the name raises: empty, or not storable as a program name.
#[verifier::opaque]
pub open spec fn name_notes(m: PatchMeta, p: Seq<char>, text: Seq<char>) -> Seq<Note> {
    if is_blank(m.name@) {
        seq![lined(err(p, "name is empty"@), line(text, "name"@))]
    } else if !is_program_name(m.name@) {
        seq![
            hinted(
                lined(err(p, "name cannot be a program name: "@ + program_name_refusal(m.name@)), line(text, "name"@)),
                "Sixteen printable ASCII characters at most."@,
            ),
        ]
    } else {
        seq![]
    }
}

/// What the author raises: empty, or an email address.
#[verifier::opaque]
pub open spec fn author_notes(m: PatchMeta, p: Seq<char>, text: Seq<char>) -> Seq<Note> {
    if is_blank(m.author@) {
        seq![lined(err(p, "author is empty"@), line(text, "author"@))]
    } else if m.author@.contains('@') {
        seq![hinted(lined(err(p, "author looks like an email address"@), line(text, "author"@)), "Use a name or a handle."@)]
    } else {
        seq![]
    }
}

/// What the version raises: zero.
#[verifier::opaque]
pub open spec fn version_notes(m: PatchMeta, p: Seq<char>, text: Seq<char>) -> Seq<Note> {
    when(
        m.version == 0,
        hinted(
            lined(err(p, "version must be 1 or more"@), line(text, "version"@)),
            "Start at 1. Bump it whenever the .syx bytes change."@,
        ),
    )
}

/// What the description raises: empty, or over 400 characters.
#[verifier::opaque]
pub open spec fn about_notes(m: PatchMeta, p: Seq<char>, text: Seq<char>) -> Seq<Note> {
    if is_blank(m.about@) {
        seq![
            hinted(
                lined(err(p, "about is empty"@), line(text, "about"@)),
                "One or two sentences: what it sounds like, how to play it."@,
            ),
        ]
    } else if m.about@.len() > 400 {
        seq![lined(err(p, "about is over 400 characters"@), line(text, "about"@))]
    } else {
        seq![]
    }
}

/// What the licence raises: neither an SPDX identifier nor the reserved
/// rights text.
#[verifier::opaque]
pub open spec fn licence_notes(m: PatchMeta, p: Seq<char>, text: Seq<char>) -> Seq<Note> {
    when(
        !(m.licence@ == ALL_RIGHTS_RESERVED@ || spdx_listed(m.licence@)),
        hinted(
            lined(err(p, "licence "@ + debug_quoted(m.licence@) + " is not an SPDX identifier"@), line(text, "licence"@)),
            "Use an identifier from spdx.org/licenses, such as CC-BY-4.0, or exactly \"All rights reserved\"."@,
        ),
    )
}

/// What no term at all raises.
#[verifier::opaque]
pub open spec fn no_terms_notes(m: PatchMeta, p: Seq<char>) -> Seq<Note> {
    when(
        !(m.genre@.len() > 0 || m.mood@.len() > 0 || m.timbre@.len() > 0 || m.role@.len() > 0),
        hinted(err(p, "no genre, mood, timbre or role"@), "Set at least one term from taxonomy.toml on any axis."@),
    )
}

/// What the terms on one axis raise: a term not in the taxonomy, and a term
/// listed again.
pub open spec fn axis_term_notes(t: Taxonomy, axis: Axis, terms: Seq<String>, p: Seq<char>, text: Seq<char>) -> Seq<Note>
    decreases terms.len(),
{
    if terms.len() == 0 {
        seq![]
    } else {
        let term = terms.last()@;
        let earlier = crate::text::texts(terms.drop_last());
        axis_term_notes(t, axis, terms.drop_last(), p, text) + when(
            !t.has(axis, term),
            hinted(
                lined(err(p, axis_name(axis) + " term "@ + debug_quoted(term) + " is not in taxonomy.toml"@), line(text, axis_name(axis))),
                "Pick an existing term, or propose the new one in its own pull request."@,
            ),
        ) + when(
            earlier.contains(term),
            lined(err(p, axis_name(axis) + " lists "@ + debug_quoted(term) + " twice"@), line(text, axis_name(axis))),
        )
    }
}

/// What the vocabulary raises, axis by axis, when there is a taxonomy.
#[verifier::opaque]
pub open spec fn vocabulary_notes(t: Option<Taxonomy>, m: PatchMeta, p: Seq<char>, text: Seq<char>) -> Seq<Note> {
    match t {
        None => seq![],
        Some(t) => axis_term_notes(t, Axis::Genre, m.genre@, p, text) + axis_term_notes(t, Axis::Mood, m.mood@, p, text)
            + axis_term_notes(t, Axis::Timbre, m.timbre@, p, text) + axis_term_notes(t, Axis::Role, m.role@, p, text),
    }
}

/// The instrument models, as Behringer writes them.
pub open spec fn known_models() -> Seq<Seq<char>> {
    seq!["DeepMind 6"@, "DeepMind 6X"@, "DeepMind 12"@, "DeepMind 12X"@, "DeepMind 12D"@, "DeepMind 12XD"@]
}

/// What the model raises: not one of the known models.
#[verifier::opaque]
pub open spec fn model_notes(m: PatchMeta, p: Seq<char>, text: Seq<char>) -> Seq<Note> {
    match m.model {
        Some(model) => when(
            !known_models().contains(model@),
            lined(
                err(p, "model "@ + debug_quoted(model@) + " is not one of "@ + join(known_models(), ", "@)),
                line(text, "model"@),
            ),
        ),
        None => seq![],
    }
}

/// Whether firmware is written like `1.1.5`: dotted, each part digits.
pub open spec fn firmware_ok(f: Seq<char>) -> bool {
    &&& f.contains('.')
    &&& forall|i: int| 0 <= i < crate::text::split(f, '.').len() ==> #[trigger] crate::text::split(f, '.')[i].len() > 0
        && crate::text::all_digits(crate::text::split(f, '.')[i])
}

/// What the firmware raises: not a dotted version.
#[verifier::opaque]
pub open spec fn firmware_notes(m: PatchMeta, p: Seq<char>, text: Seq<char>) -> Seq<Note> {
    match m.firmware {
        Some(f) => when(
            !firmware_ok(f@),
            lined(err(p, "firmware "@ + debug_quoted(f@) + " is not a version like 1.1.5"@), line(text, "firmware"@)),
        ),
        None => seq![],
    }
}

/// What the tags raise: each empty or over 32 characters.
pub open spec fn tag_notes(tags: Seq<String>, p: Seq<char>, text: Seq<char>) -> Seq<Note>
    decreases tags.len(),
{
    if tags.len() == 0 {
        seq![]
    } else {
        tag_notes(tags.drop_last(), p, text) + when(
            is_blank(tags.last()@) || tags.last()@.len() > 32,
            lined(err(p, "tag "@ + debug_quoted(tags.last()@) + " is empty or over 32 characters"@), line(text, "tags"@)),
        )
    }
}

/// What the patch's own icon raises: blank.
#[verifier::opaque]
pub open spec fn own_icon_notes(m: PatchMeta, p: Seq<char>, text: Seq<char>) -> Seq<Note> {
    match m.icon {
        Some(i) => when(
            i.nothing_lit(),
            hinted(
                lined(err(p, "icon is blank"@), line(text, "icon"@)),
                "Draw something, or remove the field to use the category icon."@,
            ),
        ),
        None => seq![],
    }
}

/// What unknown fields raise, one each.
pub open spec fn unknown_notes(unknown: Seq<(String, TomlValue)>, p: Seq<char>, text: Seq<char>) -> Seq<Note>
    decreases unknown.len(),
{
    if unknown.len() == 0 {
        seq![]
    } else {
        let k = unknown.last().0@;
        unknown_notes(unknown.drop_last(), p, text).push(
            hinted(
                lined(err(p, "unknown field "@ + debug_quoted(k)), line(text, k)),
                "docs/format.md lists every field. Anything the .syx already says is derived, not typed."@,
            ),
        )
    }
}

/// What a missing model raises: a warning.
#[verifier::opaque]
pub open spec fn model_missing_notes(m: PatchMeta, p: Seq<char>) -> Seq<Note> {
    when(
        m.model is None,
        hinted(
            warn(p, "model is not set"@),
            "A unison patch behaves differently on a DeepMind 6. Say what it was voiced on."@,
        ),
    )
}

/// What the metadata raises, field by field.
#[verifier::opaque]
pub open spec fn meta_notes(t: Option<Taxonomy>, m: PatchMeta, p: Seq<char>, text: Seq<char>) -> Seq<Note> {
    name_notes(m, p, text) + author_notes(m, p, text) + version_notes(m, p, text) + about_notes(m, p, text)
        + licence_notes(m, p, text) + no_terms_notes(m, p) + vocabulary_notes(t, m, p, text) + model_notes(m, p, text)
        + firmware_notes(m, p, text) + tag_notes(m.tags@, p, text) + own_icon_notes(m, p, text) + unknown_notes(
        m.unknown@,
        p,
        text,
    ) + model_missing_notes(m, p)
}

/// Whether every finding's message starts with a character other than `v`.
spec fn not_about_version(s: Seq<Note>) -> bool {
    forall|i: int| 0 <= i < s.len() ==> (#[trigger] s[i]).3.len() > 0 && s[i].3[0] != 'v'
}

proof fn lemma_not_about_version_join(a: Seq<Note>, b: Seq<Note>)
    requires
        not_about_version(a),
        not_about_version(b),
    ensures
        not_about_version(a + b),
{
    assert forall|i: int| 0 <= i < (a + b).len() implies (#[trigger] (a + b)[i]).3.len() > 0 && (a + b)[i].3[0] != 'v' by {
        if i < a.len() {
            assert((a + b)[i] == a[i]);
        } else {
            assert((a + b)[i] == b[i - a.len()]);
        }
    }
}

proof fn lemma_message_start(lit: Seq<char>, rest: Seq<char>)
    requires
        lit.len() > 0,
    ensures
        (lit + rest).len() > 0,
        (lit + rest)[0] == lit[0],
{
}

proof fn lemma_axis_notes_not_about_version(t: Taxonomy, axis: Axis, terms: Seq<String>, p: Seq<char>, text: Seq<char>)
    ensures
        not_about_version(axis_term_notes(t, axis, terms, p, text)),
    decreases terms.len(),
{
    if terms.len() > 0 {
        reveal_strlit("genre");
        reveal_strlit("mood");
        reveal_strlit("timbre");
        reveal_strlit("role");
        let term = terms.last()@;
        lemma_axis_notes_not_about_version(t, axis, terms.drop_last(), p, text);
        let a = axis_name(axis);
        assert(a.len() > 0 && a[0] != 'v');
        lemma_message_start(a, " term "@ + debug_quoted(term) + " is not in taxonomy.toml"@);
        assert(a + " term "@ + debug_quoted(term) + " is not in taxonomy.toml"@ == a + (" term "@ + debug_quoted(term)
            + " is not in taxonomy.toml"@));
        lemma_message_start(a, " lists "@ + debug_quoted(term) + " twice"@);
        assert(a + " lists "@ + debug_quoted(term) + " twice"@ == a + (" lists "@ + debug_quoted(term) + " twice"@));
        let n1 = when(
            !t.has(axis, term),
            hinted(
                lined(err(p, a + " term "@ + debug_quoted(term) + " is not in taxonomy.toml"@), line(text, a)),
                "Pick an existing term, or propose the new one in its own pull request."@,
            ),
        );
        let n2 = when(
            crate::text::texts(terms.drop_last()).contains(term),
            lined(err(p, a + " lists "@ + debug_quoted(term) + " twice"@), line(text, a)),
        );
        lemma_not_about_version_join(axis_term_notes(t, axis, terms.drop_last(), p, text), n1);
        lemma_not_about_version_join(axis_term_notes(t, axis, terms.drop_last(), p, text) + n1, n2);
    }
}

proof fn lemma_tag_notes_not_about_version(tags: Seq<String>, p: Seq<char>, text: Seq<char>)
    ensures
        not_about_version(tag_notes(tags, p, text)),
    decreases tags.len(),
{
    if tags.len() > 0 {
        reveal_strlit("tag ");
        lemma_tag_notes_not_about_version(tags.drop_last(), p, text);
        let rest = debug_quoted(tags.last()@) + " is empty or over 32 characters"@;
        lemma_message_start("tag "@, rest);
        assert("tag "@ + debug_quoted(tags.last()@) + " is empty or over 32 characters"@ == "tag "@ + rest);
        let n = when(
            is_blank(tags.last()@) || tags.last()@.len() > 32,
            lined(err(p, "tag "@ + debug_quoted(tags.last()@) + " is empty or over 32 characters"@), line(text, "tags"@)),
        );
        lemma_not_about_version_join(tag_notes(tags.drop_last(), p, text), n);
    }
}

proof fn lemma_unknown_notes_not_about_version(unknown: Seq<(String, TomlValue)>, p: Seq<char>, text: Seq<char>)
    ensures
        not_about_version(unknown_notes(unknown, p, text)),
    decreases unknown.len(),
{
    if unknown.len() > 0 {
        reveal_strlit("unknown field ");
        lemma_unknown_notes_not_about_version(unknown.drop_last(), p, text);
        lemma_message_start("unknown field "@, debug_quoted(unknown.last().0@));
    }
}

proof fn lemma_name_author_not_about_version(m: PatchMeta, p: Seq<char>, text: Seq<char>)
    ensures
        not_about_version(name_notes(m, p, text)),
        not_about_version(author_notes(m, p, text)),
{
    reveal(name_notes);
    reveal(author_notes);
    reveal_strlit("name is empty");
    reveal_strlit("name cannot be a program name: ");
    reveal_strlit("author is empty");
    reveal_strlit("author looks like an email address");
    lemma_message_start("name cannot be a program name: "@, program_name_refusal(m.name@));
}

proof fn lemma_about_licence_not_about_version(m: PatchMeta, p: Seq<char>, text: Seq<char>)
    ensures
        not_about_version(about_notes(m, p, text)),
        not_about_version(licence_notes(m, p, text)),
        not_about_version(no_terms_notes(m, p)),
{
    reveal(about_notes);
    reveal(licence_notes);
    reveal(no_terms_notes);
    reveal_strlit("about is empty");
    reveal_strlit("about is over 400 characters");
    reveal_strlit("licence ");
    reveal_strlit("no genre, mood, timbre or role");
    lemma_message_start("licence "@, debug_quoted(m.licence@) + " is not an SPDX identifier"@);
    assert("licence "@ + debug_quoted(m.licence@) + " is not an SPDX identifier"@ == "licence "@ + (debug_quoted(
        m.licence@,
    ) + " is not an SPDX identifier"@));
}

proof fn lemma_model_firmware_not_about_version(m: PatchMeta, p: Seq<char>, text: Seq<char>)
    ensures
        not_about_version(model_notes(m, p, text)),
        not_about_version(firmware_notes(m, p, text)),
        not_about_version(own_icon_notes(m, p, text)),
        not_about_version(model_missing_notes(m, p)),
{
    reveal(model_notes);
    reveal(firmware_notes);
    reveal(own_icon_notes);
    reveal(model_missing_notes);
    reveal_strlit("model ");
    reveal_strlit("firmware ");
    reveal_strlit("icon is blank");
    reveal_strlit("model is not set");
    match m.model {
        Some(model) => {
            let r = debug_quoted(model@) + " is not one of "@ + join(known_models(), ", "@);
            lemma_message_start("model "@, r);
            assert("model "@ + debug_quoted(model@) + " is not one of "@ + join(known_models(), ", "@) == "model "@ + r);
        },
        None => {},
    }
    match m.firmware {
        Some(f) => {
            let r = debug_quoted(f@) + " is not a version like 1.1.5"@;
            lemma_message_start("firmware "@, r);
            assert("firmware "@ + debug_quoted(f@) + " is not a version like 1.1.5"@ == "firmware "@ + r);
        },
        None => {},
    }
}

proof fn lemma_vocabulary_not_about_version(t: Option<Taxonomy>, m: PatchMeta, p: Seq<char>, text: Seq<char>)
    ensures
        not_about_version(vocabulary_notes(t, m, p, text)),
{
    reveal(vocabulary_notes);
    match t {
        Some(tx) => {
            let g = axis_term_notes(tx, Axis::Genre, m.genre@, p, text);
            let mo = axis_term_notes(tx, Axis::Mood, m.mood@, p, text);
            let ti = axis_term_notes(tx, Axis::Timbre, m.timbre@, p, text);
            let ro = axis_term_notes(tx, Axis::Role, m.role@, p, text);
            lemma_axis_notes_not_about_version(tx, Axis::Genre, m.genre@, p, text);
            lemma_axis_notes_not_about_version(tx, Axis::Mood, m.mood@, p, text);
            lemma_axis_notes_not_about_version(tx, Axis::Timbre, m.timbre@, p, text);
            lemma_axis_notes_not_about_version(tx, Axis::Role, m.role@, p, text);
            lemma_not_about_version_join(g, mo);
            lemma_not_about_version_join(g + mo, ti);
            lemma_not_about_version_join(g + mo + ti, ro);
        },
        None => {},
    }
}

/// The version finding is there exactly when the version is zero: metadata
/// with version 0 raises the error `version must be 1 or more` on its
/// `version` line, whatever its other fields hold, and metadata with any
/// other version raises no finding about the version at all.
pub proof fn lemma_version_zero_is_refused(t: Option<Taxonomy>, m: PatchMeta, p: Seq<char>, text: Seq<char>)
    ensures
        m.version == 0 ==> exists|i: int|
            0 <= i < meta_notes(t, m, p, text).len() && #[trigger] meta_notes(t, m, p, text)[i] == (
                Severity::Error,
                p,
                line(text, "version"@),
                "version must be 1 or more"@,
                Some("Start at 1. Bump it whenever the .syx bytes change."@),
            ),
        m.version != 0 ==> forall|i: int|
            0 <= i < meta_notes(t, m, p, text).len() ==> (#[trigger] meta_notes(t, m, p, text)[i]).3
                != "version must be 1 or more"@,
{
    reveal(meta_notes);
    reveal(version_notes);
    let a = name_notes(m, p, text) + author_notes(m, p, text);
    let v = version_notes(m, p, text);
    let r3 = about_notes(m, p, text) + licence_notes(m, p, text) + no_terms_notes(m, p);
    let r4 = r3 + vocabulary_notes(t, m, p, text);
    let r5 = r4 + model_notes(m, p, text);
    let r6 = r5 + firmware_notes(m, p, text);
    let r7 = r6 + tag_notes(m.tags@, p, text);
    let r8 = r7 + own_icon_notes(m, p, text);
    let r9 = r8 + unknown_notes(m.unknown@, p, text);
    let rest = r9 + model_missing_notes(m, p);
    let all = meta_notes(t, m, p, text);
    assert(all =~= a + v + rest);
    if m.version == 0 {
        assert(all[a.len() as int] == v[0]);
    } else {
        lemma_name_author_not_about_version(m, p, text);
        lemma_about_licence_not_about_version(m, p, text);
        lemma_model_firmware_not_about_version(m, p, text);
        lemma_vocabulary_not_about_version(t, m, p, text);
        lemma_tag_notes_not_about_version(m.tags@, p, text);
        lemma_unknown_notes_not_about_version(m.unknown@, p, text);
        lemma_not_about_version_join(name_notes(m, p, text), author_notes(m, p, text));
        lemma_not_about_version_join(about_notes(m, p, text), licence_notes(m, p, text));
        lemma_not_about_version_join(about_notes(m, p, text) + licence_notes(m, p, text), no_terms_notes(m, p));
        lemma_not_about_version_join(r3, vocabulary_notes(t, m, p, text));
        lemma_not_about_version_join(r4, model_notes(m, p, text));
        lemma_not_about_version_join(r5, firmware_notes(m, p, text));
        lemma_not_about_version_join(r6, tag_notes(m.tags@, p, text));
        lemma_not_about_version_join(r7, own_icon_notes(m, p, text));
        lemma_not_about_version_join(r8, unknown_notes(m.unknown@, p, text));
        lemma_not_about_version_join(r9, model_missing_notes(m, p));
        assert(a + v =~= a);
        lemma_not_about_version_join(a, rest);
        reveal_strlit("version must be 1 or more");
        assert forall|i: int| 0 <= i < all.len() implies (#[trigger] all[i]).3 != "version must be 1 or more"@ by {
            assert(all[i] == (a + rest)[i]);
            assert(all[i].3[0] != 'v');
            assert("version must be 1 or more"@[0] == 'v');
        }
    }
}

fn has_char(s: &str, c: char) -> (r: bool)
    ensures
        r == s@.contains(c),
{
    let chars = crate::text::chars_of(s);
    let mut i: usize = 0;
    while i < chars.len()
        invariant
            i <= chars@.len(),
            chars@ == s@,
            forall|j: int| 0 <= j < i ==> chars@[j] != c,
        decreases chars@.len() - i,
    {
        if chars[i] == c {
            assert(s@[i as int] == c);
            return true;
        }
        i = i + 1;
    }
    false
}

fn check_name_author(m: &PatchMeta, p: &str, text: &str, out: &mut Vec<Finding>)
    ensures
        notes(final(out)@) == notes(old(out)@) + name_notes(*m, p@, text@) + author_notes(*m, p@, text@)
            + version_notes(*m, p@, text@),
{
    proof {
        reveal(name_notes);
        reveal(author_notes);
        reveal(version_notes);
    }
    let ghost start = notes(out@);
    if crate::text::blank(m.name.as_str()) {
        emit(out, Finding::error(p, "name is empty").at(line_of(text, "name")));
    } else {
        match program_name_problem(m.name.as_str()) {
            Some(refusal) => {
                let mut s = owned("name cannot be a program name: ");
                push_str(&mut s, refusal.as_str());
                emit(out, Finding::error(p, s.as_str()).at(line_of(text, "name")).hint(
                    "Sixteen printable ASCII characters at most.",
                ));
            },
            None => {},
        }
    }
    let ghost a = notes(out@);
    assert(a =~= start + name_notes(*m, p@, text@));
    if crate::text::blank(m.author.as_str()) {
        emit(out, Finding::error(p, "author is empty").at(line_of(text, "author")));
    } else if has_char(m.author.as_str(), '@') {
        emit(out, Finding::error(p, "author looks like an email address").at(line_of(text, "author")).hint(
            "Use a name or a handle.",
        ));
    }
    let ghost b = notes(out@);
    assert(b =~= a + author_notes(*m, p@, text@));
    if m.version == 0 {
        emit(out, Finding::error(p, "version must be 1 or more").at(line_of(text, "version")).hint(
            "Start at 1. Bump it whenever the .syx bytes change.",
        ));
    }
    assert(notes(out@) =~= b + version_notes(*m, p@, text@));
}

fn check_about_licence(m: &PatchMeta, p: &str, text: &str, out: &mut Vec<Finding>)
    ensures
        notes(final(out)@) == notes(old(out)@) + about_notes(*m, p@, text@) + licence_notes(*m, p@, text@)
            + no_terms_notes(*m, p@),
{
    proof {
        reveal(about_notes);
        reveal(licence_notes);
        reveal(no_terms_notes);
    }
    let ghost start = notes(out@);
    if crate::text::blank(m.about.as_str()) {
        emit(out, Finding::error(p, "about is empty").at(line_of(text, "about")).hint(
            "One or two sentences: what it sounds like, how to play it.",
        ));
    } else if m.about.unicode_len() > 400 {
        emit(out, Finding::error(p, "about is over 400 characters").at(line_of(text, "about")));
    }
    let ghost a = notes(out@);
    assert(a =~= start + about_notes(*m, p@, text@));
    if !m.licence_is_valid() {
        let mut s = owned("licence ");
        let q = quoted(m.licence.as_str());
        push_str(&mut s, q.as_str());
        push_str(&mut s, " is not an SPDX identifier");
        emit(out, Finding::error(p, s.as_str()).at(line_of(text, "licence")).hint(
            "Use an identifier from spdx.org/licenses, such as CC-BY-4.0, or exactly \"All rights reserved\".",
        ));
    }
    let ghost b = notes(out@);
    assert(b =~= a + licence_notes(*m, p@, text@));
    if !m.has_terms() {
        emit(out, Finding::error(p, "no genre, mood, timbre or role").hint(
            "Set at least one term from taxonomy.toml on any axis.",
        ));
    }
    assert(notes(out@) =~= b + no_terms_notes(*m, p@));
}

fn check_axis_terms(t: &Taxonomy, axis: Axis, terms: &Vec<String>, p: &str, text: &str, out: &mut Vec<Finding>)
    ensures
        notes(final(out)@) == notes(old(out)@) + axis_term_notes(*t, axis, terms@, p@, text@),
{
    proof {
    }
    let ghost start = notes(out@);
    let mut seen: Vec<String> = Vec::new();
    let mut i: usize = 0;
    while i < terms.len()
        invariant
            i <= terms@.len(),
            crate::text::texts(seen@) == crate::text::texts(terms@.take(i as int)),
            notes(out@) == start + axis_term_notes(*t, axis, terms@.take(i as int), p@, text@),
        decreases terms@.len() - i,
    {
        assert(terms@.take(i + 1).drop_last() =~= terms@.take(i as int));
        let term = terms[i].as_str();
        let name = axis.name();
        if !t.contains(axis, term) {
            let mut s = owned(name);
            push_str(&mut s, " term ");
            let q = quoted(term);
            push_str(&mut s, q.as_str());
            push_str(&mut s, " is not in taxonomy.toml");
            emit(out, Finding::error(p, s.as_str()).at(line_of(text, name)).hint(
                "Pick an existing term, or propose the new one in its own pull request.",
            ));
        }
        let again = holds(&seen, term);
        proof {
            let earlier = crate::text::texts(terms@.take(i as int));
            if again {
                let j = choose|j: int| 0 <= j < seen@.len() && (#[trigger] seen@[j])@ == term@;
                assert(earlier[j] == term@);
            } else {
                if earlier.contains(term@) {
                    let j = choose|j: int| 0 <= j < earlier.len() && earlier[j] == term@;
                    assert(seen@[j]@ == term@);
                    assert(text_set(seen@).contains(term@));
                }
            }
        }
        if again {
            let mut s = owned(name);
            push_str(&mut s, " lists ");
            let q = quoted(term);
            push_str(&mut s, q.as_str());
            push_str(&mut s, " twice");
            emit(out, Finding::error(p, s.as_str()).at(line_of(text, name)));
        }
        let ghost before = seen@;
        seen.push(terms[i].clone());
        assert(crate::text::texts(seen@) =~= crate::text::texts(before).push(terms@[i as int]@));
        assert(crate::text::texts(terms@.take(i + 1)) =~= crate::text::texts(terms@.take(i as int)).push(terms@[i as int]@));
        assert(notes(out@) =~= start + axis_term_notes(*t, axis, terms@.take(i + 1), p@, text@));
        i = i + 1;
    }
    assert(terms@.take(terms@.len() as int) =~= terms@);
}

fn check_vocabulary(t: &Option<Taxonomy>, m: &PatchMeta, p: &str, text: &str, out: &mut Vec<Finding>)
    ensures
        notes(final(out)@) == notes(old(out)@) + vocabulary_notes(*t, *m, p@, text@),
{
    proof {
        reveal(vocabulary_notes);
    }
    let ghost start = notes(out@);
    match t {
        None => {
            assert(notes(out@) =~= start + vocabulary_notes(*t, *m, p@, text@));
        },
        Some(t) => {
            check_axis_terms(t, Axis::Genre, &m.genre, p, text, out);
            check_axis_terms(t, Axis::Mood, &m.mood, p, text, out);
            check_axis_terms(t, Axis::Timbre, &m.timbre, p, text, out);
            check_axis_terms(t, Axis::Role, &m.role, p, text, out);
            assert(notes(out@) =~= start + vocabulary_notes(Some(*t), *m, p@, text@));
        },
    }
}

fn digits_only(part: &Vec<char>) -> (r: bool)
    ensures
        r == crate::text::all_digits(part@),
{
    let mut k: usize = 0;
    while k < part.len()
        invariant
            k <= part@.len(),
            forall|q: int| 0 <= q < k ==> crate::text::is_ascii_digit(#[trigger] part@[q]),
        decreases part@.len() - k,
    {
        if !crate::text::ascii_digit(part[k]) {
            return false;
        }
        k = k + 1;
    }
    true
}

fn firmware_valid(f: &str) -> (r: bool)
    ensures
        r == firmware_ok(f@),
{
    let chars = crate::text::chars_of(f);
    let parts = crate::text::split_chars(chars.as_slice(), '.');
    let mut i: usize = 0;
    while i < parts.len()
        invariant
            i <= parts@.len(),
            crate::text::views(parts@) == crate::text::split(f@, '.'),
            chars@ == f@,
            forall|j: int| 0 <= j < i ==> #[trigger] crate::text::split(f@, '.')[j].len() > 0
                && crate::text::all_digits(crate::text::split(f@, '.')[j]),
        decreases parts@.len() - i,
    {
        let part = &parts[i];
        assert(part@ == crate::text::split(f@, '.')[i as int]);
        if part.len() == 0 {
            assert(crate::text::split(f@, '.')[i as int].len() == 0);
            return false;
        }
        if !digits_only(part) {
            assert(!crate::text::all_digits(crate::text::split(f@, '.')[i as int]));
            return false;
        }
        i = i + 1;
    }
    has_char(f, '.')
}

fn check_model(m: &PatchMeta, p: &str, text: &str, out: &mut Vec<Finding>)
    ensures
        notes(final(out)@) == notes(old(out)@) + model_notes(*m, p@, text@),
{
    proof {
        reveal(model_notes);
    }
    let ghost start = notes(out@);
    match &m.model {
        Some(model) => {
            let names = model_names();
            let mut known = false;
            let mut i: usize = 0;
            while i < names.len()
                invariant
                    i <= names@.len(),
                    names@.len() == 6,
                    forall|j: int| 0 <= j < 6 ==> (#[trigger] names@[j])@ == known_models()[j],
                    known == exists|j: int| 0 <= j < i && (#[trigger] names@[j])@ == model@,
                decreases names@.len() - i,
            {
                if crate::text::str_eq(names[i].as_str(), model.as_str()) {
                    known = true;
                }
                i = i + 1;
            }
            proof {
                if known {
                    let j = choose|j: int| 0 <= j < 6 && (#[trigger] names@[j])@ == model@;
                    assert(known_models()[j] == model@);
                } else if known_models().contains(model@) {
                    let j = choose|j: int| 0 <= j < known_models().len() && known_models()[j] == model@;
                    assert(names@[j]@ == model@);
                }
            }
            if !known {
                let joined = crate::text::join_strings(names.as_slice(), ", ");
                assert(crate::text::texts(names@) =~= known_models());
                let mut s = owned("model ");
                let q = quoted(model.as_str());
                push_str(&mut s, q.as_str());
                push_str(&mut s, " is not one of ");
                push_str(&mut s, joined.as_str());
                emit(out, Finding::error(p, s.as_str()).at(line_of(text, "model")));
            }
        },
        None => {},
    }
    assert(notes(out@) =~= start + model_notes(*m, p@, text@));
}

fn check_firmware(m: &PatchMeta, p: &str, text: &str, out: &mut Vec<Finding>)
    ensures
        notes(final(out)@) == notes(old(out)@) + firmware_notes(*m, p@, text@),
{
    proof {
        reveal(firmware_notes);
    }
    let ghost start = notes(out@);
    match &m.firmware {
        Some(f) => {
            if !firmware_valid(f.as_str()) {
                let mut s = owned("firmware ");
                let q = quoted(f.as_str());
                push_str(&mut s, q.as_str());
                push_str(&mut s, " is not a version like 1.1.5");
                emit(out, Finding::error(p, s.as_str()).at(line_of(text, "firmware")));
            }
        },
        None => {},
    }
    assert(notes(out@) =~= start + firmware_notes(*m, p@, text@));
}

fn check_tags(m: &PatchMeta, p: &str, text: &str, out: &mut Vec<Finding>)
    ensures
        notes(final(out)@) == notes(old(out)@) + tag_notes(m.tags@, p@, text@),
{
    let ghost b = notes(out@);
    let mut i: usize = 0;
    while i < m.tags.len()
        invariant
            i <= m.tags@.len(),
            notes(out@) == b + tag_notes(m.tags@.take(i as int), p@, text@),
        decreases m.tags@.len() - i,
    {
        assert(m.tags@.take(i + 1).drop_last() =~= m.tags@.take(i as int));
        let tag = m.tags[i].as_str();
        if crate::text::blank(tag) || tag.unicode_len() > 32 {
            let mut s = owned("tag ");
            let q = quoted(tag);
            push_str(&mut s, q.as_str());
            push_str(&mut s, " is empty or over 32 characters");
            emit(out, Finding::error(p, s.as_str()).at(line_of(text, "tags")));
        }
        assert(notes(out@) =~= b + tag_notes(m.tags@.take(i + 1), p@, text@));
        i = i + 1;
    }
    assert(m.tags@.take(m.tags@.len() as int) =~= m.tags@);
}

fn check_details(m: &PatchMeta, p: &str, text: &str, out: &mut Vec<Finding>)
    ensures
        notes(final(out)@) == notes(old(out)@) + model_notes(*m, p@, text@) + firmware_notes(*m, p@, text@)
            + tag_notes(m.tags@, p@, text@),
{
    let ghost start = notes(out@);
    check_model(m, p, text, out);
    let ghost a = notes(out@);
    check_firmware(m, p, text, out);
    let ghost b = notes(out@);
    check_tags(m, p, text, out);
    assert(notes(out@) =~= start + model_notes(*m, p@, text@) + firmware_notes(*m, p@, text@) + tag_notes(m.tags@, p@, text@));
}

fn check_own_icon(m: &PatchMeta, p: &str, text: &str, out: &mut Vec<Finding>)
    ensures
        notes(final(out)@) == notes(old(out)@) + own_icon_notes(*m, p@, text@),
{
    proof {
        reveal(own_icon_notes);
    }
    let ghost start = notes(out@);
    match &m.icon {
        Some(icon) => {
            if icon.is_blank() {
                emit(out, Finding::error(p, "icon is blank").at(line_of(text, "icon")).hint(
                    "Draw something, or remove the field to use the category icon.",
                ));
            }
        },
        None => {},
    }
    assert(notes(out@) =~= start + own_icon_notes(*m, p@, text@));
}

fn check_unknown(m: &PatchMeta, p: &str, text: &str, out: &mut Vec<Finding>)
    ensures
        notes(final(out)@) == notes(old(out)@) + unknown_notes(m.unknown@, p@, text@),
{
    let ghost a = notes(out@);
    let mut i: usize = 0;
    while i < m.unknown.len()
        invariant
            i <= m.unknown@.len(),
            notes(out@) == a + unknown_notes(m.unknown@.take(i as int), p@, text@),
        decreases m.unknown@.len() - i,
    {
        assert(m.unknown@.take(i + 1).drop_last() =~= m.unknown@.take(i as int));
        let key = m.unknown[i].0.as_str();
        let mut s = owned("unknown field ");
        let q = quoted(key);
        push_str(&mut s, q.as_str());
        emit(out, Finding::error(p, s.as_str()).at(line_of(text, key)).hint(
            "docs/format.md lists every field. Anything the .syx already says is derived, not typed.",
        ));
        assert(notes(out@) =~= a + unknown_notes(m.unknown@.take(i + 1), p@, text@));
        i = i + 1;
    }
    assert(m.unknown@.take(m.unknown@.len() as int) =~= m.unknown@);
}

fn check_rest(m: &PatchMeta, p: &str, text: &str, out: &mut Vec<Finding>)
    ensures
        notes(final(out)@) == notes(old(out)@) + own_icon_notes(*m, p@, text@) + unknown_notes(m.unknown@, p@, text@)
            + model_missing_notes(*m, p@),
{
    proof {
        reveal(model_missing_notes);
    }
    let ghost start = notes(out@);
    check_own_icon(m, p, text, out);
    check_unknown(m, p, text, out);
    let ghost b = notes(out@);
    if m.model.is_none() {
        emit(out, Finding::warning(p, "model is not set").hint(
            "A unison patch behaves differently on a DeepMind 6. Say what it was voiced on.",
        ));
    }
    assert(notes(out@) =~= start + own_icon_notes(*m, p@, text@) + unknown_notes(m.unknown@, p@, text@) + model_missing_notes(*m, p@));
}

fn check_meta(t: &Option<Taxonomy>, m: &PatchMeta, p: &str, text: &str, out: &mut Vec<Finding>)
    ensures
        notes(final(out)@) == notes(old(out)@) + meta_notes(*t, *m, p@, text@),
{
    proof {
        reveal(meta_notes);
    }
    let ghost start = notes(out@);
    check_name_author(m, p, text, out);
    check_about_licence(m, p, text, out);
    check_vocabulary(t, m, p, text, out);
    check_details(m, p, text, out);
    check_rest(m, p, text, out);
    assert(notes(out@) =~= start + meta_notes(*t, *m, p@, text@));
}

// ---- demos

/// Tenths of a second a number of samples plays for, rounded to nearest.
pub open spec fn tenths(samples: u64, rate: u32) -> nat {
    if rate == 0 {
        0
    } else {
        ((samples * 20 + rate) / (2 * rate as int)) as nat
    }
}

/// A number of tenths as seconds with one decimal: `21.3`.
pub open spec fn tenths_text(t: nat) -> Seq<char> {
    decimal(t / 10) + "."@ + decimal(t % 10)
}

/// What a demo that read as MP3 raises: too long, wrong bitrate, wrong
/// sample rate, mono.
pub open spec fn info_notes(rel: Seq<char>, info: Mp3Info) -> Seq<Note> {
    when(
        info.samples > 20 * info.sample_rate,
        err(rel, "runs "@ + tenths_text(tenths(info.samples, info.sample_rate)) + " s, over the 20 s limit"@),
    ) + when(
        info.bitrate_kbps != 128 || !info.constant_bitrate,
        err(
            rel,
            "is "@ + decimal(info.bitrate_kbps as nat) + " kbit/s"@ + (if info.constant_bitrate {
                seq![]
            } else {
                " variable"@
            }) + ", expected 128 kbit/s constant"@,
        ),
    ) + when(
        info.sample_rate != 44100,
        err(rel, "is "@ + decimal(info.sample_rate as nat) + " Hz, expected 44100 Hz"@),
    ) + when(info.channels != 2, hinted(err(rel, "is mono, expected stereo"@), "The chorus is part of the sound."@))
}

/// Whether bytes are few enough for the frame reader.
pub open spec fn readable_size(n: nat) -> bool {
    n <= 24 * 0xffff_fffe && n <= usize::MAX - 8192
}

/// What one demo file raises, given the checkout root and what reading it
/// gave: over the size cap, then anything that keeps it from reading as MP3
/// or breaks the format.
pub open spec fn mp3_notes(root: Seq<char>, rel: Seq<char>, read: Result<Vec<u8>, String>) -> Seq<Note> {
    let size: nat = match read {
        Ok(b) => b@.len(),
        Err(_) => 0,
    };
    let abs = root + "/"@ + rel;
    when(
        size > 358400,
        hinted(err(rel, "is "@ + decimal(size / 1024) + " KB, over the 350 KB cap"@), "Trim it to 20 seconds at 128 kbit/s."@),
    ) + match read {
        Err(m) => seq![hinted(err(rel, abs + ": "@ + m@), "Demos are MP3 files."@)],
        Ok(b) => if !readable_size(b@.len()) {
            seq![hinted(err(rel, abs + ": too large to read"@), "Demos are MP3 files."@)]
        } else {
            match mp3_read(b@) {
                Err(m) => seq![hinted(err(rel, abs + ": "@ + m), "Demos are MP3 files."@)],
                Ok(info) => info_notes(rel, info),
            }
        },
    }
}

fn check_info(rel: &str, info: &Mp3Info, out: &mut Vec<Finding>)
    ensures
        notes(final(out)@) == notes(old(out)@) + info_notes(rel@, *info),
{
    let ghost start = notes(out@);
    if info.samples > 20 * (info.sample_rate as u64) {
        let t: u128 = if info.sample_rate == 0 {
            0
        } else {
            let s: u128 = info.samples as u128 * 20 + info.sample_rate as u128;
            s / (2 * (info.sample_rate as u128))
        };
        assert(t == tenths(info.samples, info.sample_rate));
        let mut m = owned("runs ");
        let whole = crate::text::decimal_text_wide(t / 10);
        push_str(&mut m, whole.as_str());
        push_str(&mut m, ".");
        let part = crate::text::decimal_text_wide(t % 10);
        push_str(&mut m, part.as_str());
        push_str(&mut m, " s, over the 20 s limit");
        assert(m@ =~= "runs "@ + tenths_text(tenths(info.samples, info.sample_rate)) + " s, over the 20 s limit"@);
        emit(out, Finding::error(rel, m.as_str()));
    }
    let ghost a = notes(out@);
    assert(a =~= start + when(
        info.samples > 20 * info.sample_rate,
        err(rel@, "runs "@ + tenths_text(tenths(info.samples, info.sample_rate)) + " s, over the 20 s limit"@),
    ));
    if info.bitrate_kbps != 128 || !info.constant_bitrate {
        let mut m = owned("is ");
        crate::text::push_decimal(&mut m, info.bitrate_kbps as u64);
        push_str(&mut m, " kbit/s");
        if !info.constant_bitrate {
            push_str(&mut m, " variable");
        }
        push_str(&mut m, ", expected 128 kbit/s constant");
        emit(out, Finding::error(rel, m.as_str()));
    }
    if info.sample_rate != 44100 {
        let mut m = owned("is ");
        crate::text::push_decimal(&mut m, info.sample_rate as u64);
        push_str(&mut m, " Hz, expected 44100 Hz");
        emit(out, Finding::error(rel, m.as_str()));
    }
    if info.channels != 2 {
        emit(out, Finding::error(rel, "is mono, expected stereo").hint("The chorus is part of the sound."));
    }
    assert(notes(out@) =~= start + info_notes(rel@, *info));
}

fn check_mp3(root: &str, rel: &str, read: &Result<Vec<u8>, String>, out: &mut Vec<Finding>)
    ensures
        notes(final(out)@) == notes(old(out)@) + mp3_notes(root@, rel@, *read),
{
    let ghost start = notes(out@);
    let size: u64 = match read {
        Ok(b) => b.len() as u64,
        Err(_) => 0,
    };
    if size > 358400 {
        let mut m = owned("is ");
        crate::text::push_decimal(&mut m, size / 1024);
        push_str(&mut m, " KB, over the 350 KB cap");
        emit(out, Finding::error(rel, m.as_str()).hint("Trim it to 20 seconds at 128 kbit/s."));
    }
    let mut abs = owned(root);
    push_str(&mut abs, "/");
    push_str(&mut abs, rel);
    let ghost a = notes(out@);
    match read {
        Err(e) => {
            push_str(&mut abs, ": ");
            push_str(&mut abs, e.as_str());
            emit(out, Finding::error(rel, abs.as_str()).hint("Demos are MP3 files."));
        },
        Ok(b) => {
            if b.len() as u64 > 24 * 0xffff_fffe || b.len() > usize::MAX - 8192 {
                push_str(&mut abs, ": too large to read");
                emit(out, Finding::error(rel, abs.as_str()).hint("Demos are MP3 files."));
            } else {
                match Mp3Info::parse(abs.as_str(), b.as_slice()) {
                    Err(e) => {
                        let m = e.to_string();
                        emit(out, Finding::error(rel, m.as_str()).hint("Demos are MP3 files."));
                    },
                    Ok(info) => {
                        check_info(rel, &info, out);
                    },
                }
            }
        },
    }
    assert(notes(out@) =~= start + mp3_notes(root@, rel@, *read));
}

/// Whether a demo variant is a clean label: 24 characters at most, what
/// slugging leaves as it is, no parentheses.
pub open spec fn clean_label(v: Seq<char>) -> bool {
    v.len() <= 24 && slug_of(v) == v && !v.contains('(') && !v.contains(')')
}

/// The variants of some demos, by view.
pub open spec fn variants_of(demos: Seq<Demo>) -> Seq<Seq<char>>
    decreases demos.len(),
{
    if demos.len() == 0 {
        seq![]
    } else {
        match demos.last().variant {
            Some(v) => variants_of(demos.drop_last()).push(v@),
            None => variants_of(demos.drop_last()),
        }
    }
}

/// How many demos have no variant.
pub open spec fn default_count(demos: Seq<Demo>) -> nat
    decreases demos.len(),
{
    if demos.len() == 0 {
        0
    } else {
        default_count(demos.drop_last()) + if demos.last().variant is None { 1nat } else { 0nat }
    }
}

/// Where the first file at a path is among the demo files, or -1.
pub open spec fn file_index(files: Seq<String>, path: Seq<char>) -> int
    decreases files.len(),
{
    if files.len() == 0 {
        -1
    } else if file_index(files.drop_last(), path) >= 0 {
        file_index(files.drop_last(), path)
    } else if files.last()@ == path {
        files.len() - 1
    } else {
        -1
    }
}

/// Where a demo of a patch in a slot lives.
pub open spec fn demo_file_path(slot: Slot, m: PatchMeta, d: Demo) -> Seq<char> {
    demo_path_of(slot.category_dir@, opt_view(slot.collection), demo_stem_of_variant(m, d) + ".mp3"@)
}

/// What one demo raises: its label, a variant listed again, a missing file
/// or whatever the file raises.
pub open spec fn demo_notes(scan: Scan, slot: Slot, m: PatchMeta, p: Seq<char>, text: Seq<char>, i: int) -> Seq<Note> {
    let d = m.demos@[i];
    let l = line(text, "[[demo]]"@);
    let label = match d.variant {
        None => seq![],
        Some(v) => when(
            !clean_label(v@),
            hinted(
                lined(err(p, "demo variant "@ + debug_quoted(v@) + " is not a clean label"@), l),
                "At most 24 characters, no parentheses, no leading or trailing spaces."@,
            ),
        ) + when(
            variants_of(m.demos@.take(i)).contains(v@),
            lined(err(p, "demo variant "@ + debug_quoted(v@) + " is listed twice"@), l),
        ),
    };
    let path = demo_file_path(slot, m, d);
    let k = file_index(scan.demo_files@, path);
    label + if k < 0 {
        seq![hinted(lined(err(p, "demo "@ + path + " is missing"@), l), "Put the MP3 there, or remove the [[demo]] entry."@)]
    } else {
        mp3_notes(scan.root@, path, scan.demo_reads@[k])
    }
}

/// What the first `n` demos raise, in order.
pub open spec fn demos_upto(scan: Scan, slot: Slot, m: PatchMeta, p: Seq<char>, text: Seq<char>, n: int) -> Seq<Note>
    decreases n,
{
    if n <= 0 {
        seq![]
    } else {
        demos_upto(scan, slot, m, p, text, n - 1) + demo_notes(scan, slot, m, p, text, n - 1)
    }
}

/// The demo paths of the first `n` demos.
pub open spec fn demo_paths_upto(slot: Slot, m: PatchMeta, n: int) -> Seq<Seq<char>>
    decreases n,
{
    if n <= 0 {
        seq![]
    } else {
        demo_paths_upto(slot, m, n - 1).push(demo_file_path(slot, m, m.demos@[n - 1]))
    }
}

/// What a patch's demos raise: too many, each demo, more than one default.
#[verifier::opaque]
pub open spec fn demos_notes(scan: Scan, slot: Slot, m: PatchMeta, p: Seq<char>, text: Seq<char>) -> Seq<Note> {
    let l = line(text, "[[demo]]"@);
    when(
        m.demos@.len() > 4,
        lined(err(p, decimal(m.demos@.len()) + " demos, at most 4 allowed"@), l),
    ) + demos_upto(scan, slot, m, p, text, m.demos@.len() as int) + when(
        default_count(m.demos@) > 1,
        hinted(lined(err(p, "more than one demo without a variant"@), l), "One demo is the default; give the others a variant."@),
    )
}

fn find_file(files: &Vec<String>, path: &str) -> (r: Option<usize>)
    ensures
        match r {
            Some(k) => k as int == file_index(files@, path@) && k < files@.len(),
            None => file_index(files@, path@) < 0,
        },
{
    let mut i: usize = 0;
    while i < files.len()
        invariant
            i <= files@.len(),
            file_index(files@.take(i as int), path@) < 0,
        decreases files@.len() - i,
    {
        assert(files@.take(i + 1).drop_last() =~= files@.take(i as int));
        if crate::text::str_eq(files[i].as_str(), path) {
            proof {
                lemma_file_index_prefix(files@, path@, i as int + 1);
            }
            return Some(i);
        }
        i = i + 1;
    }
    assert(files@.take(files@.len() as int) =~= files@);
    None
}

proof fn lemma_file_index_prefix(files: Seq<String>, path: Seq<char>, n: int)
    requires
        0 <= n <= files.len(),
        file_index(files.take(n), path) >= 0,
    ensures
        file_index(files, path) == file_index(files.take(n), path),
    decreases files.len() - n,
{
    if n < files.len() {
        assert(files.take(n + 1).drop_last() =~= files.take(n));
        lemma_file_index_prefix(files, path, n + 1);
    } else {
        assert(files.take(n) =~= files);
    }
}

fn check_demos(
    scan: &Scan,
    slot: &Slot,
    m: &PatchMeta,
    p: &str,
    text: &str,
    declared: &mut Vec<String>,
    out: &mut Vec<Finding>,
)
    requires
        scan.demo_reads@.len() == scan.demo_files@.len(),
    ensures
        notes(final(out)@) == notes(old(out)@) + demos_notes(*scan, *slot, *m, p@, text@),
        crate::text::texts(final(declared)@) == crate::text::texts(old(declared)@) + demo_paths_upto(*slot, *m, m.demos@.len() as int),
{
    let ghost start = notes(out@);
    let ghost declared0 = crate::text::texts(declared@);
    let l = line_of(text, "[[demo]]");
    if m.demos.len() > 4 {
        let mut s = String::new();
        crate::text::push_decimal(&mut s, m.demos.len() as u64);
        push_str(&mut s, " demos, at most 4 allowed");
        emit(out, Finding::error(p, s.as_str()).at(l));
    }
    let ghost a = notes(out@);
    let mut variants: Vec<String> = Vec::new();
    let mut defaults: usize = 0;
    let mut i: usize = 0;
    while i < m.demos.len()
        invariant
            i <= m.demos@.len(),
            scan.demo_reads@.len() == scan.demo_files@.len(),
            l == line(text@, "[[demo]]"@),
            crate::text::texts(variants@) == variants_of(m.demos@.take(i as int)),
            defaults == default_count(m.demos@.take(i as int)),
            defaults <= i,
            notes(out@) == a + demos_upto(*scan, *slot, *m, p@, text@, i as int),
            crate::text::texts(declared@) == declared0 + demo_paths_upto(*slot, *m, i as int),
        decreases m.demos@.len() - i,
    {
        assert(m.demos@.take(i + 1).drop_last() =~= m.demos@.take(i as int));
        let ghost before = notes(out@);
        let d = &m.demos[i];
        match &d.variant {
            None => {
                defaults = defaults + 1;
            },
            Some(v) => {
                let vs = v.as_str();
                let cleaned = crate::slug::slug(vs);
                if vs.unicode_len() > 24 || !crate::text::str_eq(cleaned.as_str(), vs) || has_char(vs, '(')
                    || has_char(vs, ')') {
                    let mut s = owned("demo variant ");
                    let q = quoted(vs);
                    push_str(&mut s, q.as_str());
                    push_str(&mut s, " is not a clean label");
                    emit(out, Finding::error(p, s.as_str()).at(l).hint(
                        "At most 24 characters, no parentheses, no leading or trailing spaces.",
                    ));
                }
                let again = holds(&variants, vs);
                proof {
                    let earlier = variants_of(m.demos@.take(i as int));
                    if again {
                        let j = choose|j: int| 0 <= j < variants@.len() && (#[trigger] variants@[j])@ == vs@;
                        assert(earlier[j] == vs@);
                    } else if earlier.contains(vs@) {
                        let j = choose|j: int| 0 <= j < earlier.len() && earlier[j] == vs@;
                        assert(variants@[j]@ == vs@);
                        assert(text_set(variants@).contains(vs@));
                    }
                }
                if again {
                    let mut s = owned("demo variant ");
                    let q = quoted(vs);
                    push_str(&mut s, q.as_str());
                    push_str(&mut s, " is listed twice");
                    emit(out, Finding::error(p, s.as_str()).at(l));
                }
                let ghost vb = variants@;
                variants.push(v.clone());
                assert(crate::text::texts(variants@) =~= crate::text::texts(vb).push(vs@));
            },
        }
        assert(crate::text::texts(variants@) == variants_of(m.demos@.take(i + 1)));
        let file = m.demo_file_name(d);
        let path = demo_path_in(slot.category_dir.as_str(), &slot.collection, file.as_str());
        let ghost db = declared@;
        declared.push(owned(path.as_str()));
        assert(crate::text::texts(declared@) =~= crate::text::texts(db).push(path@));
        assert(crate::text::texts(declared@) =~= declared0 + demo_paths_upto(*slot, *m, i + 1));
        match find_file(&scan.demo_files, path.as_str()) {
            None => {
                let mut s = owned("demo ");
                push_str(&mut s, path.as_str());
                push_str(&mut s, " is missing");
                emit(out, Finding::error(p, s.as_str()).at(l).hint("Put the MP3 there, or remove the [[demo]] entry."));
            },
            Some(k) => {
                check_mp3(scan.root.as_str(), path.as_str(), &scan.demo_reads[k], out);
            },
        }
        assert(notes(out@) =~= before + demo_notes(*scan, *slot, *m, p@, text@, i as int));
        i = i + 1;
    }
    assert(m.demos@.take(m.demos@.len() as int) =~= m.demos@);
    let ghost b = notes(out@);
    if defaults > 1 {
        emit(out, Finding::error(p, "more than one demo without a variant").at(l).hint(
            "One demo is the default; give the others a variant.",
        ));
    }
    proof {
        reveal(demos_notes);
    }
    assert(notes(out@) =~= start + demos_notes(*scan, *slot, *m, p@, text@));
}

// ---- one slot

/// The path a slot's findings name when it has no file of the kind: the
/// `.syx`, else the `.toml`, else the stem in its folder.
pub open spec fn any_path(slot: Slot) -> Seq<char> {
    match slot.syx {
        Some(x) => x@,
        None => match slot.toml {
            Some(t) => t@,
            None => slot.folder@ + "/"@ + slot.stem@,
        },
    }
}

/// What a slot's files and folders raise: a file missing, a folder that is
/// no category, too deep, a collection name that is not clean.
#[verifier::opaque]
pub open spec fn folder_notes(slot: Slot) -> Seq<Note> {
    let p = any_path(slot);
    when(
        slot.syx is None,
        hinted(err(p, "has no .syx beside it"@), "Save the program from the instrument and put the .syx here with the same name."@),
    ) + when(
        slot.toml is None,
        hinted(err(p, "has no .toml beside it"@), "Write one; docs/format.md lists the fields."@),
    ) + when(
        foldered(slot.category_dir@) is None,
        hinted(
            err(p, "folder "@ + debug_quoted(slot.category_dir@) + " is not a category"@),
            "The folders under presets/ are the instrument's twelve categories, spelled its way."@,
        ),
    ) + when(
        slot.extra_depth > 0,
        hinted(err(p, "nested too deep"@), "A patch sits in its category folder or in one collection folder inside it."@),
    ) + match slot.collection {
        Some(c) => when(
            slug_of(c@) != c@,
            hinted(
                err(p, "collection folder "@ + debug_quoted(c@) + " is not a clean name"@),
                "No leading or trailing spaces, no / \\ : * ? \" < > | characters."@,
            ),
        ),
        None => seq![],
    }
}

/// The ids given so far, each to the `.toml` that last took it.
///
/// The checks keep the ids as a list of (id, `.toml`) pairs in the order
/// they were given, and an id may stand in it more than once. Nothing reads
/// the list but through this map, which takes the last pair for each id as
/// inserting into a map would, and [`latest`] searches from the end; so the
/// list needs no invariant of its own (no sorting, no unique ids).
pub open spec fn ids_view(ids: Seq<(String, String)>) -> Map<Seq<char>, Seq<char>>
    decreases ids.len(),
{
    if ids.len() == 0 {
        Map::empty()
    } else {
        ids_view(ids.drop_last()).insert(ids.last().0@, ids.last().1@)
    }
}

/// What a slot raises, given the ids taken and the demos declared before
/// it, and the ids and demos after it.
pub open spec fn slot_step(scan: Scan, slot: Slot, ids: Map<Seq<char>, Seq<char>>, declared: Seq<Seq<char>>) -> (
    Seq<Note>,
    Map<Seq<char>, Seq<char>>,
    Seq<Seq<char>>,
) {
    let c = foldered(slot.category_dir@);
    let base = folder_notes(slot) + program_notes(slot, c);
    match slot.meta {
        None => (base, ids, declared),
        Some(m) => {
            let tp = match slot.toml {
                Some(t) => t@,
                None => any_path(slot),
            };
            let text = match slot.toml_text {
                Some(t) => t@,
                None => seq![],
            };
            let expected = stem_of(m.name@, m.author@);
            let stem_n = when(
                expected != slot.stem@,
                hinted(
                    err(tp, "file is named "@ + debug_quoted(slot.stem@) + " but name and author give "@ + debug_quoted(expected)),
                    "Rename both files to that stem, or fix the fields."@,
                ),
            );
            let (id_n, ids2) = match c {
                None => (seq![], ids),
                Some(c) => {
                    let id = id_of(name_of(c), opt_view(slot.collection), m.name@, m.author@);
                    (
                        when(
                            ids.contains_key(id),
                            hinted(
                                err(tp, "id "@ + debug_quoted(id) + " is also used by "@ + ids[id]),
                                "Two patches cannot share a name and an author in one folder."@,
                            ),
                        ),
                        ids.insert(id, tp),
                    )
                },
            };
            (
                base + meta_notes(scan.taxonomy, m, tp, text) + stem_n + id_n + demos_notes(scan, slot, m, tp, text),
                ids2,
                declared + demo_paths_upto(slot, m, m.demos@.len() as int),
            )
        },
    }
}

/// What the first `n` slots raise, with the ids and demos they take.
pub open spec fn slots_upto(scan: Scan, n: int) -> (Seq<Note>, Map<Seq<char>, Seq<char>>, Seq<Seq<char>>)
    decreases n,
{
    if n <= 0 {
        (seq![], Map::empty(), seq![])
    } else {
        let (ns, ids, d) = slots_upto(scan, n - 1);
        let (ns2, ids2, d2) = slot_step(scan, scan.slots@[n - 1], ids, d);
        (ns + ns2, ids2, d2)
    }
}

/// The `.toml` that last took an id: the last pair for it.
fn latest(ids: &Vec<(String, String)>, id: &str) -> (r: Option<String>)
    ensures
        match r {
            Some(p) => ids_view(ids@).contains_key(id@) && ids_view(ids@)[id@] == p@,
            None => !ids_view(ids@).contains_key(id@),
        },
{
    let mut i: usize = ids.len();
    assert(ids@.take(ids@.len() as int) =~= ids@);
    while i > 0
        invariant
            i <= ids@.len(),
            forall|j: int| i <= j < ids@.len() ==> (#[trigger] ids@[j]).0@ != id@,
            ids_view(ids@).contains_key(id@) == ids_view(ids@.take(i as int)).contains_key(id@),
            ids_view(ids@).contains_key(id@) ==> ids_view(ids@)[id@] == ids_view(ids@.take(i as int))[id@],
        decreases i,
    {
        assert(ids@.take(i as int).drop_last() =~= ids@.take(i - 1));
        if crate::text::str_eq(ids[i - 1].0.as_str(), id) {
            return Some(ids[i - 1].1.clone());
        }
        i = i - 1;
    }
    assert(ids@.take(0) =~= Seq::<(String, String)>::empty());
    None
}

fn check_folders(slot: &Slot, out: &mut Vec<Finding>) -> (p: String)
    ensures
        p@ == any_path(*slot),
        notes(final(out)@) == notes(old(out)@) + folder_notes(*slot),
{
    proof {
        reveal(folder_notes);
    }
    let ghost start = notes(out@);
    let p = match &slot.syx {
        Some(x) => owned(x.as_str()),
        None => match &slot.toml {
            Some(t) => owned(t.as_str()),
            None => {
                let mut q = owned(slot.folder.as_str());
                push_str(&mut q, "/");
                push_str(&mut q, slot.stem.as_str());
                q
            },
        },
    };
    if slot.syx.is_none() {
        emit(out, Finding::error(p.as_str(), "has no .syx beside it").hint(
            "Save the program from the instrument and put the .syx here with the same name.",
        ));
    }
    if slot.toml.is_none() {
        emit(out, Finding::error(p.as_str(), "has no .toml beside it").hint("Write one; docs/format.md lists the fields."));
    }
    if Category::from_name(slot.category_dir.as_str()).is_none() {
        let mut m = owned("folder ");
        let q = quoted(slot.category_dir.as_str());
        push_str(&mut m, q.as_str());
        push_str(&mut m, " is not a category");
        emit(out, Finding::error(p.as_str(), m.as_str()).hint(
            "The folders under presets/ are the instrument's twelve categories, spelled its way.",
        ));
    }
    if slot.extra_depth > 0 {
        emit(out, Finding::error(p.as_str(), "nested too deep").hint(
            "A patch sits in its category folder or in one collection folder inside it.",
        ));
    }
    match &slot.collection {
        Some(c) => {
            let cleaned = crate::slug::slug(c.as_str());
            if !crate::text::str_eq(cleaned.as_str(), c.as_str()) {
                let mut m = owned("collection folder ");
                let q = quoted(c.as_str());
                push_str(&mut m, q.as_str());
                push_str(&mut m, " is not a clean name");
                emit(out, Finding::error(p.as_str(), m.as_str()).hint(
                    "No leading or trailing spaces, no / \\ : * ? \" < > | characters.",
                ));
            }
        },
        None => {},
    }
    assert(notes(out@) =~= start + folder_notes(*slot));
    p
}

fn check_stem_and_id(
    slot: &Slot,
    m: &PatchMeta,
    tp: &str,
    ids: &mut Vec<(String, String)>,
    out: &mut Vec<Finding>,
)
    requires
        slot.meta == Some(*m),
    ensures
        ({
            let c = foldered(slot.category_dir@);
            let expected = stem_of(m.name@, m.author@);
            let stem_n = when(
                expected != slot.stem@,
                hinted(
                    err(tp@, "file is named "@ + debug_quoted(slot.stem@) + " but name and author give "@ + debug_quoted(expected)),
                    "Rename both files to that stem, or fix the fields."@,
                ),
            );
            let ids0 = ids_view(old(ids)@);
            match c {
                None => notes(final(out)@) == notes(old(out)@) + stem_n && ids_view(final(ids)@) == ids0,
                Some(c) => {
                    let id = id_of(name_of(c), opt_view(slot.collection), m.name@, m.author@);
                    &&& notes(final(out)@) == notes(old(out)@) + stem_n + when(
                        ids0.contains_key(id),
                        hinted(
                            err(tp@, "id "@ + debug_quoted(id) + " is also used by "@ + ids0[id]),
                            "Two patches cannot share a name and an author in one folder."@,
                        ),
                    )
                    &&& ids_view(final(ids)@) == ids0.insert(id, tp@)
                },
            }
        }),
{
    let ghost start = notes(out@);
    let expected = m.stem();
    if !crate::text::str_eq(expected.as_str(), slot.stem.as_str()) {
        let mut s = owned("file is named ");
        let q = quoted(slot.stem.as_str());
        push_str(&mut s, q.as_str());
        push_str(&mut s, " but name and author give ");
        let q2 = quoted(expected.as_str());
        push_str(&mut s, q2.as_str());
        emit(out, Finding::error(tp, s.as_str()).hint("Rename both files to that stem, or fix the fields."));
    }
    let ghost a = notes(out@);
    match Category::from_name(slot.category_dir.as_str()) {
        None => {},
        Some(c) => {
            let col: Option<&str> = match &slot.collection {
                Some(x) => Some(x.as_str()),
                None => None,
            };
            let id = crate::slug::id(c.name(), col, m.name.as_str(), m.author.as_str());
            match latest(ids, id.as_str()) {
                Some(other) => {
                    let mut s = owned("id ");
                    let q = quoted(id.as_str());
                    push_str(&mut s, q.as_str());
                    push_str(&mut s, " is also used by ");
                    push_str(&mut s, other.as_str());
                    emit(out, Finding::error(tp, s.as_str()).hint(
                        "Two patches cannot share a name and an author in one folder.",
                    ));
                },
                None => {},
            }
            let ghost before = ids@;
            ids.push((id, owned(tp)));
            assert(ids@.drop_last() =~= before);
        },
    }
}

fn check_slot(
    scan: &Scan,
    slot: &Slot,
    ids: &mut Vec<(String, String)>,
    declared: &mut Vec<String>,
    out: &mut Vec<Finding>,
)
    requires
        crate::library::slot_programs_wf(*slot),
        scan.demo_reads@.len() == scan.demo_files@.len(),
    ensures
        ({
            let (ns, ids2, d2) = slot_step(*scan, *slot, ids_view(old(ids)@), crate::text::texts(old(declared)@));
            &&& notes(final(out)@) == notes(old(out)@) + ns
            &&& ids_view(final(ids)@) == ids2
            &&& crate::text::texts(final(declared)@) == d2
        }),
{
    let ghost start = notes(out@);
    let p = check_folders(slot, out);
    let category = Category::from_name(slot.category_dir.as_str());
    check_program(slot, category, out);
    let m = match &slot.meta {
        None => {
            return;
        },
        Some(m) => m,
    };
    let tp = match &slot.toml {
        Some(t) => owned(t.as_str()),
        None => p,
    };
    let text = match &slot.toml_text {
        Some(t) => owned(t.as_str()),
        None => String::new(),
    };
    let ghost b = notes(out@);
    check_meta(&scan.taxonomy, m, tp.as_str(), text.as_str(), out);
    let ghost c = notes(out@);
    check_stem_and_id(slot, m, tp.as_str(), ids, out);
    let ghost d = notes(out@);
    check_demos(scan, slot, m, tp.as_str(), text.as_str(), declared, out);
    assert(notes(out@) =~= start + slot_step(*scan, *slot, ids_view(old(ids)@), crate::text::texts(old(declared)@)).0);
}

// ---- all rules, sorted

/// Whether one line comes before another, no line first.
pub open spec fn line_less(a: Option<u32>, b: Option<u32>) -> bool {
    match (a, b) {
        (None, Some(_)) => true,
        (Some(x), Some(y)) => x < y,
        _ => false,
    }
}

/// Whether one finding sorts strictly before another: by path, component by
/// component, then by line, no line first, then by message.
pub open spec fn note_less(a: Note, b: Note) -> bool {
    ||| lex_less(path_codes(a.1), path_codes(b.1))
    ||| (a.1 == b.1 && (line_less(a.2, b.2) || (a.2 == b.2 && text_less(a.3, b.3))))
}

/// Where a finding goes among sorted ones: after every one it does not sort
/// before.
pub open spec fn first_after(s: Seq<Note>, x: Note) -> int
    decreases s.len(),
{
    if s.len() == 0 {
        0
    } else if note_less(x, s[0]) {
        0
    } else {
        1 + first_after(s.drop_first(), x)
    }
}

/// Findings sorted, equal ones in the order they came.
pub open spec fn sorted_notes(s: Seq<Note>) -> Seq<Note>
    decreases s.len(),
{
    if s.len() == 0 {
        seq![]
    } else {
        let t = sorted_notes(s.drop_last());
        t.insert(first_after(t, s.last()), s.last())
    }
}

/// Findings with each run of equal ones kept once.
pub open spec fn dedup_notes(s: Seq<Note>) -> Seq<Note>
    decreases s.len(),
{
    if s.len() == 0 {
        seq![]
    } else {
        let d = dedup_notes(s.drop_last());
        if d.len() > 0 && d.last() == s.last() {
            d
        } else {
            d.push(s.last())
        }
    }
}

/// How many findings are errors.
pub open spec fn note_errors(s: Seq<Note>) -> nat
    decreases s.len(),
{
    if s.len() == 0 {
        0
    } else {
        note_errors(s.drop_last()) + if s.last().0 == Severity::Error { 1nat } else { 0nat }
    }
}

/// How many errors the rules raise over a scan, once sorted and with
/// repeats dropped: what [`run`] hands back.
pub open spec fn scan_errors(scan: Scan) -> nat {
    note_errors(dedup_notes(sorted_notes(all_notes(scan))))
}

/// How many of the findings are errors.
pub fn count_errors(findings: &[Finding]) -> (r: usize)
    ensures
        r == note_errors(notes(findings@)),
{
    let mut errors: usize = 0;
    let mut i: usize = 0;
    while i < findings.len()
        invariant
            i <= findings@.len(),
            errors == note_errors(notes(findings@.take(i as int))),
            errors <= i,
        decreases findings@.len() - i,
    {
        let ghost taken = notes(findings@.take(i + 1));
        assert(taken =~= notes(findings@.take(i as int)).push(note(findings@[i as int])));
        assert(taken.drop_last() =~= notes(findings@.take(i as int)));
        assert(taken.last().0 == findings@[i as int].severity);
        if findings[i].severity == Severity::Error {
            errors = errors + 1;
        }
        i = i + 1;
    }
    assert(findings@.take(i as int) =~= findings@);
    errors
}

/// Every finding the rules raise over a scan, before sorting: what reading
/// met, the taxonomy, the icons, stray files, each slot in order, and demo
/// files nobody declares.
pub open spec fn all_notes(scan: Scan) -> Seq<Note> {
    let (slot_ns, _, declared) = slots_upto(scan, scan.slots@.len() as int);
    notes(scan.problems@) + taxonomy_notes(scan.taxonomy) + icon_notes(scan) + stray_notes(scan.stray@) + slot_ns
        + undeclared_notes(scan.demo_files@, Set::new(|t: Seq<char>| declared.contains(t)))
}

proof fn lemma_first_after(s: Seq<Note>, x: Note, k: int)
    requires
        0 <= k <= s.len(),
        forall|j: int| 0 <= j < k ==> !note_less(x, #[trigger] s[j]),
        k < s.len() ==> note_less(x, s[k]),
    ensures
        first_after(s, x) == k,
    decreases k,
{
    if k > 0 {
        assert(!note_less(x, s[0]));
        assert forall|j: int| 0 <= j < k - 1 implies !note_less(x, #[trigger] s.drop_first()[j]) by {
            assert(s.drop_first()[j] == s[j + 1]);
        }
        if k - 1 < s.drop_first().len() {
            assert(s.drop_first()[k - 1] == s[k]);
        }
        lemma_first_after(s.drop_first(), x, k - 1);
    }
}

/// Whether findings are in order: none sorts before one ahead of it.
pub open spec fn notes_in_order(s: Seq<Note>) -> bool {
    forall|i: int, j: int| 0 <= i < j < s.len() ==> !note_less(#[trigger] s[j], #[trigger] s[i])
}

/// Whether no finding comes twice in a row.
pub open spec fn no_repeats(s: Seq<Note>) -> bool {
    forall|i: int| 0 <= i < s.len() - 1 ==> #[trigger] s[i] != s[i + 1]
}

proof fn lemma_note_order(a: Note, b: Note, c: Note)
    ensures
        !note_less(a, a),
        note_less(a, b) && note_less(b, c) ==> note_less(a, c),
{
    lemma_lex_irreflexive(path_codes(a.1));
    lemma_text_irreflexive(a.3);
    if note_less(a, b) && note_less(b, c) {
        if lex_less(path_codes(a.1), path_codes(b.1)) && lex_less(path_codes(b.1), path_codes(c.1)) {
            lemma_lex_transitive(path_codes(a.1), path_codes(b.1), path_codes(c.1));
        } else if a.1 == b.1 && b.1 == c.1 && a.2 == b.2 && b.2 == c.2 {
            lemma_text_transitive(a.3, b.3, c.3);
        }
    }
}

proof fn lemma_first_after_bounds(s: Seq<Note>, x: Note)
    ensures
        0 <= first_after(s, x) <= s.len(),
        forall|j: int| 0 <= j < first_after(s, x) ==> !note_less(x, #[trigger] s[j]),
        first_after(s, x) < s.len() ==> note_less(x, s[first_after(s, x)]),
    decreases s.len(),
{
    if s.len() > 0 && !note_less(x, s[0]) {
        lemma_first_after_bounds(s.drop_first(), x);
        assert forall|j: int| 0 <= j < first_after(s, x) implies !note_less(x, #[trigger] s[j]) by {
            if j > 0 {
                assert(s[j] == s.drop_first()[j - 1]);
            }
        }
        if first_after(s, x) < s.len() {
            assert(s[first_after(s, x)] == s.drop_first()[first_after(s.drop_first(), x)]);
        }
    }
}

proof fn lemma_sorted_in_order(s: Seq<Note>)
    ensures
        notes_in_order(sorted_notes(s)),
        sorted_notes(s).len() == s.len(),
    decreases s.len(),
{
    if s.len() > 0 {
        let t = sorted_notes(s.drop_last());
        let x = s.last();
        lemma_sorted_in_order(s.drop_last());
        lemma_first_after_bounds(t, x);
        let k = first_after(t, x);
        let u = t.insert(k, x);
        assert(sorted_notes(s) == u);
        assert forall|i: int, j: int| 0 <= i < j < u.len() implies !note_less(#[trigger] u[j], #[trigger] u[i]) by {
            if j < k {
                assert(u[i] == t[i] && u[j] == t[j]);
            } else if j == k {
                assert(u[i] == t[i] && u[j] == x);
            } else if i == k {
                assert(u[j] == t[j - 1] && u[i] == x);
                lemma_note_order(t[j - 1], x, t[k]);
                if j - 1 > k {
                    assert(!note_less(t[j - 1], t[k]));
                }
            } else if i < k {
                assert(u[i] == t[i] && u[j] == t[j - 1]);
            } else {
                assert(u[i] == t[i - 1] && u[j] == t[j - 1]);
            }
        }
    }
}

proof fn lemma_dedup_in_order(t: Seq<Note>)
    requires
        notes_in_order(t),
    ensures
        notes_in_order(dedup_notes(t)),
        no_repeats(dedup_notes(t)),
        forall|i: int| 0 <= i < dedup_notes(t).len() ==> exists|j: int| 0 <= j < t.len() && #[trigger] dedup_notes(t)[i] == t[j],
    decreases t.len(),
{
    if t.len() > 0 {
        let p = t.drop_last();
        assert(notes_in_order(p)) by {
            assert forall|i: int, j: int| 0 <= i < j < p.len() implies !note_less(#[trigger] p[j], #[trigger] p[i]) by {
                assert(p[i] == t[i] && p[j] == t[j]);
            }
        }
        lemma_dedup_in_order(p);
        let d = dedup_notes(p);
        let x = t.last();
        if !(d.len() > 0 && d.last() == x) {
            let r = d.push(x);
            assert(dedup_notes(t) == r);
            assert forall|i: int, j: int| 0 <= i < j < r.len() implies !note_less(#[trigger] r[j], #[trigger] r[i]) by {
                if j == d.len() {
                    let m = choose|m: int| 0 <= m < p.len() && d[i] == p[m];
                    assert(r[i] == t[m] && r[j] == t[t.len() - 1]);
                } else {
                    assert(r[i] == d[i] && r[j] == d[j]);
                }
            }
            assert forall|i: int| 0 <= i < r.len() - 1 implies #[trigger] r[i] != r[i + 1] by {
                if i + 1 < d.len() {
                    assert(r[i] == d[i] && r[i + 1] == d[i + 1]);
                } else {
                    assert(r[i] == d.last());
                }
            }
            assert forall|i: int| 0 <= i < r.len() implies exists|j: int| 0 <= j < t.len() && #[trigger] r[i] == t[j] by {
                if i == d.len() {
                    assert(r[i] == t[t.len() - 1]);
                } else {
                    let m = choose|m: int| 0 <= m < p.len() && d[i] == p[m];
                    assert(r[i] == t[m]);
                }
            }
        } else {
            assert forall|i: int| 0 <= i < d.len() implies exists|j: int| 0 <= j < t.len() && #[trigger] d[i] == t[j] by {
                let m = choose|m: int| 0 <= m < p.len() && d[i] == p[m];
                assert(d[i] == t[m]);
            }
        }
    }
}

/// The findings [`run`] hands back are in order by path, line and message
/// (none sorts before one ahead of it), and no finding comes twice in a row.
pub proof fn lemma_findings_ordered(s: Seq<Note>)
    ensures
        notes_in_order(dedup_notes(sorted_notes(s))),
        no_repeats(dedup_notes(sorted_notes(s))),
{
    lemma_sorted_in_order(s);
    lemma_dedup_in_order(sorted_notes(s));
}

fn note_before(a: &Finding, b: &Finding) -> (r: bool)
    ensures
        r == note_less(note(*a), note(*b)),
{
    if path_before(a.path.as_str(), b.path.as_str()) {
        return true;
    }
    if !crate::text::str_eq(a.path.as_str(), b.path.as_str()) {
        return false;
    }
    let lines_before = match (a.line, b.line) {
        (None, Some(_)) => true,
        (Some(x), Some(y)) => x < y,
        _ => false,
    };
    if lines_before {
        return true;
    }
    if a.line != b.line {
        return false;
    }
    text_before(a.message.as_str(), b.message.as_str())
}

fn same_finding(a: &Finding, b: &Finding) -> (r: bool)
    ensures
        r == (note(*a) == note(*b)),
{
    let hints = match (&a.hint, &b.hint) {
        (None, None) => true,
        (Some(x), Some(y)) => crate::text::str_eq(x.as_str(), y.as_str()),
        _ => false,
    };
    a.severity == b.severity && crate::text::str_eq(a.path.as_str(), b.path.as_str()) && a.line == b.line
        && crate::text::str_eq(a.message.as_str(), b.message.as_str()) && hints
}

fn copy_finding(f: &Finding) -> (r: Finding)
    ensures
        note(r) == note(*f),
{
    Finding {
        severity: f.severity,
        path: owned(f.path.as_str()),
        line: f.line,
        message: owned(f.message.as_str()),
        hint: match &f.hint {
            Some(h) => Some(owned(h.as_str())),
            None => None,
        },
    }
}

fn sort_findings(v: Vec<Finding>) -> (r: Vec<Finding>)
    ensures
        notes(r@) == sorted_notes(notes(v@)),
{
    let ghost all = notes(v@);
    let ghost orig = v@;
    let mut rest = v;
    let mut res: Vec<Finding> = Vec::new();
    let mut i: usize = 0;
    let total = rest.len();
    while i < total
        invariant
            total == orig.len(),
            i <= total,
            all == notes(orig),
            rest@ == orig.skip(i as int),
            notes(res@) == sorted_notes(all.take(i as int)),
        decreases total - i,
    {
        assert(orig.skip(i as int)[0] == orig[i as int]);
        let x = rest.remove(0);
        assert(rest@ =~= orig.skip(i + 1));
        let mut k: usize = 0;
        while k < res.len() && !note_before(&x, &res[k])
            invariant
                k <= res@.len(),
                forall|j: int| 0 <= j < k ==> !note_less(note(x), #[trigger] notes(res@)[j]),
            decreases res@.len() - k,
        {
            k = k + 1;
        }
        proof {
            lemma_first_after(notes(res@), note(x), k as int);
        }
        let ghost before = res@;
        res.insert(k, x);
        assert(notes(res@) =~= notes(before).insert(k as int, note(x)));
        assert(all.take(i + 1).drop_last() =~= all.take(i as int));
        assert(all.take(i + 1).last() == note(x));
        i = i + 1;
    }
    assert(all.take(total as int) =~= all);
    res
}

fn dedup_findings(v: Vec<Finding>) -> (r: Vec<Finding>)
    ensures
        notes(r@) == dedup_notes(notes(v@)),
{
    let ghost all = notes(v@);
    let ghost orig = v@;
    let mut rest = v;
    let mut res: Vec<Finding> = Vec::new();
    let mut i: usize = 0;
    let total = rest.len();
    while i < total
        invariant
            total == orig.len(),
            i <= total,
            all == notes(orig),
            rest@ == orig.skip(i as int),
            notes(res@) == dedup_notes(all.take(i as int)),
        decreases total - i,
    {
        assert(orig.skip(i as int)[0] == orig[i as int]);
        let x = rest.remove(0);
        assert(rest@ =~= orig.skip(i + 1));
        assert(all.take(i + 1).drop_last() =~= all.take(i as int));
        assert(all.take(i + 1).last() == note(x));
        let n = res.len();
        if n > 0 && same_finding(&res[n - 1], &x) {
            assert(notes(res@).last() == note(res@[n - 1]));
        } else {
            let ghost before = res@;
            proof {
                if n > 0 {
                    assert(notes(before).last() == note(before[n - 1]));
                }
            }
            res.push(x);
            assert(notes(res@) =~= notes(before).push(note(x)));
        }
        i = i + 1;
    }
    assert(all.take(total as int) =~= all);
    res
}

/// Runs every rule over a scan: the findings sorted by path, line and
/// message, repeats dropped.
pub fn run(scan: &Scan) -> (r: Vec<Finding>)
    requires
        scan.wf(),
    ensures
        notes(r@) == dedup_notes(sorted_notes(all_notes(*scan))),
        notes_in_order(notes(r@)),
        no_repeats(notes(r@)),
{
    let mut out: Vec<Finding> = Vec::new();
    let mut i: usize = 0;
    while i < scan.problems.len()
        invariant
            i <= scan.problems@.len(),
            notes(out@) == notes(scan.problems@.take(i as int)),
        decreases scan.problems@.len() - i,
    {
        let ghost before = out@;
        out.push(copy_finding(&scan.problems[i]));
        assert(notes(out@) =~= notes(before).push(note(scan.problems@[i as int])));
        assert(notes(scan.problems@.take(i + 1)) =~= notes(scan.problems@.take(i as int)).push(note(scan.problems@[i as int])));
        i = i + 1;
    }
    assert(scan.problems@.take(scan.problems@.len() as int) =~= scan.problems@);
    check_taxonomy(scan, &mut out);
    check_icons(scan, &mut out);
    check_strays(scan, &mut out);
    let ghost before_slots = notes(out@);
    let mut ids: Vec<(String, String)> = Vec::new();
    let mut declared: Vec<String> = Vec::new();
    let mut k: usize = 0;
    assert(ids_view(ids@) =~= Map::<Seq<char>, Seq<char>>::empty());
    assert(crate::text::texts(declared@) =~= Seq::<Seq<char>>::empty());
    while k < scan.slots.len()
        invariant
            k <= scan.slots@.len(),
            scan.wf(),
            ({
                let (ns, m, d) = slots_upto(*scan, k as int);
                &&& notes(out@) == before_slots + ns
                &&& ids_view(ids@) == m
                &&& crate::text::texts(declared@) == d
            }),
        decreases scan.slots@.len() - k,
    {
        assert(crate::library::slot_programs_wf(scan.slots@[k as int]));
        check_slot(scan, &scan.slots[k], &mut ids, &mut declared, &mut out);
        proof {
            let (ns, m, d) = slots_upto(*scan, k as int);
            let (ns2, m2, d2) = slot_step(*scan, scan.slots@[k as int], m, d);
            assert(notes(out@) =~= before_slots + (ns + ns2));
        }
        k = k + 1;
    }
    let ghost declared_all = slots_upto(*scan, scan.slots@.len() as int).2;
    assert(text_set(declared@) =~= Set::new(|t: Seq<char>| declared_all.contains(t))) by {
        assert forall|t: Seq<char>| text_set(declared@).contains(t) implies declared_all.contains(t) by {
            let j = choose|j: int| 0 <= j < declared@.len() && (#[trigger] declared@[j])@ == t;
            assert(crate::text::texts(declared@)[j] == t);
        }
        assert forall|t: Seq<char>| declared_all.contains(t) implies text_set(declared@).contains(t) by {
            let j = choose|j: int| 0 <= j < declared_all.len() && declared_all[j] == t;
            assert(crate::text::texts(declared@)[j] == declared@[j]@);
        }
    }
    check_demo_files(scan, &declared, &mut out);
    assert(notes(out@) =~= all_notes(*scan));
    let sorted = sort_findings(out);
    proof {
        lemma_findings_ordered(all_notes(*scan));
    }
    dedup_findings(sorted)
}

} // verus!
