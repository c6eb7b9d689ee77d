//! Starting a patch, and rewriting a stored program to A1: the decisions of
//! the repository tool's `new` and `normalise`, from what was read.

use vstd::prelude::*;

use crate::category::{name_of, value_of, Category};
use crate::library::Slot;
use crate::meta::PatchMeta;
use crate::program::{
    a1_frame, is_program_name, lowest_dump, program_name_problem, program_name_refusal, read_syx, syx_entries, with_name,
    StoredProgram,
};
use crate::text::{decimal, owned, push_decimal, push_str, replace_all, replaced};

verus! {

/// How many frames of a `.syx` file read as programs.
pub open spec fn ok_count(entries: Seq<Result<(Option<(u8, u8)>, (u8, Seq<u8>)), Seq<char>>>) -> nat
    decreases entries.len(),
{
    if entries.len() == 0 {
        0
    } else {
        ok_count(entries.drop_last()) + if entries.last() is Ok { 1nat } else { 0nat }
    }
}

/// The program of the one frame that reads, when exactly one does.
pub open spec fn only_program(entries: Seq<Result<(Option<(u8, u8)>, (u8, Seq<u8>)), Seq<char>>>) -> (u8, Seq<u8>)
    decreases entries.len(),
{
    if entries.len() == 0 {
        (0, seq![])
    } else if entries.last() is Ok {
        entries.last()->Ok_0.1
    } else {
        only_program(entries.drop_last())
    }
}

/// The program a new patch starts from: the one a `.syx` file holds, or one
/// with every parameter at its lowest; renamed and given the category.
pub open spec fn new_program_of(category: Category, name: Seq<char>, from: Option<(Seq<char>, Seq<u8>)>) -> Result<
    (u8, Seq<u8>),
    Seq<char>,
> {
    if !is_program_name(name) {
        Err("name: "@ + program_name_refusal(name))
    } else {
        let start = match from {
            None => Ok((7u8, lowest_dump(7))),
            Some((path, bytes)) => if ok_count(syx_entries(bytes)) == 1 {
                Ok(only_program(syx_entries(bytes)))
            } else {
                Err(path + " holds "@ + decimal(ok_count(syx_entries(bytes))) + " programs, expected one"@)
            },
        };
        match start {
            Err(m) => Err(m),
            Ok(p) => Ok((p.0, with_name(p.1, name).update(240, value_of(category)))),
        }
    }
}

/// Whether text can be a new patch's program name: nothing, or the refusal
/// under `name: `.
pub fn check_name(name: &str) -> (r: Result<(), String>)
    ensures
        r is Ok <==> is_program_name(name@),
        r matches Err(e) ==> e@ == "name: "@ + program_name_refusal(name@),
{
    match program_name_problem(name) {
        Some(problem) => {
            let mut e = owned("name: ");
            push_str(&mut e, problem.as_str());
            Err(e)
        },
        None => Ok(()),
    }
}

/// The program of a new patch: the one program a `.syx` file holds, or a
/// fresh one, with the name and the category stored in it.
pub fn new_program(category: Category, name: &str, from: Option<(&str, &[u8])>) -> (r: Result<StoredProgram, String>)
    ensures
        match new_program_of(
            category,
            name@,
            match from {
                Some((p, b)) => Some((p@, b@)),
                None => None,
            },
        ) {
            Ok(p) => r matches Ok(q) && q@ == p,
            Err(m) => r matches Err(e) && e@ == m,
        },
        r matches Ok(q) ==> q.wf(),
{
    match check_name(name) {
        Err(e) => {
            return Err(e);
        },
        Ok(()) => {},
    }
    let mut program = match from {
        None => StoredProgram::lowest(7),
        Some((path, bytes)) => {
            let mut entries = read_syx(bytes);
            let ghost all = syx_entries(bytes@);
            let n: usize = entries.len();
            assert(all.len() == n);
            let mut found: Option<StoredProgram> = None;
            let mut count: u64 = 0;
            let mut i: usize = 0;
            while entries.len() > 0
                invariant
                    i + entries@.len() == all.len(),
                    all.len() <= usize::MAX,
                    count == ok_count(all.take(i as int)),
                    count <= i,
                    all.len() == syx_entries(bytes@).len(),
                    all == syx_entries(bytes@),
                    forall|k: int|
                        0 <= k < entries@.len() ==> match (#[trigger] entries@[k], all[i + k]) {
                            (Ok(e), Ok((slot, program))) => e.program@ == program && crate::program::dump_fits(
                                program.0,
                                program.1.len(),
                            ),
                            (Err(_), Err(_)) => true,
                            _ => false,
                        },
                    count >= 1 ==> (found matches Some(f) && f@ == only_program(all.take(i as int)) && f.wf()),
                    count == 0 ==> found is None,
                decreases entries@.len(),
            {
                let ghost before = entries@;
                let entry = entries.remove(0);
                assert(all.take(i + 1).drop_last() =~= all.take(i as int));
                assert(all.take(i + 1).last() == all[i as int]);
                assert(before[0] == entry);
                assert forall|k: int| 0 <= k < entries@.len() implies entries@[k] == before[k + 1] by {}
                match entry {
                    Ok(e) => {
                        count = count + 1;
                        found = Some(e.program);
                    },
                    Err(_) => {},
                }
                i = i + 1;
            }
            assert(all.take(i as int) =~= all);
            if count != 1 {
                let mut e = owned(path);
                push_str(&mut e, " holds ");
                push_decimal(&mut e, count);
                push_str(&mut e, " programs, expected one");
                return Err(e);
            }
            match found {
                Some(f) => f,
                None => StoredProgram::lowest(7),
            }
        },
    };
    program.rename(name);
    let stored = program.set_category(category.value());
    match stored {
        Ok(()) => Ok(program),
        Err(m) => Err(m),
    }
}

/// The metadata a new patch starts with: version 1, nothing else filled in.
pub fn new_meta(name: &str, author: &str, licence: &str, created: Option<String>) -> (m: PatchMeta)
    ensures
        m.name@ == name@,
        m.author@ == author@,
        m.licence@ == licence@,
        m.version == 1,
        m.about@.len() == 0,
        m.created == created,
        m.genre@.len() == 0 && m.mood@.len() == 0 && m.timbre@.len() == 0 && m.role@.len() == 0,
        m.icon is None && m.model is None && m.firmware is None && m.source is None,
        m.tags@.len() == 0 && m.demos@.len() == 0 && m.unknown@.len() == 0,
{
    PatchMeta {
        name: owned(name),
        author: owned(author),
        version: 1,
        about: String::new(),
        licence: owned(licence),
        genre: Vec::new(),
        mood: Vec::new(),
        timbre: Vec::new(),
        role: Vec::new(),
        icon: None,
        created,
        model: None,
        firmware: None,
        source: None,
        tags: Vec::new(),
        demos: Vec::new(),
        unknown: Vec::new(),
    }
}

/// What follows a new patch's fields: a hint on the four taxonomy axes.
pub open spec fn axes_hint() -> Seq<char> {
    "\n# Pick at least one term from taxonomy.toml on any axis.\n# genre  = []\n# mood   = []\n# timbre = []\n# role   = []\n"@
}

/// A new patch's `.toml` text from the text its metadata writes: the empty
/// `about` line annotated, and the axes hint after it all.
pub open spec fn new_toml_of(written: Seq<char>) -> Seq<char> {
    replaced(written, "about = \"\""@, "about = \"\" # What it sounds like, how to play it."@) + axes_hint()
}

/// The `.toml` text of a new patch, from what its metadata writes.
pub fn new_toml(written: &str) -> (r: String)
    ensures
        r@ == new_toml_of(written@),
{
    let mut text = replace_all(written, "about = \"\"", "about = \"\" # What it sounds like, how to play it.");
    push_str(
        &mut text,
        "\n# Pick at least one term from taxonomy.toml on any axis.\n# genre  = []\n# mood   = []\n# timbre = []\n# role   = []\n",
    );
    text
}

/// The folder a new patch goes in, relative to the root: its category's,
/// and the collection's below it where one is given.
pub open spec fn new_folder_of(category: Category, collection: Option<Seq<char>>) -> Seq<char> {
    match collection {
        None => "presets/"@ + name_of(category),
        Some(c) => "presets/"@ + name_of(category) + "/"@ + c,
    }
}

/// The folder a new patch goes in.
pub fn new_folder(category: Category, collection: Option<&str>) -> (r: String)
    ensures
        r@ == new_folder_of(
            category,
            match collection {
                Some(c) => Some(c@),
                None => None,
            },
        ),
{
    let mut out = owned("presets/");
    push_str(&mut out, category.name());
    match collection {
        Some(c) => {
            push_str(&mut out, "/");
            push_str(&mut out, c);
        },
        None => {},
    }
    out
}

/// Whether a slot's file is one program stored somewhere other than A1,
/// which `normalise` rewrites.
pub open spec fn off_a1(s: Slot) -> bool {
    s.syx is Some && s.programs@.len() == 1 && s.programs@[0].slot != Some((0u8, 0u8))
}

/// The program to rewrite at A1, when a slot's file holds one program stored
/// elsewhere.
pub fn to_rewrite(slot: &Slot) -> (r: Option<&StoredProgram>)
    ensures
        off_a1(*slot) ==> r == Some(&slot.programs@[0].program),
        !off_a1(*slot) ==> r is None,
{
    if slot.syx.is_none() || slot.programs.len() != 1 {
        return None;
    }
    let e = &slot.programs[0];
    match e.slot {
        Some((0, 0)) => None,
        _ => Some(&e.program),
    }
}

/// The file `normalise` writes for a slot whose one program is stored
/// somewhere other than A1: the same program, stored at A1. `None` for any
/// other slot.
pub fn normalised(slot: &Slot) -> (r: Option<Result<Vec<u8>, String>>)
    ensures
        r is Some <==> off_a1(*slot),
        off_a1(*slot) ==> (r matches Some(Ok(bytes)) && bytes@ == a1_frame(slot.programs@[0].program@)),
        r matches Some(Ok(bytes)) ==> syx_entries(bytes@) == seq![
            Ok::<(Option<(u8, u8)>, (u8, Seq<u8>)), Seq<char>>((Some((0u8, 0u8)), slot.programs@[0].program@)),
        ],
{
    match to_rewrite(slot) {
        Some(program) => Some(program.a1_file()),
        None => None,
    }
}

} // verus!
