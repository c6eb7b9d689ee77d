//! The patch `.toml`: what a person writes about a sound.
//!
//! Only what nothing else can know. Anything readable from the `.syx` is
//! derived by [`crate::derived`] and has no field here, because a typed fact
//! goes stale the moment someone edits the patch.
//!
//! ```toml
//! name    = "Acid Growl"          # equals the program's stored name
//! author  = "nyx"                 # a person or a handle
//! version = 1                     # bump whenever the .syx bytes change
//! about   = "Resonant 303-ish bass that opens under velocity."
//! licence = "CC-BY-4.0"           # SPDX identifier or "All rights reserved"
//!
//! genre  = ["techno"]
//! mood   = ["dark", "aggressive"]
//! timbre = ["gritty", "analogue"]
//! role   = ["bass"]
//!
//! icon = [".......", "..###..", ".#...#.", ".#...#.", ".#####.", ".#...#.", "......."]
//!
//! created  = 2026-09-21
//! model    = "DeepMind 12"
//! firmware = "1.1.5"
//! source   = "Reworked from a factory program."
//! tags     = ["303", "velocity"]
//!
//! [[demo]]
//! about = "Dry, C2 to C4."
//!
//! [[demo]]
//! variant = "mod wheel"
//! about   = "Wheel fully up."
//! ```

use vstd::prelude::*;

use crate::document::{get, lookup, read_toml, toml_read, toml_written, write_toml, Document, TomlValue};
use crate::error::Error;
use crate::icon::{icon_read, Icon};
use crate::slug::{demo_stem, demo_stem_of, stem, stem_of};
use crate::taxonomy::Axis;
use crate::text::{owned, push_str, str_eq, texts};

verus! {

/// The exact text accepted in `licence` for a patch its author keeps all
/// rights to.
pub const ALL_RIGHTS_RESERVED: &'static str = "All rights reserved";

/// Most demos a patch may declare.
pub const MAX_DEMOS: usize = 4;

/// Longest a demo variant label may be, in characters.
pub const MAX_VARIANT_CHARS: usize = 24;

/// Longest `about` may be, in characters. Two sentences, not an essay.
pub const MAX_ABOUT_CHARS: usize = 400;

/// One audio demo of a patch. The file name is computed, never typed.
#[derive(Debug, Clone, PartialEq, Eq, Default)]
pub struct Demo {
    /// What is different about this take: `mod wheel`, `aftertouch`, `arp`.
    /// Absent on the default demo, of which there is at most one.
    pub variant: Option<String>,
    /// One line on how it was played.
    pub about: Option<String>,
}

/// Everything a patch `.toml` may hold.
#[derive(Debug, PartialEq)]
pub struct PatchMeta {
    /// The program's stored name, sixteen characters at most.
    pub name: String,
    /// A person or a handle. Not an email address.
    pub author: String,
    /// Bumped whenever the `.syx` bytes change. Starts at 1.
    pub version: u32,
    /// What it sounds like and how to play it.
    pub about: String,
    /// SPDX identifier, or [`ALL_RIGHTS_RESERVED`].
    pub licence: String,
    /// Terms from `taxonomy.toml`.
    pub genre: Vec<String>,
    /// Terms from `taxonomy.toml`.
    pub mood: Vec<String>,
    /// Terms from `taxonomy.toml`.
    pub timbre: Vec<String>,
    /// Terms from `taxonomy.toml`.
    pub role: Vec<String>,
    /// The patch's own icon. Falls back to the category icon when absent.
    pub icon: Option<Icon>,
    /// When it was made: a TOML date, as written.
    pub created: Option<String>,
    /// Which instrument it was voiced on, as Behringer writes it.
    pub model: Option<String>,
    /// Firmware it was made and checked on.
    pub firmware: Option<String>,
    /// Where it came from, if anywhere.
    pub source: Option<String>,
    /// Free text, searched but never styled.
    pub tags: Vec<String>,
    /// Audio demos, first is the default.
    pub demos: Vec<Demo>,
    /// Fields this crate does not know, in document order. Empty in a valid
    /// file; kept so an older reader still opens a newer checkout.
    pub unknown: Vec<(String, TomlValue)>,
}

/// An optional string by its view.
pub open spec fn opt_view(o: Option<String>) -> Option<Seq<char>> {
    match o {
        Some(s) => Some(s@),
        None => None,
    }
}

/// The stem of a demo's file: the patch's stem, and the variant in
/// brackets when there is one.
pub open spec fn demo_stem_of_variant(m: PatchMeta, d: Demo) -> Seq<char> {
    demo_stem_of(stem_of(m.name@, m.author@), opt_view(d.variant))
}

/// Whether a key is one of the fields a patch `.toml` may hold.
pub open spec fn is_meta_key(k: Seq<char>) -> bool {
    ||| k == "name"@
    ||| k == "author"@
    ||| k == "version"@
    ||| k == "about"@
    ||| k == "licence"@
    ||| k == "genre"@
    ||| k == "mood"@
    ||| k == "timbre"@
    ||| k == "role"@
    ||| k == "icon"@
    ||| k == "created"@
    ||| k == "model"@
    ||| k == "firmware"@
    ||| k == "source"@
    ||| k == "tags"@
    ||| k == "demo"@
}

/// The entries of a document whose keys are not fields, in order.
pub open spec fn unknown_entries(doc: Seq<(String, TomlValue)>) -> Seq<(String, TomlValue)>
    decreases doc.len(),
{
    if doc.len() == 0 {
        seq![]
    } else if is_meta_key(doc[0].0@) {
        unknown_entries(doc.drop_first())
    } else {
        seq![doc[0]] + unknown_entries(doc.drop_first())
    }
}

/// The message for a field of the wrong type.
pub open spec fn invalid(k: Seq<char>, expected: Seq<char>) -> Seq<char> {
    "invalid type for `"@ + k + "`, expected "@ + expected
}

/// The first of two problems.
pub open spec fn first(a: Option<Seq<char>>, b: Option<Seq<char>>) -> Option<Seq<char>> {
    if a is Some {
        a
    } else {
        b
    }
}

/// Whether a value is an array of strings.
pub open spec fn is_text_list(v: TomlValue) -> bool {
    match v {
        TomlValue::Array(a) => forall|i: int| 0 <= i < a@.len() ==> #[trigger] a@[i] is Text,
        _ => false,
    }
}

/// The strings an array of strings holds.
pub open spec fn list_of(v: Option<TomlValue>) -> Seq<Seq<char>> {
    match v {
        Some(TomlValue::Array(a)) => a@.map_values(|x: TomlValue| x->Text_0@),
        _ => seq![],
    }
}

/// The string at a key, empty where there is none.
pub open spec fn text_at(doc: Seq<(String, TomlValue)>, k: Seq<char>) -> Seq<char> {
    match lookup(doc, k) {
        Some(TomlValue::Text(s)) => s@,
        _ => seq![],
    }
}

/// The string at a key, if there is one.
pub open spec fn opt_text_at(doc: Seq<(String, TomlValue)>, k: Seq<char>) -> Option<Seq<char>> {
    match lookup(doc, k) {
        Some(TomlValue::Text(s)) => Some(s@),
        _ => None,
    }
}

/// A required string field: missing, or not a string.
pub open spec fn required_text_problem(doc: Seq<(String, TomlValue)>, k: Seq<char>) -> Option<
    Seq<char>,
> {
    match lookup(doc, k) {
        None => Some("missing field `"@ + k + "`"@),
        Some(TomlValue::Text(_)) => None,
        Some(_) => Some(invalid(k, "a string"@)),
    }
}

/// The `version` field: missing, not an integer, or not a `u32`.
pub open spec fn version_problem(doc: Seq<(String, TomlValue)>) -> Option<Seq<char>> {
    match lookup(doc, "version"@) {
        None => Some("missing field `version`"@),
        Some(TomlValue::Integer(i)) => if 0 <= i <= u32::MAX {
            None
        } else {
            Some("invalid value for `version`, expected a u32"@)
        },
        Some(_) => Some("invalid type for `version`, expected an integer"@),
    }
}

/// An optional string field that is there and is not a string.
pub open spec fn optional_text_problem(doc: Seq<(String, TomlValue)>, k: Seq<char>) -> Option<
    Seq<char>,
> {
    match lookup(doc, k) {
        None => None,
        Some(TomlValue::Text(_)) => None,
        Some(_) => Some(invalid(k, "a string"@)),
    }
}

/// A list field that is there and is not an array of strings.
pub open spec fn list_problem(doc: Seq<(String, TomlValue)>, k: Seq<char>) -> Option<Seq<char>> {
    match lookup(doc, k) {
        None => None,
        Some(v) => if is_text_list(v) {
            None
        } else {
            Some(invalid(k, "an array of strings"@))
        },
    }
}

/// The `icon` field: not an array of strings, or rows that do not draw an
/// icon.
pub open spec fn icon_problem(doc: Seq<(String, TomlValue)>) -> Option<Seq<char>> {
    match list_problem(doc, "icon"@) {
        Some(m) => Some(m),
        None => match lookup(doc, "icon"@) {
            None => None,
            Some(v) => match icon_read(list_of(Some(v))) {
                Ok(_) => None,
                Err(m) => Some("icon: "@ + m),
            },
        },
    }
}

/// The `created` field, there and not a date.
pub open spec fn created_problem(doc: Seq<(String, TomlValue)>) -> Option<Seq<char>> {
    match lookup(doc, "created"@) {
        None => None,
        Some(TomlValue::Datetime(_)) => None,
        Some(_) => Some("invalid type for `created`, expected a date"@),
    }
}

/// What is wrong with one entry of a demo table.
pub open spec fn demo_entry_problem(e: (String, TomlValue)) -> Option<Seq<char>> {
    if e.0@ != "variant"@ && e.0@ != "about"@ {
        Some("unknown field `"@ + e.0@ + "`, expected `variant` or `about`"@)
    } else if !(e.1 is Text) {
        Some(invalid(e.0@, "a string"@))
    } else {
        None
    }
}

/// The first thing wrong with the entries of a demo table.
pub open spec fn demo_entries_problem(t: Seq<(String, TomlValue)>) -> Option<Seq<char>>
    decreases t.len(),
{
    if t.len() == 0 {
        None
    } else {
        first(demo_entry_problem(t[0]), demo_entries_problem(t.drop_first()))
    }
}

/// What is wrong with one demo.
pub open spec fn demo_problem(v: TomlValue) -> Option<Seq<char>> {
    match v {
        TomlValue::Table(t) => demo_entries_problem(t@),
        _ => Some("invalid type for `demo`, expected a table"@),
    }
}

/// The first thing wrong with a list of demos.
pub open spec fn demos_problem(a: Seq<TomlValue>) -> Option<Seq<char>>
    decreases a.len(),
{
    if a.len() == 0 {
        None
    } else {
        first(demo_problem(a[0]), demos_problem(a.drop_first()))
    }
}

/// The `demo` field: there and not an array of demo tables.
pub open spec fn demo_field_problem(doc: Seq<(String, TomlValue)>) -> Option<Seq<char>> {
    match lookup(doc, "demo"@) {
        None => None,
        Some(TomlValue::Array(a)) => demos_problem(a@),
        Some(_) => Some("invalid type for `demo`, expected an array of tables"@),
    }
}

/// The first thing wrong with a patch document, field by field in the order
/// the fields are declared.
pub open spec fn meta_problem(doc: Seq<(String, TomlValue)>) -> Option<Seq<char>> {
    first(
        required_text_problem(doc, "name"@),
        first(
            required_text_problem(doc, "author"@),
            first(
                version_problem(doc),
                first(
                    required_text_problem(doc, "about"@),
                    first(
                        required_text_problem(doc, "licence"@),
                        first(
                            list_problem(doc, "genre"@),
                            first(
                                list_problem(doc, "mood"@),
                                first(
                                    list_problem(doc, "timbre"@),
                                    first(
                                        list_problem(doc, "role"@),
                                        first(
                                            icon_problem(doc),
                                            first(
                                                created_problem(doc),
                                                first(
                                                    optional_text_problem(doc, "model"@),
                                                    first(
                                                        optional_text_problem(doc, "firmware"@),
                                                        first(
                                                            optional_text_problem(doc, "source"@),
                                                            first(
                                                                list_problem(doc, "tags"@),
                                                                demo_field_problem(doc),
                                                            ),
                                                        ),
                                                    ),
                                                ),
                                            ),
                                        ),
                                    ),
                                ),
                            ),
                        ),
                    ),
                ),
            ),
        ),
    )
}

/// Whether a demo holds what a demo table lists.
pub open spec fn demo_of(d: Demo, v: TomlValue) -> bool {
    match v {
        TomlValue::Table(t) => opt_view(d.variant) == opt_text_at(t@, "variant"@) && opt_view(
            d.about,
        ) == opt_text_at(t@, "about"@),
        _ => false,
    }
}

/// Whether the demos hold what the `demo` field lists.
pub open spec fn demos_of(d: Seq<Demo>, v: Option<TomlValue>) -> bool {
    match v {
        Some(TomlValue::Array(a)) => d.len() == a@.len() && forall|i: int|
            0 <= i < d.len() ==> #[trigger] demo_of(d[i], a@[i]),
        _ => d.len() == 0,
    }
}

/// Whether the icon is what the `icon` field draws.
pub open spec fn icon_of(icon: Option<Icon>, v: Option<TomlValue>) -> bool {
    match v {
        Some(v) => icon matches Some(i) && icon_read(list_of(Some(v))) == Ok::<
            Seq<u8>,
            Seq<char>,
        >(i.bits()),
        None => icon is None,
    }
}

/// Whether the date is the one the `created` field holds.
pub open spec fn created_of(created: Option<String>, v: Option<TomlValue>) -> bool {
    match v {
        Some(TomlValue::Datetime(d)) => opt_view(created) == Some(d@),
        _ => created is None,
    }
}

/// Whether a `PatchMeta` holds exactly what a valid document lists.
pub open spec fn meta_of(m: PatchMeta, doc: Seq<(String, TomlValue)>) -> bool {
    &&& m.name@ == text_at(doc, "name"@)
    &&& m.author@ == text_at(doc, "author"@)
    &&& lookup(doc, "version"@) == Some(TomlValue::Integer(m.version as i64))
    &&& m.about@ == text_at(doc, "about"@)
    &&& m.licence@ == text_at(doc, "licence"@)
    &&& texts(m.genre@) == list_of(lookup(doc, "genre"@))
    &&& texts(m.mood@) == list_of(lookup(doc, "mood"@))
    &&& texts(m.timbre@) == list_of(lookup(doc, "timbre"@))
    &&& texts(m.role@) == list_of(lookup(doc, "role"@))
    &&& icon_of(m.icon, lookup(doc, "icon"@))
    &&& created_of(m.created, lookup(doc, "created"@))
    &&& opt_view(m.model) == opt_text_at(doc, "model"@)
    &&& opt_view(m.firmware) == opt_text_at(doc, "firmware"@)
    &&& opt_view(m.source) == opt_text_at(doc, "source"@)
    &&& texts(m.tags@) == list_of(lookup(doc, "tags"@))
    &&& demos_of(m.demos@, lookup(doc, "demo"@))
    &&& m.unknown@ == unknown_entries(doc)
}

/// Whether `r` is what parsing a patch `.toml` gives, the text having read
/// as `read`: the parser's message, the first thing wrong, or the fields.
pub open spec fn parsed_meta(r: Result<PatchMeta, String>, read: Result<Document, String>) -> bool {
    match read {
        Err(m) => r == Err::<PatchMeta, String>(m),
        Ok(doc) => match meta_problem(doc@) {
            Some(m) => r matches Err(message) && message@ == m,
            None => r matches Ok(meta) && meta_of(meta, doc@),
        },
    }
}


/// The fields of a patch `.toml`, in the order they are written.
#[derive(Debug, Clone, Copy, PartialEq, Eq)]
pub enum Field {
    Name,
    Author,
    Version,
    About,
    Licence,
    Genre,
    Mood,
    Timbre,
    Role,
    Icon,
    Created,
    Model,
    Firmware,
    Source,
    Tags,
    Demo,
}

/// The key a field is written under.
pub open spec fn field_key(f: Field) -> Seq<char> {
    match f {
        Field::Name => "name"@,
        Field::Author => "author"@,
        Field::Version => "version"@,
        Field::About => "about"@,
        Field::Licence => "licence"@,
        Field::Genre => "genre"@,
        Field::Mood => "mood"@,
        Field::Timbre => "timbre"@,
        Field::Role => "role"@,
        Field::Icon => "icon"@,
        Field::Created => "created"@,
        Field::Model => "model"@,
        Field::Firmware => "firmware"@,
        Field::Source => "source"@,
        Field::Tags => "tags"@,
        Field::Demo => "demo"@,
    }
}

/// One field if a condition holds, else nothing.
pub open spec fn field_if(c: bool, f: Field) -> Seq<Field> {
    if c {
        seq![f]
    } else {
        seq![]
    }
}

/// The fields written for a `PatchMeta`: the five required ones, then each
/// optional one that is set, a list only when it is not empty. Unknown
/// fields are never written.
pub open spec fn written_fields(m: PatchMeta) -> Seq<Field> {
    seq![Field::Name, Field::Author, Field::Version, Field::About, Field::Licence] + list_fields(m)
        + detail_fields(m) + tail_fields(m)
}

/// The vocabulary lists that are written: those not empty.
pub open spec fn list_fields(m: PatchMeta) -> Seq<Field> {
    field_if(m.genre@.len() > 0, Field::Genre) + field_if(m.mood@.len() > 0, Field::Mood)
        + field_if(m.timbre@.len() > 0, Field::Timbre) + field_if(m.role@.len() > 0, Field::Role)
}

/// The icon, date, model and firmware, each when set.
pub open spec fn detail_fields(m: PatchMeta) -> Seq<Field> {
    field_if(m.icon is Some, Field::Icon) + field_if(m.created is Some, Field::Created)
        + field_if(m.model is Some, Field::Model) + field_if(m.firmware is Some, Field::Firmware)
}

/// The source when set, then tags and demos when not empty.
pub open spec fn tail_fields(m: PatchMeta) -> Seq<Field> {
    field_if(m.source is Some, Field::Source) + field_if(m.tags@.len() > 0, Field::Tags)
        + field_if(m.demos@.len() > 0, Field::Demo)
}

/// Whether a value is a string with the given text.
pub open spec fn is_text_of(v: TomlValue, t: Seq<char>) -> bool {
    v matches TomlValue::Text(s) && s@ == t
}

/// Whether a value is an array of exactly the given strings.
pub open spec fn is_list_of(v: TomlValue, l: Seq<Seq<char>>) -> bool {
    is_text_list(v) && list_of(Some(v)) == l
}

/// Whether a table is the one a demo is written as: `variant`, then
/// `about`, each only when set.
pub open spec fn demo_written(d: Demo, v: TomlValue) -> bool {
    match v {
        TomlValue::Table(t) => match (d.variant, d.about) {
            (Some(a), Some(b)) => t@.len() == 2 && t@[0].0@ == "variant"@ && is_text_of(t@[0].1, a@)
                && t@[1].0@ == "about"@ && is_text_of(t@[1].1, b@),
            (Some(a), None) => t@.len() == 1 && t@[0].0@ == "variant"@ && is_text_of(t@[0].1, a@),
            (None, Some(b)) => t@.len() == 1 && t@[0].0@ == "about"@ && is_text_of(t@[0].1, b@),
            (None, None) => t@.len() == 0,
        },
        _ => false,
    }
}

/// Whether a value is what a field of `m` is written as.
pub open spec fn field_value(m: PatchMeta, f: Field, v: TomlValue) -> bool {
    match f {
        Field::Name => is_text_of(v, m.name@),
        Field::Author => is_text_of(v, m.author@),
        Field::Version => v == TomlValue::Integer(m.version as i64),
        Field::About => is_text_of(v, m.about@),
        Field::Licence => is_text_of(v, m.licence@),
        Field::Genre => is_list_of(v, texts(m.genre@)),
        Field::Mood => is_list_of(v, texts(m.mood@)),
        Field::Timbre => is_list_of(v, texts(m.timbre@)),
        Field::Role => is_list_of(v, texts(m.role@)),
        Field::Icon => m.icon matches Some(i) && is_list_of(
            v,
            Seq::new(7, |y: int| crate::icon::row_text(i.bits()[y])),
        ),
        Field::Created => m.created matches Some(c) && v matches TomlValue::Datetime(d) && d@
            == c@,
        Field::Model => m.model matches Some(s) && is_text_of(v, s@),
        Field::Firmware => m.firmware matches Some(s) && is_text_of(v, s@),
        Field::Source => m.source matches Some(s) && is_text_of(v, s@),
        Field::Tags => is_list_of(v, texts(m.tags@)),
        Field::Demo => v matches TomlValue::Array(a) && a@.len() == m.demos@.len() && forall|i: int|
            0 <= i < a@.len() ==> #[trigger] demo_written(m.demos@[i], a@[i]),
    }
}

/// Whether a document is the one `m` is written as: the written fields in
/// order, each with its value.
pub open spec fn written_document(d: Seq<(String, TomlValue)>, m: PatchMeta) -> bool {
    fields_match(d, written_fields(m), m)
}

/// Whether the SPDX licence list knows an identifier (`spdx::license_id`
/// finds it), a trailing `+` ignored.
pub uninterp spec fn spdx_listed(name: Seq<char>) -> bool;

/// Looks an identifier up in the SPDX licence list (`spdx::license_id`).
///
/// Trusted: whether it is found is named by [`spdx_listed`], a function of
/// the text alone; the list is the one compiled into the crate.
#[verifier::external_body]
fn spdx_knows(name: &str) -> (r: bool)
    ensures
        r == spdx_listed(name@),
{
    spdx::license_id(name).is_some()
}

pub(crate) fn invalid_type(k: &str, expected: &str) -> (m: String)
    ensures
        m@ == invalid(k@, expected@),
{
    let mut m = owned("invalid type for `");
    push_str(&mut m, k);
    push_str(&mut m, "`, expected ");
    push_str(&mut m, expected);
    m
}

fn required_text(doc: &Document, k: &str) -> (r: Result<String, String>)
    ensures
        match required_text_problem(doc@, k@) {
            Some(m) => r matches Err(e) && e@ == m,
            None => r matches Ok(s) && s@ == text_at(doc@, k@),
        },
{
    match get(doc, k) {
        None => {
            let mut m = owned("missing field `");
            push_str(&mut m, k);
            push_str(&mut m, "`");
            Err(m)
        },
        Some(TomlValue::Text(s)) => Ok(s.clone()),
        Some(_) => Err(invalid_type(k, "a string")),
    }
}

fn version_field(doc: &Document) -> (r: Result<u32, String>)
    ensures
        match version_problem(doc@) {
            Some(m) => r matches Err(e) && e@ == m,
            None => r matches Ok(v) && lookup(doc@, "version"@) == Some(TomlValue::Integer(v as i64)),
        },
{
    match get(doc, "version") {
        None => Err(owned("missing field `version`")),
        Some(TomlValue::Integer(i)) => {
            if 0 <= *i && *i <= 4294967295 {
                Ok(*i as u32)
            } else {
                Err(owned("invalid value for `version`, expected a u32"))
            }
        },
        Some(_) => Err(owned("invalid type for `version`, expected an integer")),
    }
}

pub(crate) fn optional_text(doc: &Document, k: &str) -> (r: Result<Option<String>, String>)
    ensures
        match optional_text_problem(doc@, k@) {
            Some(m) => r matches Err(e) && e@ == m,
            None => r matches Ok(o) && opt_view(o) == opt_text_at(doc@, k@),
        },
{
    match get(doc, k) {
        None => Ok(None),
        Some(TomlValue::Text(s)) => Ok(Some(s.clone())),
        Some(_) => Err(invalid_type(k, "a string")),
    }
}

fn text_list(v: &TomlValue) -> (r: Option<Vec<String>>)
    ensures
        is_text_list(*v) <==> r is Some,
        r matches Some(l) ==> texts(l@) == list_of(Some(*v)),
{
    match v {
        TomlValue::Array(a) => {
            let mut out: Vec<String> = Vec::new();
            let mut i: usize = 0;
            while i < a.len()
                invariant
                    i <= a@.len(),
                    *v == TomlValue::Array(*a),
                    forall|j: int| 0 <= j < i ==> #[trigger] a@[j] is Text,
                    texts(out@) == a@.take(i as int).map_values(|x: TomlValue| x->Text_0@),
                decreases a@.len() - i,
            {
                match &a[i] {
                    TomlValue::Text(s) => {
                        let ghost before = out@;
                        out.push(s.clone());
                        assert(texts(out@) =~= texts(before).push(s@));
                        assert(a@.take(i + 1).map_values(|x: TomlValue| x->Text_0@) =~= a@.take(
                            i as int,
                        ).map_values(|x: TomlValue| x->Text_0@).push(s@));
                    },
                    _ => {
                        assert(!(a@[i as int] is Text));
                        return None;
                    },
                }
                i = i + 1;
            }
            assert(a@.take(a@.len() as int) =~= a@);
            Some(out)
        },
        _ => None,
    }
}

fn list_field(doc: &Document, k: &str) -> (r: Result<Vec<String>, String>)
    ensures
        match list_problem(doc@, k@) {
            Some(m) => r matches Err(e) && e@ == m,
            None => r matches Ok(l) && texts(l@) == list_of(lookup(doc@, k@)),
        },
{
    match get(doc, k) {
        None => Ok(Vec::new()),
        Some(v) => match text_list(v) {
            Some(l) => Ok(l),
            None => Err(invalid_type(k, "an array of strings")),
        },
    }
}

pub(crate) fn icon_field(doc: &Document) -> (r: Result<Option<Icon>, String>)
    ensures
        match icon_problem(doc@) {
            Some(m) => r matches Err(e) && e@ == m,
            None => r matches Ok(i) && icon_of(i, lookup(doc@, "icon"@)),
        },
{
    match get(doc, "icon") {
        None => Ok(None),
        Some(v) => match text_list(v) {
            None => Err(invalid_type("icon", "an array of strings")),
            Some(rows) => {
                let r = Icon::parse(rows.as_slice());
                proof {
                    assert(texts(rows@) == list_of(Some(*v)));
                }
                match r {
                    Ok(icon) => Ok(Some(icon)),
                    Err(e) => Err(e.to_string()),
                }
            },
        },
    }
}

fn created_field(doc: &Document) -> (r: Result<Option<String>, String>)
    ensures
        match created_problem(doc@) {
            Some(m) => r matches Err(e) && e@ == m,
            None => r matches Ok(c) && created_of(c, lookup(doc@, "created"@)),
        },
{
    match get(doc, "created") {
        None => Ok(None),
        Some(TomlValue::Datetime(d)) => Ok(Some(d.clone())),
        Some(_) => Err(owned("invalid type for `created`, expected a date")),
    }
}

/// In a demo table with nothing wrong, each of its keys holds a string.
proof fn lemma_demo_entries(t: Seq<(String, TomlValue)>, k: Seq<char>)
    requires
        demo_entries_problem(t) is None,
    ensures
        lookup(t, k) matches Some(v) ==> v is Text,
    decreases t.len(),
{
    if t.len() > 0 {
        lemma_demo_entries(t.drop_first(), k);
    }
}

fn demo_from(v: &TomlValue) -> (r: Result<Demo, String>)
    ensures
        match demo_problem(*v) {
            Some(m) => r matches Err(e) && e@ == m,
            None => r matches Ok(d) && demo_of(d, *v),
        },
{
    match v {
        TomlValue::Table(t) => {
            let mut i: usize = 0;
            assert(t@.skip(0) =~= t@);
            while i < t.len()
                invariant
                    i <= t@.len(),
                    *v == TomlValue::Table(*t),
                    demo_entries_problem(t@) == demo_entries_problem(t@.skip(i as int)),
                decreases t@.len() - i,
            {
                assert(t@.skip(i as int).drop_first() =~= t@.skip(i + 1));
                assert(t@.skip(i as int)[0] == t@[i as int]);
                let (k, value) = &t[i];
                if !str_eq(k.as_str(), "variant") && !str_eq(k.as_str(), "about") {
                    let mut m = owned("unknown field `");
                    push_str(&mut m, k.as_str());
                    push_str(&mut m, "`, expected `variant` or `about`");
                    return Err(m);
                }
                match value {
                    TomlValue::Text(_) => {},
                    _ => {
                        return Err(invalid_type(k.as_str(), "a string"));
                    },
                }
                i = i + 1;
            }
            proof {
                assert(t@.skip(t@.len() as int).len() == 0);
                lemma_demo_entries(t@, "variant"@);
                lemma_demo_entries(t@, "about"@);
            }
            let variant = match optional_text(t, "variant") {
                Ok(o) => o,
                Err(m) => {
                    return Err(m);
                },
            };
            let about = match optional_text(t, "about") {
                Ok(o) => o,
                Err(m) => {
                    return Err(m);
                },
            };
            Ok(Demo { variant, about })
        },
        _ => Err(owned("invalid type for `demo`, expected a table")),
    }
}

fn demos_field(doc: &Document) -> (r: Result<Vec<Demo>, String>)
    ensures
        match demo_field_problem(doc@) {
            Some(m) => r matches Err(e) && e@ == m,
            None => r matches Ok(d) && demos_of(d@, lookup(doc@, "demo"@)),
        },
{
    match get(doc, "demo") {
        None => Ok(Vec::new()),
        Some(TomlValue::Array(a)) => {
            let mut out: Vec<Demo> = Vec::new();
            let mut i: usize = 0;
            assert(a@.skip(0) =~= a@);
            while i < a.len()
                invariant
                    i <= a@.len(),
                    demos_problem(a@) == demos_problem(a@.skip(i as int)),
                    lookup(doc@, "demo"@) == Some(TomlValue::Array(*a)),
                    out@.len() == i,
                    forall|j: int| 0 <= j < i ==> #[trigger] demo_of(out@[j], a@[j]),
                decreases a@.len() - i,
            {
                assert(a@.skip(i as int).drop_first() =~= a@.skip(i + 1));
                assert(a@.skip(i as int)[0] == a@[i as int]);
                match demo_from(&a[i]) {
                    Ok(d) => {
                        out.push(d);
                    },
                    Err(m) => {
                        return Err(m);
                    },
                }
                i = i + 1;
            }
            assert(a@.skip(a@.len() as int).len() == 0);
            Ok(out)
        },
        Some(_) => Err(owned("invalid type for `demo`, expected an array of tables")),
    }
}

fn unknown_of(doc: Document) -> (r: Vec<(String, TomlValue)>)
    ensures
        r@ == unknown_entries(doc@),
{
    let mut rest = doc;
    let mut out: Vec<(String, TomlValue)> = Vec::new();
    while rest.len() > 0
        invariant
            out@ + unknown_entries(rest@) == unknown_entries(doc@),
        decreases rest@.len(),
    {
        let ghost before = rest@;
        let e = rest.remove(0);
        assert(rest@ =~= before.drop_first());
        if is_field(e.0.as_str()) {
        } else {
            let ghost o = out@;
            out.push(e);
            assert(out@ + unknown_entries(rest@) =~= o + (seq![before[0]] + unknown_entries(
                rest@,
            )));
        }
    }
    assert(out@ + unknown_entries(rest@) =~= out@);
    out
}

fn is_field(k: &str) -> (r: bool)
    ensures
        r == is_meta_key(k@),
{
    str_eq(k, "name") || str_eq(k, "author") || str_eq(k, "version") || str_eq(k, "about")
        || str_eq(k, "licence") || str_eq(k, "genre") || str_eq(k, "mood") || str_eq(k, "timbre")
        || str_eq(k, "role") || str_eq(k, "icon") || str_eq(k, "created") || str_eq(k, "model")
        || str_eq(k, "firmware") || str_eq(k, "source") || str_eq(k, "tags") || str_eq(k, "demo")
}

impl PatchMeta {
    /// Parses TOML text. Unknown fields land in [`PatchMeta::unknown`].
    pub fn parse(text: &str) -> (r: Result<Self, String>)
        ensures
            parsed_meta(r, toml_read(text@)),
    {
        match read_toml(text) {
            Err(message) => Err(message),
            Ok(doc) => Self::from_document(doc),
        }
    }

    /// The fields a parsed document lists, or the first thing wrong with it.
    pub fn from_document(doc: Document) -> (r: Result<Self, String>)
        ensures
            match meta_problem(doc@) {
                Some(m) => r matches Err(e) && e@ == m,
                None => r matches Ok(meta) && meta_of(meta, doc@),
            },
    {
        let name = match required_text(&doc, "name") { Ok(v) => v, Err(m) => { return Err(m); } };
        let author = match required_text(&doc, "author") { Ok(v) => v, Err(m) => { return Err(m); } };
        let version = match version_field(&doc) { Ok(v) => v, Err(m) => { return Err(m); } };
        let about = match required_text(&doc, "about") { Ok(v) => v, Err(m) => { return Err(m); } };
        let licence = match required_text(&doc, "licence") { Ok(v) => v, Err(m) => { return Err(m); } };
        let genre = match list_field(&doc, "genre") { Ok(v) => v, Err(m) => { return Err(m); } };
        let mood = match list_field(&doc, "mood") { Ok(v) => v, Err(m) => { return Err(m); } };
        let timbre = match list_field(&doc, "timbre") { Ok(v) => v, Err(m) => { return Err(m); } };
        let role = match list_field(&doc, "role") { Ok(v) => v, Err(m) => { return Err(m); } };
        let icon = match icon_field(&doc) { Ok(v) => v, Err(m) => { return Err(m); } };
        let created = match created_field(&doc) { Ok(v) => v, Err(m) => { return Err(m); } };
        let model = match optional_text(&doc, "model") { Ok(v) => v, Err(m) => { return Err(m); } };
        let firmware = match optional_text(&doc, "firmware") { Ok(v) => v, Err(m) => { return Err(m); } };
        let source = match optional_text(&doc, "source") { Ok(v) => v, Err(m) => { return Err(m); } };
        let tags = match list_field(&doc, "tags") { Ok(v) => v, Err(m) => { return Err(m); } };
        let demos = match demos_field(&doc) { Ok(v) => v, Err(m) => { return Err(m); } };
        let unknown = unknown_of(doc);
        Ok(PatchMeta {
            name,
            author,
            version,
            about,
            licence,
            genre,
            mood,
            timbre,
            role,
            icon,
            created,
            model,
            firmware,
            source,
            tags,
            demos,
            unknown,
        })
    }

    /// The filename stem both files share.
    pub fn stem(&self) -> (r: String)
        ensures
            r@ == stem_of(self.name@, self.author@),
    {
        stem(self.name.as_str(), self.author.as_str())
    }

    /// The file name of one demo, without a folder.
    pub fn demo_file_name(&self, demo: &Demo) -> (r: String)
        ensures
            r@ == demo_stem_of_variant(*self, *demo) + ".mp3"@,
    {
        let s = self.stem();
        let variant: Option<&str> = match &demo.variant {
            Some(v) => Some(v.as_str()),
            None => None,
        };
        let mut r = demo_stem(s.as_str(), variant);
        push_str(&mut r, ".mp3");
        r
    }

    /// The terms on one axis.
    pub fn terms(&self, axis: Axis) -> (r: &[String])
        ensures
            r@ == match axis {
                Axis::Genre => self.genre@,
                Axis::Mood => self.mood@,
                Axis::Timbre => self.timbre@,
                Axis::Role => self.role@,
            },
    {
        match axis {
            Axis::Genre => self.genre.as_slice(),
            Axis::Mood => self.mood.as_slice(),
            Axis::Timbre => self.timbre.as_slice(),
            Axis::Role => self.role.as_slice(),
        }
    }

    /// Whether at least one vocabulary term is set on any axis.
    pub fn has_terms(&self) -> (r: bool)
        ensures
            r == (self.genre@.len() > 0 || self.mood@.len() > 0 || self.timbre@.len() > 0
                || self.role@.len() > 0),
    {
        self.genre.len() > 0 || self.mood.len() > 0 || self.timbre.len() > 0 || self.role.len() > 0
    }

    /// Whether the licence field is an SPDX identifier or the accepted
    /// reserved-rights text.
    pub fn licence_is_valid(&self) -> (r: bool)
        ensures
            r == (self.licence@ == ALL_RIGHTS_RESERVED@ || spdx_listed(self.licence@)),
    {
        str_eq(self.licence.as_str(), ALL_RIGHTS_RESERVED) || spdx_knows(self.licence.as_str())
    }
}

fn text_array(v: &Vec<String>) -> (r: TomlValue)
    ensures
        is_list_of(r, texts(v@)),
{
    let mut a: Vec<TomlValue> = Vec::new();
    let mut i: usize = 0;
    while i < v.len()
        invariant
            i <= v@.len(),
            a@.len() == i,
            forall|j: int| 0 <= j < i ==> #[trigger] a@[j] is Text,
            a@.map_values(|x: TomlValue| x->Text_0@) == texts(v@).take(i as int),
        decreases v@.len() - i,
    {
        let ghost before = a@;
        a.push(TomlValue::Text(v[i].clone()));
        assert(a@.map_values(|x: TomlValue| x->Text_0@) =~= before.map_values(
            |x: TomlValue| x->Text_0@,
        ).push(v@[i as int]@));
        assert(texts(v@).take(i + 1) =~= texts(v@).take(i as int).push(v@[i as int]@));
        i = i + 1;
    }
    assert(texts(v@).take(v@.len() as int) =~= texts(v@));
    TomlValue::Array(a)
}

fn demo_table(d: &Demo) -> (r: TomlValue)
    ensures
        demo_written(*d, r),
{
    let mut t: Vec<(String, TomlValue)> = Vec::new();
    match &d.variant {
        Some(v) => {
            t.push((owned("variant"), TomlValue::Text(v.clone())));
        },
        None => {},
    }
    match &d.about {
        Some(a) => {
            t.push((owned("about"), TomlValue::Text(a.clone())));
        },
        None => {},
    }
    TomlValue::Table(t)
}

/// Whether an entry is a field of `m` under its key.
pub open spec fn entry_ok(m: PatchMeta, f: Field, e: (String, TomlValue)) -> bool {
    e.0@ == field_key(f) && field_value(m, f, e.1)
}

/// Whether the entries of a document are the given fields of `m`, in order.
pub open spec fn fields_match(d: Seq<(String, TomlValue)>, fs: Seq<Field>, m: PatchMeta) -> bool {
    &&& d.len() == fs.len()
    &&& forall|i: int| 0 <= i < d.len() ==> #[trigger] entry_ok(m, fs[i], d[i])
}

proof fn lemma_fields_push(
    d: Seq<(String, TomlValue)>,
    fs: Seq<Field>,
    m: PatchMeta,
    e: (String, TomlValue),
    f: Field,
)
    requires
        fields_match(d, fs, m),
        entry_ok(m, f, e),
    ensures
        fields_match(d.push(e), fs.push(f), m),
{
    let d2 = d.push(e);
    let fs2 = fs.push(f);
    assert forall|i: int| 0 <= i < d2.len() implies #[trigger] entry_ok(m, fs2[i], d2[i]) by {
        if i < d.len() {
            assert(fs2[i] == fs[i]);
            assert(d2[i] == d[i]);
            assert(entry_ok(m, fs[i], d[i]));
        } else {
            assert(fs2[i] == f);
            assert(d2[i] == e);
        }
    }
}

impl PatchMeta {
    fn push_lists(&self, d: &mut Document, Ghost(fs): Ghost<Seq<Field>>)
        requires
            fields_match(old(d)@, fs, *self),
        ensures
            fields_match(final(d)@, fs + list_fields(*self), *self),
    {
        let ghost m = *self;
        let ghost start = fs;
        let ghost mut fs = fs;
        if self.genre.len() > 0 {
            let ghost before = d@;
            let e = (owned("genre"), text_array(&self.genre));
            d.push(e);
            proof {
                lemma_fields_push(before, fs, m, e, Field::Genre);
                fs = fs.push(Field::Genre);
            }
        }
        assert(fs =~= start + field_if(m.genre@.len() > 0, Field::Genre));
        if self.mood.len() > 0 {
            let ghost before = d@;
            let e = (owned("mood"), text_array(&self.mood));
            d.push(e);
            proof {
                lemma_fields_push(before, fs, m, e, Field::Mood);
                fs = fs.push(Field::Mood);
            }
        }
        assert(fs =~= start + field_if(m.genre@.len() > 0, Field::Genre) + field_if(m.mood@.len() > 0, Field::Mood));
        if self.timbre.len() > 0 {
            let ghost before = d@;
            let e = (owned("timbre"), text_array(&self.timbre));
            d.push(e);
            proof {
                lemma_fields_push(before, fs, m, e, Field::Timbre);
                fs = fs.push(Field::Timbre);
            }
        }
        assert(fs =~= start + field_if(m.genre@.len() > 0, Field::Genre) + field_if(m.mood@.len() > 0, Field::Mood) + field_if(m.timbre@.len() > 0, Field::Timbre));
        if self.role.len() > 0 {
            let ghost before = d@;
            let e = (owned("role"), text_array(&self.role));
            d.push(e);
            proof {
                lemma_fields_push(before, fs, m, e, Field::Role);
                fs = fs.push(Field::Role);
            }
        }
        assert(fs =~= start + field_if(m.genre@.len() > 0, Field::Genre) + field_if(m.mood@.len() > 0, Field::Mood) + field_if(m.timbre@.len() > 0, Field::Timbre) + field_if(m.role@.len() > 0, Field::Role));
        assert(fs =~= start + list_fields(m));
    }

    fn push_details(&self, d: &mut Document, Ghost(fs): Ghost<Seq<Field>>)
        requires
            fields_match(old(d)@, fs, *self),
        ensures
            fields_match(final(d)@, fs + detail_fields(*self), *self),
    {
        let ghost m = *self;
        let ghost start = fs;
        let ghost mut fs = fs;
        match &self.icon {
            Some(icon) => {
                let rows = icon.rows_text();
                let ghost before = d@;
                let e = (owned("icon"), text_array(&rows));
                d.push(e);
                proof {
                    lemma_fields_push(before, fs, m, e, Field::Icon);
                    fs = fs.push(Field::Icon);
                }
            },
            None => {},
        }
        assert(fs =~= start + field_if(m.icon is Some, Field::Icon));
        match &self.created {
            Some(v) => {
                let ghost before = d@;
                let e = (owned("created"), TomlValue::Datetime(v.clone()));
                d.push(e);
                proof {
                    lemma_fields_push(before, fs, m, e, Field::Created);
                    fs = fs.push(Field::Created);
                }
            },
            None => {},
        }
        assert(fs =~= start + field_if(m.icon is Some, Field::Icon) + field_if(m.created is Some, Field::Created));
        match &self.model {
            Some(v) => {
                let ghost before = d@;
                let e = (owned("model"), TomlValue::Text(v.clone()));
                d.push(e);
                proof {
                    lemma_fields_push(before, fs, m, e, Field::Model);
                    fs = fs.push(Field::Model);
                }
            },
            None => {},
        }
        assert(fs =~= start + field_if(m.icon is Some, Field::Icon) + field_if(m.created is Some, Field::Created) + field_if(m.model is Some, Field::Model));
        match &self.firmware {
            Some(v) => {
                let ghost before = d@;
                let e = (owned("firmware"), TomlValue::Text(v.clone()));
                d.push(e);
                proof {
                    lemma_fields_push(before, fs, m, e, Field::Firmware);
                    fs = fs.push(Field::Firmware);
                }
            },
            None => {},
        }
        assert(fs =~= start + field_if(m.icon is Some, Field::Icon) + field_if(m.created is Some, Field::Created) + field_if(m.model is Some, Field::Model) + field_if(m.firmware is Some, Field::Firmware));
        assert(fs =~= start + detail_fields(m));
    }

    fn push_tail(&self, d: &mut Document, Ghost(fs): Ghost<Seq<Field>>)
        requires
            fields_match(old(d)@, fs, *self),
        ensures
            fields_match(final(d)@, fs + tail_fields(*self), *self),
    {
        let ghost m = *self;
        let ghost start = fs;
        let ghost mut fs = fs;
        match &self.source {
            Some(v) => {
                let ghost before = d@;
                let e = (owned("source"), TomlValue::Text(v.clone()));
                d.push(e);
                proof {
                    lemma_fields_push(before, fs, m, e, Field::Source);
                    fs = fs.push(Field::Source);
                }
            },
            None => {},
        }
        assert(fs =~= start + field_if(m.source is Some, Field::Source));
        if self.tags.len() > 0 {
            let ghost before = d@;
            let e = (owned("tags"), text_array(&self.tags));
            d.push(e);
            proof {
                lemma_fields_push(before, fs, m, e, Field::Tags);
                fs = fs.push(Field::Tags);
            }
        }
        assert(fs =~= start + field_if(m.source is Some, Field::Source) + field_if(m.tags@.len() > 0, Field::Tags));
        if self.demos.len() > 0 {
            let mut a: Vec<TomlValue> = Vec::new();
            let mut i: usize = 0;
            while i < self.demos.len()
                invariant
                    i <= self.demos@.len(),
                    a@.len() == i,
                    forall|j: int| 0 <= j < i ==> #[trigger] demo_written(self.demos@[j], a@[j]),
                decreases self.demos@.len() - i,
            {
                a.push(demo_table(&self.demos[i]));
                i = i + 1;
            }
            let ghost before = d@;
            let e = (owned("demo"), TomlValue::Array(a));
            d.push(e);
            proof {
                lemma_fields_push(before, fs, m, e, Field::Demo);
                fs = fs.push(Field::Demo);
            }
        }
        assert(fs =~= start + tail_fields(m));
    }

    /// The document this `PatchMeta` is written as: the fields in declared
    /// order, an unset optional field or an empty list left out, unknown
    /// fields dropped.
    pub fn to_document(&self) -> (d: Document)
        ensures
            written_document(d@, *self),
    {
        let ghost m = *self;
        let ghost mut fs: Seq<Field> = seq![];
        let mut d: Document = Vec::new();
        assert(fields_match(d@, fs, m));
        let ghost before = d@;
        let e = (owned("name"), TomlValue::Text(self.name.clone()));
        d.push(e);
        proof {
            lemma_fields_push(before, fs, m, e, Field::Name);
            fs = fs.push(Field::Name);
        }
        let ghost before = d@;
        let e = (owned("author"), TomlValue::Text(self.author.clone()));
        d.push(e);
        proof {
            lemma_fields_push(before, fs, m, e, Field::Author);
            fs = fs.push(Field::Author);
        }
        let ghost before = d@;
        let e = (owned("version"), TomlValue::Integer(self.version as i64));
        d.push(e);
        proof {
            lemma_fields_push(before, fs, m, e, Field::Version);
            fs = fs.push(Field::Version);
        }
        let ghost before = d@;
        let e = (owned("about"), TomlValue::Text(self.about.clone()));
        d.push(e);
        proof {
            lemma_fields_push(before, fs, m, e, Field::About);
            fs = fs.push(Field::About);
        }
        let ghost before = d@;
        let e = (owned("licence"), TomlValue::Text(self.licence.clone()));
        d.push(e);
        proof {
            lemma_fields_push(before, fs, m, e, Field::Licence);
            fs = fs.push(Field::Licence);
        }
        assert(fs =~= seq![Field::Name, Field::Author, Field::Version, Field::About, Field::Licence]);
        self.push_lists(&mut d, Ghost(fs));
        let ghost fs = fs + list_fields(m);
        self.push_details(&mut d, Ghost(fs));
        let ghost fs = fs + detail_fields(m);
        self.push_tail(&mut d, Ghost(fs));
        let ghost fs = fs + tail_fields(m);
        assert(fs =~= written_fields(m));
        d
    }

    /// Serialises to TOML in the layout the repository uses.
    pub fn to_toml(&self) -> (r: Result<String, Error>)
        ensures
            exists|d: Document|
                written_document(d@, *self) && match #[trigger] toml_written(d) {
                    Ok(s) => r == Ok::<String, Error>(s),
                    Err(m) => r matches Err(Error::Toml { path, message }) && path@ == stem_of(
                        self.name@,
                        self.author@,
                    ) + ".toml"@ && message == m,
                },
    {
        let d = self.to_document();
        match write_toml(&d) {
            Ok(s) => Ok(s),
            Err(message) => {
                let mut path = self.stem();
                push_str(&mut path, ".toml");
                Err(Error::Toml { path, message })
            },
        }
    }
}

/// Different fields are written under different keys.
proof fn lemma_field_keys_distinct(a: Field, b: Field)
    ensures
        field_key(a) == field_key(b) ==> a == b,
{
    reveal_strlit("name");
    reveal_strlit("author");
    reveal_strlit("version");
    reveal_strlit("about");
    reveal_strlit("licence");
    reveal_strlit("genre");
    reveal_strlit("mood");
    reveal_strlit("timbre");
    reveal_strlit("role");
    reveal_strlit("icon");
    reveal_strlit("created");
    reveal_strlit("model");
    reveal_strlit("firmware");
    reveal_strlit("source");
    reveal_strlit("tags");
    reveal_strlit("demo");
    if field_key(a) == field_key(b) && a != b {
        assert(field_key(a).len() == field_key(b).len());
        assert(field_key(a)[0] == field_key(b)[0]);
        assert(field_key(a)[1] == field_key(b)[1]);
        assert(field_key(a)[field_key(a).len() - 1] == field_key(b)[field_key(b).len() - 1]);
    }
}

/// What a document of written fields holds under a field's key: that
/// field's value where it was written, nothing where it was not.
proof fn lemma_lookup_fields(d: Seq<(String, TomlValue)>, fs: Seq<Field>, m: PatchMeta, f: Field)
    requires
        fields_match(d, fs, m),
    ensures
        fs.contains(f) ==> (lookup(d, field_key(f)) matches Some(v) && field_value(m, f, v)),
        !fs.contains(f) ==> lookup(d, field_key(f)) is None,
    decreases d.len(),
{
    if d.len() > 0 {
        assert(entry_ok(m, fs[0], d[0]));
        lemma_field_keys_distinct(fs[0], f);
        let d2 = d.drop_first();
        let fs2 = fs.drop_first();
        assert(fields_match(d2, fs2, m)) by {
            assert forall|i: int| 0 <= i < d2.len() implies #[trigger] entry_ok(m, fs2[i], d2[i]) by {
                assert(entry_ok(m, fs[i + 1], d[i + 1]));
            }
        }
        lemma_lookup_fields(d2, fs2, m, f);
        if fs[0] != f {
            assert(fs.contains(f) ==> fs2.contains(f)) by {
                if fs.contains(f) {
                    let i = choose|i: int| 0 <= i < fs.len() && fs[i] == f;
                    assert(fs2[i - 1] == f);
                }
            }
            assert(fs2.contains(f) ==> fs.contains(f)) by {
                if fs2.contains(f) {
                    let i = choose|i: int| 0 <= i < fs2.len() && fs2[i] == f;
                    assert(fs[i + 1] == f);
                }
            }
        } else {
            assert(fs.contains(f)) by {
                assert(fs[0] == f);
            }
        }
    } else {
        assert(!fs.contains(f));
    }
}

/// Whether a field of `m` is written: the five required ones always, each
/// other one when it is set or, for a list, not empty.
pub open spec fn is_written(m: PatchMeta, f: Field) -> bool {
    match f {
        Field::Genre => m.genre@.len() > 0,
        Field::Mood => m.mood@.len() > 0,
        Field::Timbre => m.timbre@.len() > 0,
        Field::Role => m.role@.len() > 0,
        Field::Icon => m.icon is Some,
        Field::Created => m.created is Some,
        Field::Model => m.model is Some,
        Field::Firmware => m.firmware is Some,
        Field::Source => m.source is Some,
        Field::Tags => m.tags@.len() > 0,
        Field::Demo => m.demos@.len() > 0,
        _ => true,
    }
}

proof fn lemma_field_if(c: bool, g: Field, f: Field)
    ensures
        field_if(c, g).contains(f) <==> (c && g == f),
{
    if c {
        assert(field_if(c, g)[0] == g);
        if field_if(c, g).contains(f) {
            let i = choose|i: int| 0 <= i < field_if(c, g).len() && field_if(c, g)[i] == f;
            assert(i == 0);
        }
    }
}

proof fn lemma_four(a: Seq<Field>, b: Seq<Field>, c: Seq<Field>, e: Seq<Field>, f: Field)
    ensures
        (a + b + c + e).contains(f) <==> a.contains(f) || b.contains(f) || c.contains(f) || e.contains(f),
{
    vstd::seq_lib::lemma_seq_concat_contains_all_elements(a + b + c, e, f);
    vstd::seq_lib::lemma_seq_concat_contains_all_elements(a + b, c, f);
    vstd::seq_lib::lemma_seq_concat_contains_all_elements(a, b, f);
}

proof fn lemma_list_fields(m: PatchMeta, f: Field)
    ensures
        list_fields(m).contains(f) <==> (f == Field::Genre || f == Field::Mood || f == Field::Timbre || f == Field::Role)
            && is_written(m, f),
{
    lemma_field_if(m.genre@.len() > 0, Field::Genre, f);
    lemma_field_if(m.mood@.len() > 0, Field::Mood, f);
    lemma_field_if(m.timbre@.len() > 0, Field::Timbre, f);
    lemma_field_if(m.role@.len() > 0, Field::Role, f);
    lemma_four(
        field_if(m.genre@.len() > 0, Field::Genre),
        field_if(m.mood@.len() > 0, Field::Mood),
        field_if(m.timbre@.len() > 0, Field::Timbre),
        field_if(m.role@.len() > 0, Field::Role),
        f,
    );
}

proof fn lemma_detail_fields(m: PatchMeta, f: Field)
    ensures
        detail_fields(m).contains(f) <==> (f == Field::Icon || f == Field::Created || f == Field::Model || f
            == Field::Firmware) && is_written(m, f),
{
    lemma_field_if(m.icon is Some, Field::Icon, f);
    lemma_field_if(m.created is Some, Field::Created, f);
    lemma_field_if(m.model is Some, Field::Model, f);
    lemma_field_if(m.firmware is Some, Field::Firmware, f);
    lemma_four(
        field_if(m.icon is Some, Field::Icon),
        field_if(m.created is Some, Field::Created),
        field_if(m.model is Some, Field::Model),
        field_if(m.firmware is Some, Field::Firmware),
        f,
    );
}

proof fn lemma_tail_fields(m: PatchMeta, f: Field)
    ensures
        tail_fields(m).contains(f) <==> (f == Field::Source || f == Field::Tags || f == Field::Demo) && is_written(m, f),
{
    lemma_field_if(m.source is Some, Field::Source, f);
    lemma_field_if(m.tags@.len() > 0, Field::Tags, f);
    lemma_field_if(m.demos@.len() > 0, Field::Demo, f);
    vstd::seq_lib::lemma_seq_concat_contains_all_elements(
        field_if(m.source is Some, Field::Source) + field_if(m.tags@.len() > 0, Field::Tags),
        field_if(m.demos@.len() > 0, Field::Demo),
        f,
    );
    vstd::seq_lib::lemma_seq_concat_contains_all_elements(
        field_if(m.source is Some, Field::Source),
        field_if(m.tags@.len() > 0, Field::Tags),
        f,
    );
}

/// The written fields are exactly those [`is_written`] names.
proof fn lemma_written_fields(m: PatchMeta, f: Field)
    ensures
        written_fields(m).contains(f) <==> is_written(m, f),
{
    let head = seq![Field::Name, Field::Author, Field::Version, Field::About, Field::Licence];
    assert(head.contains(f) <==> (f == Field::Name || f == Field::Author || f == Field::Version || f == Field::About
        || f == Field::Licence)) by {
        if f == Field::Name { assert(head[0] == f); }
        if f == Field::Author { assert(head[1] == f); }
        if f == Field::Version { assert(head[2] == f); }
        if f == Field::About { assert(head[3] == f); }
        if f == Field::Licence { assert(head[4] == f); }
    }
    lemma_list_fields(m, f);
    lemma_detail_fields(m, f);
    lemma_tail_fields(m, f);
    lemma_four(head, list_fields(m), detail_fields(m), tail_fields(m), f);
}

/// What a written document holds under one field's key.
proof fn lemma_written_at(m: PatchMeta, d: Seq<(String, TomlValue)>, f: Field)
    requires
        written_document(d, m),
    ensures
        is_written(m, f) ==> (lookup(d, field_key(f)) matches Some(v) && field_value(m, f, v)),
        !is_written(m, f) ==> lookup(d, field_key(f)) is None,
{
    lemma_written_fields(m, f);
    lemma_lookup_fields(d, written_fields(m), m, f);
}

/// Every key a written document holds is a field's.
proof fn lemma_no_unknown(d: Seq<(String, TomlValue)>, fs: Seq<Field>, m: PatchMeta)
    requires
        fields_match(d, fs, m),
    ensures
        unknown_entries(d) == Seq::<(String, TomlValue)>::empty(),
    decreases d.len(),
{
    if d.len() > 0 {
        assert(entry_ok(m, fs[0], d[0]));
        let d2 = d.drop_first();
        let fs2 = fs.drop_first();
        assert(fields_match(d2, fs2, m)) by {
            assert forall|i: int| 0 <= i < d2.len() implies #[trigger] entry_ok(m, fs2[i], d2[i]) by {
                assert(entry_ok(m, fs[i + 1], d[i + 1]));
            }
        }
        lemma_no_unknown(d2, fs2, m);
        assert(is_meta_key(field_key(fs[0])));
    }
}

/// A demo table as written reads back as the demo, and has nothing wrong
/// with it.
proof fn lemma_demo_table(demo: Demo, v: TomlValue)
    requires
        demo_written(demo, v),
    ensures
        demo_problem(v) is None,
        v matches TomlValue::Table(t) && opt_text_at(t@, "variant"@) == opt_view(demo.variant) && opt_text_at(
            t@,
            "about"@,
        ) == opt_view(demo.about),
{
    reveal_strlit("variant");
    reveal_strlit("about");
    let t = v->Table_0@;
    assert("variant"@ != "about"@) by {
        assert("variant"@.len() != "about"@.len());
    }
    let t1 = t.drop_first();
    let t2 = t1.drop_first();
    if t.len() == 0 {
        assert(demo_entries_problem(t) is None);
        assert(lookup(t, "variant"@) is None);
        assert(lookup(t, "about"@) is None);
    } else if t.len() == 1 {
        assert(t1.len() == 0);
        assert(demo_entries_problem(t1) is None);
        assert(demo_entry_problem(t[0]) is None);
        assert(demo_entries_problem(t) is None);
        assert(lookup(t1, "variant"@) is None);
        assert(lookup(t1, "about"@) is None);
    } else {
        assert(t1.len() == 1 && t1[0] == t[1]);
        assert(t2.len() == 0);
        assert(demo_entries_problem(t2) is None);
        assert(demo_entry_problem(t1[0]) is None);
        assert(demo_entries_problem(t1) is None);
        assert(demo_entry_problem(t[0]) is None);
        assert(demo_entries_problem(t) is None);
        assert(lookup(t2, "about"@) is None);
        assert(lookup(t1, "about"@) == Some(t[1].1));
        assert(lookup(t, "about"@) == Some(t[1].1));
    }
}

proof fn lemma_demos_ok(a: Seq<TomlValue>, demos: Seq<Demo>)
    requires
        a.len() == demos.len(),
        forall|i: int| 0 <= i < a.len() ==> #[trigger] demo_written(demos[i], a[i]),
    ensures
        demos_problem(a) is None,
    decreases a.len(),
{
    if a.len() > 0 {
        lemma_demo_table(demos[0], a[0]);
        assert forall|i: int| 0 <= i < a.drop_first().len() implies #[trigger] demo_written(
            demos.drop_first()[i],
            a.drop_first()[i],
        ) by {
            assert(demo_written(demos[i + 1], a[i + 1]));
        }
        lemma_demos_ok(a.drop_first(), demos.drop_first());
    }
}

/// Whether two metadata hold the same fields, text by text.
pub open spec fn same_meta(a: PatchMeta, b: PatchMeta) -> bool {
    &&& a.name@ == b.name@
    &&& a.author@ == b.author@
    &&& a.version == b.version
    &&& a.about@ == b.about@
    &&& a.licence@ == b.licence@
    &&& texts(a.genre@) == texts(b.genre@)
    &&& texts(a.mood@) == texts(b.mood@)
    &&& texts(a.timbre@) == texts(b.timbre@)
    &&& texts(a.role@) == texts(b.role@)
    &&& match (a.icon, b.icon) {
        (Some(x), Some(y)) => x.bits() == y.bits(),
        (None, None) => true,
        _ => false,
    }
    &&& opt_view(a.created) == opt_view(b.created)
    &&& opt_view(a.model) == opt_view(b.model)
    &&& opt_view(a.firmware) == opt_view(b.firmware)
    &&& opt_view(a.source) == opt_view(b.source)
    &&& texts(a.tags@) == texts(b.tags@)
    &&& a.demos@.len() == b.demos@.len()
    &&& forall|i: int|
        0 <= i < a.demos@.len() ==> opt_view(#[trigger] a.demos@[i].variant) == opt_view(b.demos@[i].variant)
            && opt_view(a.demos@[i].about) == opt_view(b.demos@[i].about)
    &&& a.unknown@ == b.unknown@
}

/// Whether an icon's rows are seven pixels wide, as every icon read from
/// text is.
pub open spec fn narrow_icon(icon: Option<Icon>) -> bool {
    icon matches Some(i) ==> forall|y: int| 0 <= y < 7 ==> i.bits()[y] < 128
}

/// The document a patch's metadata is written as has nothing wrong with it.
pub proof fn lemma_written_is_valid(m: PatchMeta, d: Seq<(String, TomlValue)>)
    requires
        written_document(d, m),
        narrow_icon(m.icon),
    ensures
        meta_problem(d) is None,
{
    lemma_written_at(m, d, Field::Name);
    lemma_written_at(m, d, Field::Author);
    lemma_written_at(m, d, Field::Version);
    lemma_written_at(m, d, Field::About);
    lemma_written_at(m, d, Field::Licence);
    lemma_written_at(m, d, Field::Genre);
    lemma_written_at(m, d, Field::Mood);
    lemma_written_at(m, d, Field::Timbre);
    lemma_written_at(m, d, Field::Role);
    lemma_written_at(m, d, Field::Icon);
    lemma_written_at(m, d, Field::Created);
    lemma_written_at(m, d, Field::Model);
    lemma_written_at(m, d, Field::Firmware);
    lemma_written_at(m, d, Field::Source);
    lemma_written_at(m, d, Field::Tags);
    lemma_written_at(m, d, Field::Demo);
    if m.icon is Some {
        let i = m.icon->Some_0;
        i.lemma_seven_rows();
        crate::icon::lemma_print_then_parse(i.bits());
        let v = lookup(d, "icon"@)->Some_0;
        assert(list_of(Some(v)) == Seq::new(7, |y: int| crate::icon::row_text(i.bits()[y])));
    }
    if m.demos@.len() > 0 {
        let v = lookup(d, "demo"@)->Some_0;
        lemma_demos_ok(v->Array_0@, m.demos@);
    }
}

/// Metadata written as a document and read back is the same metadata, for
/// metadata with no unknown fields (which are never written).
pub proof fn lemma_written_reads_back(m: PatchMeta, d: Seq<(String, TomlValue)>, back: PatchMeta)
    requires
        written_document(d, m),
        narrow_icon(m.icon),
        m.unknown@.len() == 0,
        meta_of(back, d),
    ensures
        same_meta(back, m),
{
    lemma_written_at(m, d, Field::Name);
    lemma_written_at(m, d, Field::Author);
    lemma_written_at(m, d, Field::Version);
    lemma_written_at(m, d, Field::About);
    lemma_written_at(m, d, Field::Licence);
    lemma_written_at(m, d, Field::Genre);
    lemma_written_at(m, d, Field::Mood);
    lemma_written_at(m, d, Field::Timbre);
    lemma_written_at(m, d, Field::Role);
    lemma_written_at(m, d, Field::Icon);
    lemma_written_at(m, d, Field::Created);
    lemma_written_at(m, d, Field::Model);
    lemma_written_at(m, d, Field::Firmware);
    lemma_written_at(m, d, Field::Source);
    lemma_written_at(m, d, Field::Tags);
    lemma_written_at(m, d, Field::Demo);
    lemma_no_unknown(d, written_fields(m), m);
    assert(back.unknown@ =~= m.unknown@);
    if m.genre@.len() == 0 { assert(texts(m.genre@) =~= seq![]); }
    if m.mood@.len() == 0 { assert(texts(m.mood@) =~= seq![]); }
    if m.timbre@.len() == 0 { assert(texts(m.timbre@) =~= seq![]); }
    if m.role@.len() == 0 { assert(texts(m.role@) =~= seq![]); }
    if m.tags@.len() == 0 { assert(texts(m.tags@) =~= seq![]); }
    if m.icon is Some {
        let i = m.icon->Some_0;
        i.lemma_seven_rows();
        crate::icon::lemma_print_then_parse(i.bits());
        let v = lookup(d, "icon"@)->Some_0;
        assert(list_of(Some(v)) == Seq::new(7, |y: int| crate::icon::row_text(i.bits()[y])));
    }
    if m.demos@.len() > 0 {
        let v = lookup(d, "demo"@)->Some_0;
        let a = v->Array_0@;
        assert forall|i: int| 0 <= i < back.demos@.len() implies opt_view(#[trigger] back.demos@[i].variant) == opt_view(
            m.demos@[i].variant,
        ) && opt_view(back.demos@[i].about) == opt_view(m.demos@[i].about) by {
            assert(demo_written(m.demos@[i], a[i]));
            assert(demo_of(back.demos@[i], a[i]));
            lemma_demo_table(m.demos@[i], a[i]);
        }
    }
}

} // verus!
