//! The generated `index.toml`, and the URLs its files are fetched from.

use vstd::prelude::*;

use crate::category::{name_of, Category};
use crate::error::Error;
use crate::fingerprint::Fingerprint;
use crate::icon::Icon;
use crate::library::{demo_path_of, icon_under, Icons, Library, Palette, Patch};
use crate::meta::{demo_stem_of_variant, opt_view, Demo};
use crate::taxonomy::{Taxonomy, Term};
use crate::text::{
    chars_of, hex_digit_upper, join, owned, push_char, push_str, split, split_chars, str_eq, string_of,
    texts, trim, views, join_strings, char_of_ascii,
};
use crate::version::LibraryVersion;

verus! {

/// Whether a byte is kept as it is in a URL path segment: an ASCII letter or
/// digit, or one of `-_.~`.
pub open spec fn url_safe(b: u8) -> bool {
    (48 <= b <= 57) || (65 <= b <= 90) || (97 <= b <= 122) || b == 45 || b == 95 || b == 46 || b
        == 126
}

/// Bytes written for a URL path: safe bytes as they are, every other byte as
/// `%` and two uppercase hex digits.
pub open spec fn percent_bytes(bs: Seq<u8>) -> Seq<char>
    decreases bs.len(),
{
    if bs.len() == 0 {
        seq![]
    } else if url_safe(bs.last()) {
        percent_bytes(bs.drop_last()).push((bs.last() as u32) as char)
    } else {
        percent_bytes(bs.drop_last()) + seq![
            '%',
            hex_digit_upper((bs.last() / 16) as nat),
            hex_digit_upper((bs.last() % 16) as nat),
        ]
    }
}

/// One path segment, percent-encoded byte by byte of its UTF-8.
pub open spec fn percent_encoded(segment: Seq<char>) -> Seq<char> {
    percent_bytes(vstd::utf8::encode_utf8(segment))
}

fn hex_upper(d: u8) -> (c: char)
    requires
        d < 16,
    ensures
        c == hex_digit_upper(d as nat),
{
    if d < 10 {
        char_of_ascii(48 + d)
    } else {
        char_of_ascii(55 + d)
    }
}

/// Percent-encodes one path segment.
pub fn percent_encode(segment: &str) -> (out: String)
    ensures
        out@ == percent_encoded(segment@),
{
    let bytes = segment.as_bytes();
    let mut out = String::new();
    let mut i: usize = 0;
    while i < bytes.len()
        invariant
            i <= bytes@.len(),
            bytes@ == vstd::utf8::encode_utf8(segment@),
            out@ == percent_bytes(bytes@.take(i as int)),
        decreases bytes@.len() - i,
    {
        assert(bytes@.take(i + 1).drop_last() == bytes@.take(i as int));
        let b = bytes[i];
        if (48 <= b && b <= 57) || (65 <= b && b <= 90) || (97 <= b && b <= 122) || b == 45 || b
            == 95 || b == 46 || b == 126 {
            push_char(&mut out, char_of_ascii(b));
        } else {
            push_char(&mut out, '%');
            push_char(&mut out, hex_upper(b / 16));
            push_char(&mut out, hex_upper(b % 16));
        }
        i = i + 1;
    }
    assert(bytes@.take(bytes@.len() as int) == bytes@);
    out
}

/// `https://raw.githubusercontent.com/<owner/repo>/<commit>/<file>`, each
/// `/`-separated piece of the file percent-encoded.
pub open spec fn raw_url_of(owner_repo: Seq<char>, commit: Seq<char>, file: Seq<char>) -> Seq<
    char,
> {
    "https://raw.githubusercontent.com/"@ + owner_repo + "/"@ + commit + "/"@ + join(
        split(file, '/').map_values(|p: Seq<char>| percent_encoded(p)),
        "/"@,
    )
}

/// `https://raw.githubusercontent.com/<owner/repo>/<commit>/<file>`, with the
/// path percent-encoded.
pub fn raw_url(owner_repo: &str, commit: &str, file: &str) -> (url: String)
    ensures
        url@ == raw_url_of(owner_repo@, commit@, file@),
{
    let chars = chars_of(file);
    let parts = split_chars(chars.as_slice(), '/');
    let mut encoded: Vec<String> = Vec::new();
    let mut i: usize = 0;
    while i < parts.len()
        invariant
            i <= parts@.len(),
            views(parts@) == split(file@, '/'),
            texts(encoded@) == views(parts@).take(i as int).map_values(
                |p: Seq<char>| percent_encoded(p),
            ),
        decreases parts@.len() - i,
    {
        let piece = string_of(parts[i].as_slice());
        let e = percent_encode(piece.as_str());
        let ghost before = encoded@;
        encoded.push(e);
        assert(views(parts@)[i as int] == parts@[i as int]@);
        assert(texts(encoded@) =~= texts(before).push(e@));
        assert(views(parts@).take(i + 1).map_values(|p: Seq<char>| percent_encoded(p))
            =~= views(parts@).take(i as int).map_values(|p: Seq<char>| percent_encoded(p)).push(
            percent_encoded(parts@[i as int]@),
        ));
        i = i + 1;
    }
    assert(views(parts@).take(parts@.len() as int) == views(parts@));
    let path = join_strings(encoded.as_slice(), "/");
    let mut url = owned("https://raw.githubusercontent.com/");
    push_str(&mut url, owner_repo);
    push_str(&mut url, "/");
    push_str(&mut url, commit);
    push_str(&mut url, "/");
    push_str(&mut url, path.as_str());
    url
}

/// What the index was built from.
#[derive(Debug, Clone, PartialEq, Eq)]
pub struct Catalogue {
    /// Layout of this file. A reader refuses a number above
    /// [`crate::INDEX_SCHEMA`].
    pub schema: u32,
    /// The library version this index describes.
    pub version: LibraryVersion,
    /// The commit every `file` path is valid at.
    pub commit: String,
    /// When it was built, RFC 3339 in UTC.
    pub built: String,
    /// How many patches follow.
    pub patches: usize,
}

/// One version a patch has had, and the sound it was.
#[derive(Debug, Clone, Copy, PartialEq, Eq)]
pub struct HistoryEntry {
    /// The `version` field at that time.
    pub version: u32,
    /// The fingerprint at that version.
    pub fingerprint: Fingerprint,
}

/// One demo, with the file resolved.
#[derive(Debug, Clone, PartialEq, Eq)]
pub struct IndexDemo {
    /// Path relative to the repository root.
    pub file: String,
    /// The variant label, absent on the default demo.
    pub variant: Option<String>,
    /// How it was played.
    pub about: Option<String>,
}

/// One patch as the index describes it.
#[derive(Debug, Clone, PartialEq)]
pub struct IndexPatch {
    /// `bass/acid-growl-nyx`.
    pub id: String,
    /// The stored name.
    pub name: String,
    /// Who made it.
    pub author: String,
    /// Current version of the sound.
    pub version: u32,
    /// What it sounds like.
    pub about: String,
    /// The folder and the program byte.
    pub category: Category,
    /// The collection folder, if any.
    pub collection: Option<String>,
    /// The `.syx` path relative to the repository root.
    pub file: String,
    /// SHA-256 of the file, hex.
    pub sha256: String,
    /// Identity of the sound at this version.
    pub fingerprint: Fingerprint,
    /// The licence text the author wrote.
    pub licence: String,
    /// Vocabulary terms.
    pub genre: Vec<String>,
    /// Vocabulary terms.
    pub mood: Vec<String>,
    /// Vocabulary terms.
    pub timbre: Vec<String>,
    /// Vocabulary terms.
    pub role: Vec<String>,
    /// Free text.
    pub tags: Vec<String>,
    /// The icon to draw: the patch's own or its category's.
    pub icon: Icon,
    /// Whether `icon` is the patch's own rather than the category fallback.
    pub own_icon: bool,
    /// When it was made, a TOML date as written.
    pub created: Option<String>,
    /// Which instrument it was voiced on.
    pub model: Option<String>,
    /// Firmware it was checked on.
    pub firmware: Option<String>,
    /// Where it came from.
    pub source: Option<String>,
    /// Demos, default first.
    pub demos: Vec<IndexDemo>,
    /// `Insert`, `Send` or `Bypass`.
    pub fx_mode: String,
    /// Effect algorithms in engine order, empty when bypassed.
    pub effects: Vec<String>,
    /// Arpeggiator on.
    pub arp: bool,
    /// Arpeggiator mode, when on.
    pub arp_mode: Option<String>,
    /// Polyphony mode label.
    pub polyphony: String,
    /// Voices per note.
    pub unison: u8,
    /// Modulation routings in use.
    pub routings: u8,
    /// Control sequencer enabled.
    pub sequencer: bool,
    /// Transpose in semitones.
    pub transpose: i8,
    /// Every version this patch has had, oldest first, current last.
    pub history: Vec<HistoryEntry>,
}

/// The whole file.
#[derive(Debug, PartialEq)]
pub struct Index {
    /// Provenance.
    pub catalogue: Catalogue,
    /// The vocabularies, so a reader needs no second file.
    pub taxonomy: Taxonomy,
    /// Category and badge icons.
    pub icons: Icons,
    /// Named colours, empty when the checkout has none.
    pub palette: Palette,
    /// Every patch, sorted by id.
    pub patches: Vec<IndexPatch>,
}

/// What a fingerprint lookup found.
#[derive(Debug, Clone, Copy)]
pub struct Match<'a> {
    /// The patch.
    pub patch: &'a IndexPatch,
    /// The version whose fingerprint matched.
    pub version: u32,
    /// Whether that is the patch's current version.
    pub latest: bool,
}

/// The earlier versions a history map holds for an id: the first entry
/// with it, or none.
pub open spec fn history_for(history: Seq<(String, Vec<HistoryEntry>)>, id: Seq<char>) -> Seq<HistoryEntry>
    decreases history.len(),
{
    if history.len() == 0 {
        seq![]
    } else if history[0].0@ == id {
        history[0].1@
    } else {
        history_for(history.drop_first(), id)
    }
}

/// The entries of a history older than a version, in order.
pub open spec fn older_than(h: Seq<HistoryEntry>, version: u32) -> Seq<HistoryEntry>
    decreases h.len(),
{
    if h.len() == 0 {
        seq![]
    } else if h.last().version < version {
        older_than(h.drop_last(), version).push(h.last())
    } else {
        older_than(h.drop_last(), version)
    }
}

/// Text with every `\` written as `/`.
pub open spec fn forward_slashes(s: Seq<char>) -> Seq<char> {
    s.map_values(|c: char| if c == '\\' { '/' } else { c })
}

/// Whether a demo entry is the one a patch's demo gives.
pub open spec fn index_demo_of(e: IndexDemo, p: Patch, d: Demo) -> bool {
    &&& e.file@ == forward_slashes(
        demo_path_of(name_of(p.category), opt_view(p.collection), demo_stem_of_variant(p.meta, d) + ".mp3"@),
    )
    &&& opt_view(e.variant) == opt_view(d.variant)
    &&& opt_view(e.about) == opt_view(d.about)
}

/// The icon a library shows for a patch: its own, else its category's,
/// else blank.
pub open spec fn shown_icon(lib: Library, p: Patch) -> Seq<u8> {
    match p.meta.icon {
        Some(i) => i.bits(),
        None => match icon_under(lib.category_icons(), name_of(p.category)) {
            Some(i) => i.bits(),
            None => seq![0u8, 0, 0, 0, 0, 0, 0],
        },
    }
}

/// Whether an index entry is what a library patch gives, with its earlier
/// versions from a history map.
pub open spec fn index_patch_of(e: IndexPatch, lib: Library, p: Patch, history: Seq<(String, Vec<HistoryEntry>)>) -> bool {
    let m = p.meta;
    let d = p.derived;
    &&& e.id@ == p.id@
    &&& e.name@ == m.name@
    &&& e.author@ == m.author@
    &&& e.version == m.version
    &&& e.about@ == trim(m.about@)
    &&& e.category == p.category
    &&& opt_view(e.collection) == opt_view(p.collection)
    &&& e.file@ == forward_slashes(p.syx_path@)
    &&& e.sha256@ == p.sha256@
    &&& e.fingerprint == p.fingerprint
    &&& e.licence@ == m.licence@
    &&& texts(e.genre@) == texts(m.genre@)
    &&& texts(e.mood@) == texts(m.mood@)
    &&& texts(e.timbre@) == texts(m.timbre@)
    &&& texts(e.role@) == texts(m.role@)
    &&& texts(e.tags@) == texts(m.tags@)
    &&& e.icon.bits() == shown_icon(lib, p)
    &&& e.own_icon == m.icon is Some
    &&& opt_view(e.created) == opt_view(m.created)
    &&& opt_view(e.model) == opt_view(m.model)
    &&& opt_view(e.firmware) == opt_view(m.firmware)
    &&& opt_view(e.source) == opt_view(m.source)
    &&& e.demos@.len() == m.demos@.len()
    &&& forall|i: int| 0 <= i < e.demos@.len() ==> #[trigger] index_demo_of(e.demos@[i], p, m.demos@[i])
    &&& e.fx_mode@ == d.fx_mode@
    &&& texts(e.effects@) == texts(d.effects@)
    &&& e.arp == d.arp
    &&& opt_view(e.arp_mode) == opt_view(d.arp_mode)
    &&& e.polyphony@ == d.polyphony@
    &&& e.unison == d.unison
    &&& e.routings == d.routings
    &&& e.sequencer == d.sequencer
    &&& e.transpose == d.transpose
    &&& e.history@ == older_than(history_for(history, p.id@), m.version).push(
        HistoryEntry { version: m.version, fingerprint: p.fingerprint },
    )
}

/// Whether two term lists hold the same terms and descriptions.
pub open spec fn same_terms(a: Seq<Term>, b: Seq<Term>) -> bool {
    a.len() == b.len() && forall|i: int| 0 <= i < a.len() ==> #[trigger] a[i].term@ == b[i].term@ && a[i].about@ == b[i].about@
}

/// Whether two taxonomies hold the same terms.
pub open spec fn same_taxonomy(a: Taxonomy, b: Taxonomy) -> bool {
    same_terms(a.genre@, b.genre@) && same_terms(a.mood@, b.mood@) && same_terms(a.timbre@, b.timbre@)
        && same_terms(a.role@, b.role@)
}

/// Whether two icon lists hold the same names and pictures.
pub open spec fn same_icons(a: Seq<(String, Icon)>, b: Seq<(String, Icon)>) -> bool {
    a.len() == b.len() && forall|i: int| 0 <= i < a.len() ==> #[trigger] a[i].0@ == b[i].0@ && a[i].1 == b[i].1
}

/// Whether two palettes hold the same groups and colours.
pub open spec fn same_palette(a: Seq<(String, Vec<(String, String)>)>, b: Seq<(String, Vec<(String, String)>)>) -> bool {
    a.len() == b.len() && forall|i: int| 0 <= i < a.len() ==> #[trigger] a[i].0@ == b[i].0@ && a[i].1@.len() == b[i].1@.len()
        && forall|j: int| 0 <= j < a[i].1@.len() ==> (#[trigger] a[i].1@[j]).0@ == b[i].1@[j].0@ && a[i].1@[j].1@ == b[i].1@[j].1@
}

/// A copy of some strings.
pub fn copy_texts(v: &Vec<String>) -> (r: Vec<String>)
    ensures
        texts(r@) == texts(v@),
{
    let mut out: Vec<String> = Vec::new();
    let mut i: usize = 0;
    while i < v.len()
        invariant
            i <= v@.len(),
            texts(out@) == texts(v@.take(i as int)),
        decreases v@.len() - i,
    {
        let ghost before = out@;
        out.push(owned(v[i].as_str()));
        assert(texts(out@) =~= texts(before).push(v@[i as int]@));
        assert(texts(v@.take(i + 1)) =~= texts(v@.take(i as int)).push(v@[i as int]@));
        i = i + 1;
    }
    assert(v@.take(v@.len() as int) =~= v@);
    out
}

fn copy_opt(o: &Option<String>) -> (r: Option<String>)
    ensures
        opt_view(r) == opt_view(*o),
{
    match o {
        Some(s) => Some(owned(s.as_str())),
        None => None,
    }
}

fn copy_terms(v: &Vec<Term>) -> (r: Vec<Term>)
    ensures
        same_terms(r@, v@),
{
    let mut out: Vec<Term> = Vec::new();
    let mut i: usize = 0;
    while i < v.len()
        invariant
            i <= v@.len(),
            out@.len() == i,
            forall|j: int| 0 <= j < i ==> #[trigger] out@[j].term@ == v@[j].term@ && out@[j].about@ == v@[j].about@,
        decreases v@.len() - i,
    {
        out.push(Term { term: owned(v[i].term.as_str()), about: owned(v[i].about.as_str()) });
        i = i + 1;
    }
    out
}

/// A copy of a taxonomy.
pub fn copy_taxonomy(t: &Taxonomy) -> (r: Taxonomy)
    ensures
        same_taxonomy(r, *t),
{
    Taxonomy {
        genre: copy_terms(&t.genre),
        mood: copy_terms(&t.mood),
        timbre: copy_terms(&t.timbre),
        role: copy_terms(&t.role),
    }
}

fn copy_icon_list(v: &Vec<(String, Icon)>) -> (r: Vec<(String, Icon)>)
    ensures
        same_icons(r@, v@),
{
    let mut out: Vec<(String, Icon)> = Vec::new();
    let mut i: usize = 0;
    while i < v.len()
        invariant
            i <= v@.len(),
            out@.len() == i,
            forall|j: int| 0 <= j < i ==> #[trigger] out@[j].0@ == v@[j].0@ && out@[j].1 == v@[j].1,
        decreases v@.len() - i,
    {
        out.push((owned(v[i].0.as_str()), v[i].1));
        i = i + 1;
    }
    out
}

/// A copy of a palette.
pub fn copy_palette(p: &Palette) -> (r: Palette)
    ensures
        same_palette(r@, p@),
{
    let mut out: Palette = Vec::new();
    let mut i: usize = 0;
    while i < p.len()
        invariant
            i <= p@.len(),
            out@.len() == i,
            forall|k: int| 0 <= k < i ==> #[trigger] out@[k].0@ == p@[k].0@ && out@[k].1@.len() == p@[k].1@.len()
                && forall|j: int| 0 <= j < out@[k].1@.len() ==> (#[trigger] out@[k].1@[j]).0@ == p@[k].1@[j].0@ && out@[k].1@[j].1@ == p@[k].1@[j].1@,
        decreases p@.len() - i,
    {
        let group = &p[i].1;
        let mut g: Vec<(String, String)> = Vec::new();
        let mut j: usize = 0;
        while j < group.len()
            invariant
                j <= group@.len(),
                g@.len() == j,
                forall|q: int| 0 <= q < j ==> (#[trigger] g@[q]).0@ == group@[q].0@ && g@[q].1@ == group@[q].1@,
            decreases group@.len() - j,
        {
            g.push((owned(group[j].0.as_str()), owned(group[j].1.as_str())));
            j = j + 1;
        }
        out.push((owned(p[i].0.as_str()), g));
        i = i + 1;
    }
    out
}

fn slashes(s: &str) -> (r: String)
    ensures
        r@ == forward_slashes(s@),
{
    let chars = chars_of(s);
    let mut out = String::new();
    let mut i: usize = 0;
    while i < chars.len()
        invariant
            i <= chars@.len(),
            chars@ == s@,
            out@ == forward_slashes(chars@.take(i as int)),
        decreases chars@.len() - i,
    {
        let c = chars[i];
        push_char(&mut out, if c == '\\' { '/' } else { c });
        assert(forward_slashes(chars@.take(i + 1)) =~= forward_slashes(chars@.take(i as int)).push(
            if c == '\\' { '/' } else { c },
        ));
        i = i + 1;
    }
    assert(chars@.take(chars@.len() as int) =~= chars@);
    out
}

fn history_lookup<'a>(history: &'a Vec<(String, Vec<HistoryEntry>)>, id: &str) -> (r: Option<&'a Vec<HistoryEntry>>)
    ensures
        match r {
            Some(v) => v@ == history_for(history@, id@),
            None => history_for(history@, id@) == Seq::<HistoryEntry>::empty(),
        },
{
    let mut i: usize = 0;
    assert(history@.skip(0) =~= history@);
    while i < history.len()
        invariant
            i <= history@.len(),
            history_for(history@, id@) == history_for(history@.skip(i as int), id@),
        decreases history@.len() - i,
    {
        assert(history@.skip(i as int).drop_first() =~= history@.skip(i + 1));
        assert(history@.skip(i as int)[0] == history@[i as int]);
        if str_eq(history[i].0.as_str(), id) {
            return Some(&history[i].1);
        }
        i = i + 1;
    }
    None
}

fn index_patch(library: &Library, patch: &Patch, history: &Vec<(String, Vec<HistoryEntry>)>) -> (r: IndexPatch)
    ensures
        index_patch_of(r, *library, *patch, history@),
{
    let meta = &patch.meta;
    let derived = &patch.derived;
    let mut entries: Vec<HistoryEntry> = Vec::new();
    match history_lookup(history, patch.id.as_str()) {
        Some(h) => {
            let mut i: usize = 0;
            while i < h.len()
                invariant
                    i <= h@.len(),
                    entries@ == older_than(h@.take(i as int), meta.version),
                decreases h@.len() - i,
            {
                assert(h@.take(i + 1).drop_last() =~= h@.take(i as int));
                if h[i].version < meta.version {
                    entries.push(h[i]);
                }
                i = i + 1;
            }
            assert(h@.take(h@.len() as int) =~= h@);
        },
        None => {},
    }
    entries.push(HistoryEntry { version: meta.version, fingerprint: patch.fingerprint });
    let mut demos: Vec<IndexDemo> = Vec::new();
    let mut i: usize = 0;
    while i < meta.demos.len()
        invariant
            i <= meta.demos@.len(),
            demos@.len() == i,
            forall|j: int| 0 <= j < i ==> #[trigger] index_demo_of(demos@[j], *patch, meta.demos@[j]),
        decreases meta.demos@.len() - i,
    {
        let d = &meta.demos[i];
        let path = patch.demo_path(d);
        demos.push(IndexDemo { file: slashes(path.as_str()), variant: copy_opt(&d.variant), about: copy_opt(&d.about) });
        i = i + 1;
    }
    let about_chars = chars_of(meta.about.as_str());
    let about = crate::text::trimmed(about_chars.as_slice());
    IndexPatch {
        id: owned(patch.id.as_str()),
        name: owned(meta.name.as_str()),
        author: owned(meta.author.as_str()),
        version: meta.version,
        about: string_of(about.as_slice()),
        category: patch.category,
        collection: copy_opt(&patch.collection),
        file: slashes(patch.syx_path.as_str()),
        sha256: owned(patch.sha256.as_str()),
        fingerprint: patch.fingerprint,
        licence: owned(meta.licence.as_str()),
        genre: copy_texts(&meta.genre),
        mood: copy_texts(&meta.mood),
        timbre: copy_texts(&meta.timbre),
        role: copy_texts(&meta.role),
        tags: copy_texts(&meta.tags),
        icon: library.icon_for(patch),
        own_icon: meta.icon.is_some(),
        created: copy_opt(&meta.created),
        model: copy_opt(&meta.model),
        firmware: copy_opt(&meta.firmware),
        source: copy_opt(&meta.source),
        demos,
        fx_mode: owned(derived.fx_mode.as_str()),
        effects: copy_texts(&derived.effects),
        arp: derived.arp,
        arp_mode: copy_opt(&derived.arp_mode),
        polyphony: owned(derived.polyphony.as_str()),
        unison: derived.unison,
        routings: derived.routings,
        sequencer: derived.sequencer,
        transpose: derived.transpose,
        history: entries,
    }
}

impl Index {
    /// Refuses an index written under a schema newer than the one this crate
    /// reads, as `[catalogue] schema` gives it; an older reader must not
    /// guess at a newer layout.
    pub fn check_schema(found: u32) -> (r: Result<(), Error>)
        ensures
            found <= crate::INDEX_SCHEMA ==> r is Ok,
            found > crate::INDEX_SCHEMA ==> r == Err::<(), Error>(Error::Schema { found, supported: crate::INDEX_SCHEMA }),
    {
        if found > crate::INDEX_SCHEMA {
            Err(Error::Schema { found, supported: crate::INDEX_SCHEMA })
        } else {
            Ok(())
        }
    }

    /// Builds the index from a library.
    ///
    /// `history` maps patch id to earlier versions, oldest first, each id
    /// once; the versions before the current one are kept and the current
    /// version is appended. A patch with no entry gets a history of just its
    /// current version.
    pub fn build(
        library: &Library,
        version: LibraryVersion,
        commit: &str,
        built: &str,
        history: &Vec<(String, Vec<HistoryEntry>)>,
    ) -> (r: Index)
        ensures
            r.catalogue.schema == 1,
            r.catalogue.version == version,
            r.catalogue.commit@ == commit@,
            r.catalogue.built@ == built@,
            r.catalogue.patches == library.patch_list().len(),
            same_taxonomy(r.taxonomy, library.taxonomy),
            same_icons(r.icons.categories@, library.icons.categories@),
            same_icons(r.icons.badges@, library.icons.badges@),
            match library.palette {
                Some(p) => same_palette(r.palette@, p@),
                None => r.palette@.len() == 0,
            },
            r.patches@.len() == library.patch_list().len(),
            forall|i: int| 0 <= i < r.patches@.len() ==> #[trigger] index_patch_of(r.patches@[i], *library, library.patch_list()[i], history@),
    {
        let list = library.patches();
        let mut patches: Vec<IndexPatch> = Vec::new();
        let mut i: usize = 0;
        while i < list.len()
            invariant
                i <= list@.len(),
                list@ == library.patch_list(),
                patches@.len() == i,
                forall|j: int| 0 <= j < i ==> #[trigger] index_patch_of(patches@[j], *library, list@[j], history@),
            decreases list@.len() - i,
        {
            patches.push(index_patch(library, &list[i], history));
            i = i + 1;
        }
        let palette = match &library.palette {
            Some(p) => copy_palette(p),
            None => Vec::new(),
        };
        Index {
            catalogue: Catalogue {
                schema: 1,
                version,
                commit: owned(commit),
                built: owned(built),
                patches: patches.len(),
            },
            taxonomy: copy_taxonomy(&library.taxonomy),
            icons: Icons { categories: copy_icon_list(&library.icons.categories), badges: copy_icon_list(&library.icons.badges) },
            palette,
            patches,
        }
    }

    /// One patch by id: the first with it.
    pub fn get(&self, id: &str) -> (r: Option<&IndexPatch>)
        ensures
            match r {
                Some(p) => exists|i: int| 0 <= i < self.patches@.len() && self.patches@[i] == *p && p.id@ == id@
                    && forall|j: int| 0 <= j < i ==> (#[trigger] self.patches@[j]).id@ != id@,
                None => forall|j: int| 0 <= j < self.patches@.len() ==> (#[trigger] self.patches@[j]).id@ != id@,
            },
    {
        let mut i: usize = 0;
        while i < self.patches.len()
            invariant
                i <= self.patches@.len(),
                forall|j: int| 0 <= j < i ==> (#[trigger] self.patches@[j]).id@ != id@,
            decreases self.patches@.len() - i,
        {
            if str_eq(self.patches[i].id.as_str(), id) {
                return Some(&self.patches[i]);
            }
            i = i + 1;
        }
        None
    }

    /// The URL of one file at the commit this index was built from.
    pub fn raw_url(&self, owner_repo: &str, file: &str) -> (url: String)
        ensures
            url@ == raw_url_of(owner_repo@, self.catalogue.commit@, file@),
    {
        raw_url(owner_repo, self.catalogue.commit.as_str(), file)
    }
}

/// Where the first entry of a history with a fingerprint is, or -1.
pub open spec fn history_hit(h: Seq<HistoryEntry>, f: Seq<u8>) -> int
    decreases h.len(),
{
    if h.len() == 0 {
        -1
    } else if h[0].fingerprint.0@ == f {
        0
    } else if history_hit(h.drop_first(), f) < 0 {
        -1
    } else {
        1 + history_hit(h.drop_first(), f)
    }
}

/// What looking a fingerprint up finds: the first patch, in index order,
/// whose current fingerprint is it or whose history holds it; the version
/// that had it (the current one first, else the first history entry with
/// it); and whether that version is the current one.
pub open spec fn found(ps: Seq<IndexPatch>, f: Seq<u8>) -> Option<(int, u32, bool)>
    decreases ps.len(),
{
    if ps.len() == 0 {
        None
    } else if ps[0].fingerprint.0@ == f {
        Some((0, ps[0].version, true))
    } else if history_hit(ps[0].history@, f) >= 0 {
        let e = ps[0].history@[history_hit(ps[0].history@, f)];
        Some((0, e.version, e.version == ps[0].version))
    } else {
        match found(ps.drop_first(), f) {
            Some((i, v, l)) => Some((i + 1, v, l)),
            None => None,
        }
    }
}

proof fn lemma_history_hit(h: Seq<HistoryEntry>, f: Seq<u8>)
    ensures
        -1 <= history_hit(h, f) < h.len(),
        history_hit(h, f) >= 0 ==> h[history_hit(h, f)].fingerprint.0@ == f,
        history_hit(h, f) < 0 ==> forall|j: int| 0 <= j < h.len() ==> (#[trigger] h[j]).fingerprint.0@ != f,
    decreases h.len(),
{
    if h.len() > 0 {
        lemma_history_hit(h.drop_first(), f);
        if history_hit(h, f) < 0 {
            assert forall|j: int| 0 <= j < h.len() implies (#[trigger] h[j]).fingerprint.0@ != f by {
                if j > 0 {
                    assert(h[j] == h.drop_first()[j - 1]);
                }
            }
        }
    }
}

fn find_in_history(h: &Vec<HistoryEntry>, f: &Fingerprint) -> (r: Option<usize>)
    ensures
        match r {
            Some(k) => k as int == history_hit(h@, f.0@) && k < h@.len(),
            None => history_hit(h@, f.0@) < 0,
        },
{
    let mut i: usize = 0;
    assert(h@.skip(0) =~= h@);
    while i < h.len()
        invariant
            i <= h@.len(),
            history_hit(h@, f.0@) < 0 ==> history_hit(h@.skip(i as int), f.0@) < 0,
            history_hit(h@, f.0@) >= 0 ==> history_hit(h@.skip(i as int), f.0@) >= 0 && history_hit(h@, f.0@) == i
                + history_hit(h@.skip(i as int), f.0@),
        decreases h@.len() - i,
    {
        assert(h@.skip(i as int).drop_first() =~= h@.skip(i + 1));
        assert(h@.skip(i as int)[0] == h@[i as int]);
        if h[i].fingerprint.same(f) {
            return Some(i);
        }
        i = i + 1;
    }
    None
}

impl Index {
    /// The patch and version a fingerprint belongs to, if any version of any
    /// patch ever had it.
    pub fn lookup(&self, fingerprint: &Fingerprint) -> (r: Option<Match<'_>>)
        ensures
            match found(self.patches@, fingerprint.0@) {
                None => r is None,
                Some((i, v, l)) => r matches Some(m) && *m.patch == self.patches@[i] && m.version == v && m.latest == l,
            },
    {
        let mut i: usize = 0;
        assert(self.patches@.skip(0) =~= self.patches@);
        while i < self.patches.len()
            invariant
                i <= self.patches@.len(),
                found(self.patches@, fingerprint.0@) == match found(self.patches@.skip(i as int), fingerprint.0@) {
                    Some((k, v, l)) => Some((k + i, v, l)),
                    None => None,
                },
            decreases self.patches@.len() - i,
        {
            let ghost rest = self.patches@.skip(i as int);
            assert(rest.drop_first() =~= self.patches@.skip(i + 1));
            assert(rest[0] == self.patches@[i as int]);
            let patch = &self.patches[i];
            if patch.fingerprint.same(fingerprint) {
                return Some(Match { patch, version: patch.version, latest: true });
            }
            match find_in_history(&patch.history, fingerprint) {
                Some(k) => {
                    let entry = patch.history[k];
                    return Some(Match { patch, version: entry.version, latest: entry.version == patch.version });
                },
                None => {},
            }
            i = i + 1;
        }
        None
    }

    /// Patches whose stored name equals `name`, in index order. What to try
    /// when a fingerprint misses: the program was probably edited after
    /// loading.
    pub fn by_name(&self, name: &str) -> (r: Vec<&IndexPatch>)
        ensures
            r@.map_values(|p: &IndexPatch| *p) == self.patches@.filter(|p: IndexPatch| p.name@ == name@),
    {
        let mut out: Vec<&IndexPatch> = Vec::new();
        let mut i: usize = 0;
        while i < self.patches.len()
            invariant
                i <= self.patches@.len(),
                out@.map_values(|p: &IndexPatch| *p) == self.patches@.take(i as int).filter(|p: IndexPatch| p.name@ == name@),
            decreases self.patches@.len() - i,
        {
            let ghost before = out@;
            if str_eq(self.patches[i].name.as_str(), name) {
                out.push(&self.patches[i]);
                assert(out@.map_values(|p: &IndexPatch| *p) =~= before.map_values(|p: &IndexPatch| *p).push(self.patches@[i as int]));
            }
            assert(self.patches@.take(i + 1).filter(|p: IndexPatch| p.name@ == name@) == out@.map_values(|p: &IndexPatch| *p)) by {
                let s = self.patches@.take(i + 1);
                reveal(Seq::filter);
                assert(s.drop_last() =~= self.patches@.take(i as int));
                assert(s.last() == self.patches@[i as int]);
            }
            i = i + 1;
        }
        assert(self.patches@.take(self.patches@.len() as int) =~= self.patches@);
        out
    }

    /// The patches in one category, in index order.
    pub fn in_category(&self, category: Category) -> (r: Vec<&IndexPatch>)
        ensures
            r@.map_values(|p: &IndexPatch| *p) == self.patches@.filter(|p: IndexPatch| p.category == category),
    {
        let mut out: Vec<&IndexPatch> = Vec::new();
        let mut i: usize = 0;
        while i < self.patches.len()
            invariant
                i <= self.patches@.len(),
                out@.map_values(|p: &IndexPatch| *p) == self.patches@.take(i as int).filter(|p: IndexPatch| p.category == category),
            decreases self.patches@.len() - i,
        {
            let ghost before = out@;
            if self.patches[i].category == category {
                out.push(&self.patches[i]);
                assert(out@.map_values(|p: &IndexPatch| *p) =~= before.map_values(|p: &IndexPatch| *p).push(self.patches@[i as int]));
            }
            assert(self.patches@.take(i + 1).filter(|p: IndexPatch| p.category == category) == out@.map_values(|p: &IndexPatch| *p)) by {
                let s = self.patches@.take(i + 1);
                reveal(Seq::filter);
                assert(s.drop_last() =~= self.patches@.take(i as int));
                assert(s.last() == self.patches@[i as int]);
            }
            i = i + 1;
        }
        assert(self.patches@.take(self.patches@.len() as int) =~= self.patches@);
        out
    }
}

/// A patch's current sound is always found: looking up its fingerprint
/// gives a patch no later than it, and when no earlier patch has that
/// fingerprint in its current version or history, gives that very patch at
/// its current version, marked latest.
pub proof fn lemma_current_is_found(ps: Seq<IndexPatch>, i: int)
    requires
        0 <= i < ps.len(),
    ensures
        found(ps, ps[i].fingerprint.0@) matches Some((k, _, _)) && 0 <= k <= i,
        (forall|j: int| 0 <= j < i ==> (#[trigger] ps[j]).fingerprint.0@ != ps[i].fingerprint.0@ && history_hit(ps[j].history@, ps[i].fingerprint.0@) < 0)
            ==> found(ps, ps[i].fingerprint.0@) == Some((i, ps[i].version, true)),
    decreases i,
{
    let f = ps[i].fingerprint.0@;
    if i > 0 && ps[0].fingerprint.0@ != f && history_hit(ps[0].history@, f) < 0 {
        assert(ps.drop_first()[i - 1] == ps[i]);
        lemma_current_is_found(ps.drop_first(), i - 1);
        if forall|j: int| 0 <= j < i ==> (#[trigger] ps[j]).fingerprint.0@ != f && history_hit(ps[j].history@, f) < 0 {
            assert forall|j: int| 0 <= j < i - 1 implies (#[trigger] ps.drop_first()[j]).fingerprint.0@ != f
                && history_hit(ps.drop_first()[j].history@, f) < 0 by {
                assert(ps.drop_first()[j] == ps[j + 1]);
            }
        }
    }
}

/// An earlier version is found too: looking up the fingerprint a history
/// entry holds gives a patch no later than its own, and, when no earlier
/// patch and neither the current version nor an earlier entry of its own
/// has that fingerprint, that patch at that entry's version, marked latest
/// exactly when it is the current version.
pub proof fn lemma_history_is_found(ps: Seq<IndexPatch>, i: int, k: int)
    requires
        0 <= i < ps.len(),
        0 <= k < ps[i].history@.len(),
    ensures
        found(ps, ps[i].history@[k].fingerprint.0@) matches Some((n, _, _)) && 0 <= n <= i,
        ({
            let f = ps[i].history@[k].fingerprint.0@;
            (forall|j: int| 0 <= j < i ==> (#[trigger] ps[j]).fingerprint.0@ != f && history_hit(ps[j].history@, f) < 0)
                && ps[i].fingerprint.0@ != f && (forall|q: int| 0 <= q < k ==> (#[trigger] ps[i].history@[q]).fingerprint.0@ != f)
                ==> found(ps, f) == Some((i, ps[i].history@[k].version, ps[i].history@[k].version == ps[i].version))
        }),
    decreases i,
{
    let f = ps[i].history@[k].fingerprint.0@;
    lemma_history_hit(ps[i].history@, f);
    if i == 0 {
        if ps[0].fingerprint.0@ != f {
            assert(history_hit(ps[0].history@, f) >= 0);
            if forall|q: int| 0 <= q < k ==> (#[trigger] ps[0].history@[q]).fingerprint.0@ != f {
                lemma_history_hit_first(ps[0].history@, f, k);
            }
        }
    } else if ps[0].fingerprint.0@ != f && history_hit(ps[0].history@, f) < 0 {
        assert(ps.drop_first()[i - 1] == ps[i]);
        lemma_history_is_found(ps.drop_first(), i - 1, k);
        if forall|j: int| 0 <= j < i ==> (#[trigger] ps[j]).fingerprint.0@ != f && history_hit(ps[j].history@, f) < 0 {
            assert forall|j: int| 0 <= j < i - 1 implies (#[trigger] ps.drop_first()[j]).fingerprint.0@ != f
                && history_hit(ps.drop_first()[j].history@, f) < 0 by {
                assert(ps.drop_first()[j] == ps[j + 1]);
            }
        }
    }
}

proof fn lemma_history_hit_first(h: Seq<HistoryEntry>, f: Seq<u8>, k: int)
    requires
        0 <= k < h.len(),
        h[k].fingerprint.0@ == f,
        forall|q: int| 0 <= q < k ==> (#[trigger] h[q]).fingerprint.0@ != f,
    ensures
        history_hit(h, f) == k,
    decreases k,
{
    if k > 0 {
        assert forall|q: int| 0 <= q < k - 1 implies (#[trigger] h.drop_first()[q]).fingerprint.0@ != f by {
            assert(h.drop_first()[q] == h[q + 1]);
        }
        assert(h.drop_first()[k - 1] == h[k]);
        lemma_history_hit_first(h.drop_first(), f, k - 1);
    }
}

/// Whether a history is one entry per version, oldest first.
pub open spec fn ascending(h: Seq<HistoryEntry>) -> bool {
    forall|a: int, b: int| 0 <= a < b < h.len() ==> #[trigger] h[a].version < #[trigger] h[b].version
}

/// Whether an entry is one of a history's.
pub open spec fn holds_entry(h: Seq<HistoryEntry>, e: HistoryEntry) -> bool {
    exists|j: int| 0 <= j < h.len() && h[j] == e
}

proof fn lemma_older_than(h: Seq<HistoryEntry>, version: u32)
    requires
        ascending(h),
    ensures
        ascending(older_than(h, version)),
        forall|k: int| 0 <= k < older_than(h, version).len() ==> #[trigger] older_than(h, version)[k].version < version,
        forall|k: int| 0 <= k < older_than(h, version).len() ==> holds_entry(h, #[trigger] older_than(h, version)[k]),
    decreases h.len(),
{
    if h.len() > 0 {
        let p = h.drop_last();
        assert(ascending(p)) by {
            assert forall|a: int, b: int| 0 <= a < b < p.len() implies #[trigger] p[a].version < #[trigger] p[b].version by {
                assert(p[a] == h[a] && p[b] == h[b]);
            }
        }
        lemma_older_than(p, version);
        let o = older_than(p, version);
        if h.last().version < version {
            let q = o.push(h.last());
            assert forall|k: int| 0 <= k < q.len() implies holds_entry(h, #[trigger] q[k]) by {
                if k < o.len() {
                    assert(holds_entry(p, o[k]));
                    let j = choose|j: int| 0 <= j < p.len() && p[j] == o[k];
                    assert(h[j] == q[k]);
                } else {
                    assert(h[h.len() - 1] == q[k]);
                }
            }
            assert forall|a: int, b: int| 0 <= a < b < q.len() implies #[trigger] q[a].version < #[trigger] q[b].version by {
                if b == q.len() - 1 {
                    assert(holds_entry(p, o[a]));
                    let j = choose|j: int| 0 <= j < p.len() && p[j] == o[a];
                    assert(h[j] == q[a]);
                    assert(h[h.len() - 1] == q[b]);
                } else {
                    assert(q[a] == o[a] && q[b] == o[b]);
                }
            }
        } else {
            assert forall|k: int| 0 <= k < o.len() implies holds_entry(h, #[trigger] o[k]) by {
                assert(holds_entry(p, o[k]));
                let j = choose|j: int| 0 <= j < p.len() && p[j] == o[k];
                assert(h[j] == o[k]);
            }
        }
    }
}

/// A patch's history in the index is one entry per version, oldest first,
/// ending with its current version and fingerprint, whenever the history it
/// was built from is one entry per version.
pub proof fn lemma_index_history(h: Seq<HistoryEntry>, current: HistoryEntry)
    requires
        ascending(h),
    ensures
        ascending(older_than(h, current.version).push(current)),
        older_than(h, current.version).push(current).last() == current,
{
    lemma_older_than(h, current.version);
    let o = older_than(h, current.version);
    let q = o.push(current);
    assert forall|a: int, b: int| 0 <= a < b < q.len() implies #[trigger] q[a].version < #[trigger] q[b].version by {
        if b == q.len() - 1 {
            assert(q[a] == o[a]);
        } else {
            assert(q[a] == o[a] && q[b] == o[b]);
        }
    }
}

} // verus!
