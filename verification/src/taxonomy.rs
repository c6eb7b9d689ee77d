//! The controlled vocabularies in `taxonomy.toml`.
//!
//! Four axes, each answering a different question: `genre` is what music it is
//! for, `mood` is how it feels, `timbre` is what it sounds like, `role` is what
//! it does in a track. A term not in the file fails validation. Adding one is a
//! pull request.

use vstd::prelude::*;

use crate::document::{get, lookup, read_toml, toml_read, TomlValue};
use crate::error::Error;
use crate::text::{chars_of, owned, push_str, str_eq};

verus! {

/// One of the four vocabulary axes.
#[derive(Debug, Clone, Copy, PartialEq, Eq, Structural, PartialOrd, Ord, Hash)]
pub enum Axis {
    /// What music it is for.
    Genre,
    /// How it feels.
    Mood,
    /// What it sounds like.
    Timbre,
    /// What it does in a track.
    Role,
}

/// The key an axis has in TOML.
pub open spec fn axis_name(a: Axis) -> Seq<char> {
    match a {
        Axis::Genre => "genre"@,
        Axis::Mood => "mood"@,
        Axis::Timbre => "timbre"@,
        Axis::Role => "role"@,
    }
}

/// The axis at a position of [`Axis::ALL`].
pub open spec fn axis_at(i: int) -> Axis {
    if i == 0 {
        Axis::Genre
    } else if i == 1 {
        Axis::Mood
    } else if i == 2 {
        Axis::Timbre
    } else {
        Axis::Role
    }
}

impl Axis {
    /// Every axis, in the order the files list them.
    pub const ALL: [Axis; 4] = [Axis::Genre, Axis::Mood, Axis::Timbre, Axis::Role];

    /// Every axis, in the order the files list them.
    pub fn all() -> (list: [Axis; 4])
        ensures
            forall|i: int| 0 <= i < 4 ==> #[trigger] list@[i] == axis_at(i),
    {
        [Axis::Genre, Axis::Mood, Axis::Timbre, Axis::Role]
    }

    /// The key used in TOML.
    pub fn name(self) -> (r: &'static str)
        ensures
            r@ == axis_name(self),
    {
        match self {
            Axis::Genre => "genre",
            Axis::Mood => "mood",
            Axis::Timbre => "timbre",
            Axis::Role => "role",
        }
    }
}

/// A term and its one-line description.
#[derive(Debug, Clone, PartialEq, Eq)]
pub struct Term {
    /// The term, as patches write it.
    pub term: String,
    /// What it means.
    pub about: String,
}

/// Term to one-line description, per axis, each in the order of its terms.
#[derive(Debug, Clone, PartialEq, Eq, Default)]
pub struct Taxonomy {
    /// What music it is for.
    pub genre: Vec<Term>,
    /// How it feels.
    pub mood: Vec<Term>,
    /// What it sounds like.
    pub timbre: Vec<Term>,
    /// What it does in a track.
    pub role: Vec<Term>,
}

/// The terms of a list, as characters.
pub open spec fn term_names(v: Seq<Term>) -> Seq<Seq<char>> {
    v.map_values(|t: Term| t.term@)
}

impl Taxonomy {
    /// The entries of one axis.
    pub open spec fn entries(self, axis: Axis) -> Seq<Term> {
        match axis {
            Axis::Genre => self.genre@,
            Axis::Mood => self.mood@,
            Axis::Timbre => self.timbre@,
            Axis::Role => self.role@,
        }
    }

    /// Whether a term exists on an axis.
    pub open spec fn has(self, axis: Axis, term: Seq<char>) -> bool {
        term_names(self.entries(axis)).contains(term)
    }

    /// A taxonomy with no terms.
    pub fn new() -> (t: Taxonomy)
        ensures
            forall|a: Axis| t.entries(a).len() == 0,
    {
        Taxonomy { genre: Vec::new(), mood: Vec::new(), timbre: Vec::new(), role: Vec::new() }
    }

    /// The terms on one axis.
    pub fn axis(&self, axis: Axis) -> (r: &Vec<Term>)
        ensures
            r@ == self.entries(axis),
    {
        match axis {
            Axis::Genre => &self.genre,
            Axis::Mood => &self.mood,
            Axis::Timbre => &self.timbre,
            Axis::Role => &self.role,
        }
    }

    /// Whether a term exists on an axis.
    pub fn contains(&self, axis: Axis, term: &str) -> (r: bool)
        ensures
            r == self.has(axis, term@),
    {
        let entries = self.axis(axis);
        let mut i: usize = 0;
        while i < entries.len()
            invariant
                i <= entries@.len(),
                entries@ == self.entries(axis),
                forall|j: int| 0 <= j < i ==> entries@[j].term@ != term@,
            decreases entries@.len() - i,
        {
            if str_eq(entries[i].term.as_str(), term) {
                assert(term_names(entries@)[i as int] == term@);
                return true;
            }
            i = i + 1;
        }
        assert forall|j: int| 0 <= j < entries@.len() implies term_names(entries@)[j] != term@ by {
            assert(term_names(entries@)[j] == entries@[j].term@);
        }
        false
    }

    /// Terms that are not lowercase ASCII words, which the file forbids, axis
    /// by axis in file order.
    pub open spec fn malformed(self) -> Seq<(Axis, Seq<char>)> {
        malformed_on(self, Axis::Genre) + malformed_on(self, Axis::Mood) + malformed_on(
            self,
            Axis::Timbre,
        ) + malformed_on(self, Axis::Role)
    }

    /// Terms that are not lowercase ASCII words, which the file forbids.
    pub fn malformed_terms(&self) -> (r: Vec<(Axis, String)>)
        ensures
            r@.map_values(|p: (Axis, String)| (p.0, p.1@)) == self.malformed(),
    {
        let mut out: Vec<(Axis, String)> = Vec::new();
        let axes = Axis::all();
        let mut k: usize = 0;
        while k < 4
            invariant
                k <= 4,
                forall|i: int| 0 <= i < 4 ==> #[trigger] axes@[i] == axis_at(i),
                out@.map_values(|p: (Axis, String)| (p.0, p.1@)) == malformed_upto(*self, k as int),
            decreases 4 - k,
        {
            let axis = axes[k];
            let entries = self.axis(axis);
            let ghost base = out@.map_values(|p: (Axis, String)| (p.0, p.1@));
            let mut i: usize = 0;
            while i < entries.len()
                invariant
                    i <= entries@.len(),
                    entries@ == self.entries(axis),
                    out@.map_values(|p: (Axis, String)| (p.0, p.1@)) == base + malformed_in(
                        axis,
                        entries@.take(i as int),
                    ),
                decreases entries@.len() - i,
            {
                assert(entries@.take(i + 1).drop_last() == entries@.take(i as int));
                let ghost before = out@;
                if !is_term(entries[i].term.as_str()) {
                    out.push((axis, entries[i].term.clone()));
                    assert(out@.map_values(|p: (Axis, String)| (p.0, p.1@)) =~= before.map_values(
                        |p: (Axis, String)| (p.0, p.1@),
                    ).push((axis, entries@[i as int].term@)));
                }
                i = i + 1;
            }
            assert(entries@.take(entries@.len() as int) == entries@);
            k = k + 1;
        }
        proof {
            reveal_with_fuel(malformed_upto, 5);
            assert(malformed_upto(*self, 1) =~= malformed_on(*self, Axis::Genre));
        }
        out
    }
}

/// The malformed terms of one list, tagged with their axis.
pub open spec fn malformed_in(axis: Axis, v: Seq<Term>) -> Seq<(Axis, Seq<char>)>
    decreases v.len(),
{
    if v.len() == 0 {
        seq![]
    } else if term_ok(v.last().term@) {
        malformed_in(axis, v.drop_last())
    } else {
        malformed_in(axis, v.drop_last()).push((axis, v.last().term@))
    }
}

/// The malformed terms of one axis.
pub open spec fn malformed_on(t: Taxonomy, axis: Axis) -> Seq<(Axis, Seq<char>)> {
    malformed_in(axis, t.entries(axis))
}

/// The malformed terms of the first `k` axes.
pub open spec fn malformed_upto(t: Taxonomy, k: int) -> Seq<(Axis, Seq<char>)>
    decreases k,
{
    if k <= 0 {
        seq![]
    } else {
        malformed_upto(t, k - 1) + malformed_on(t, axis_at(k - 1))
    }
}

/// Whether text is a valid term: lowercase ASCII letters, digits and `-`, not
/// empty, and no `-` at either end.
pub open spec fn term_ok(s: Seq<char>) -> bool {
    &&& s.len() > 0
    &&& forall|i: int|
        0 <= i < s.len() ==> ('a' <= #[trigger] s[i] <= 'z') || ('0' <= s[i] <= '9') || s[i]
            == '-'
    &&& s[0] != '-'
    &&& s.last() != '-'
}

/// Whether text is a valid term: lowercase ASCII letters, digits and `-`.
pub fn is_term(text: &str) -> (r: bool)
    ensures
        r == term_ok(text@),
{
    let s = chars_of(text);
    if s.len() == 0 {
        return false;
    }
    let mut i: usize = 0;
    while i < s.len()
        invariant
            i <= s@.len(),
            s@ == text@,
            forall|j: int|
                0 <= j < i ==> ('a' <= #[trigger] s@[j] <= 'z') || ('0' <= s@[j] <= '9') || s@[j]
                    == '-',
        decreases s@.len() - i,
    {
        let c = s[i];
        if !(('a' <= c && c <= 'z') || ('0' <= c && c <= '9') || c == '-') {
            return false;
        }
        i = i + 1;
    }
    s[0] != '-' && s[s.len() - 1] != '-'
}

/// Whether a key names an axis.
pub open spec fn is_axis_key(k: Seq<char>) -> bool {
    k == "genre"@ || k == "mood"@ || k == "timbre"@ || k == "role"@
}

/// Whether a value is a table whose every value is a string.
pub open spec fn is_string_table(v: TomlValue) -> bool {
    match v {
        TomlValue::Table(t) => forall|i: int| 0 <= i < t@.len() ==> #[trigger] t@[i].1 is Text,
        _ => false,
    }
}

/// What is wrong with one top-level entry of `taxonomy.toml`, if anything.
pub open spec fn entry_problem(key: Seq<char>, value: TomlValue) -> Option<Seq<char>> {
    if !is_axis_key(key) {
        Some("unknown field `"@ + key + "`, expected one of `genre`, `mood`, `timbre`, `role`"@)
    } else if !is_string_table(value) {
        Some("`"@ + key + "` must be a table of strings"@)
    } else {
        None
    }
}

/// The first thing wrong with a `taxonomy.toml` document, in document order.
pub open spec fn taxonomy_problem(doc: Seq<(String, TomlValue)>) -> Option<Seq<char>>
    decreases doc.len(),
{
    if doc.len() == 0 {
        None
    } else {
        match entry_problem(doc[0].0@, doc[0].1) {
            Some(m) => Some(m),
            None => taxonomy_problem(doc.drop_first()),
        }
    }
}

/// The terms a table of strings holds, in document order.
pub open spec fn terms_in(v: Option<TomlValue>) -> Seq<Term> {
    match v {
        Some(TomlValue::Table(t)) => t@.map_values(
            |e: (String, TomlValue)| Term { term: e.0, about: e.1->Text_0 },
        ),
        _ => seq![],
    }
}

/// Whether a taxonomy holds exactly the terms a valid document lists.
pub open spec fn taxonomy_of(t: Taxonomy, doc: Seq<(String, TomlValue)>) -> bool {
    forall|a: Axis| t.entries(a) == terms_in(lookup(doc, axis_name(a)))
}

/// Whether `r` is what reading the document `read` gives: the parser's
/// message or the first problem as an [`Error::Toml`] on `path`, else the
/// taxonomy the document lists.
pub open spec fn parsed_taxonomy(
    r: Result<Taxonomy, Error>,
    read: Result<Vec<(String, TomlValue)>, String>,
    path: Seq<char>,
) -> bool {
    match read {
        Err(m) => r matches Err(Error::Toml { path: p, message }) && p@ == path && message == m,
        Ok(doc) => match taxonomy_problem(doc@) {
            Some(m) => r matches Err(Error::Toml { path: p, message }) && p@ == path && message@
                == m,
            None => r matches Ok(t) && taxonomy_of(t, doc@),
        },
    }
}

impl Taxonomy {
    /// Parses `taxonomy.toml` text: the four axes, each a table of term to
    /// description; any other key is refused.
    pub fn parse(text: &str) -> (r: Result<Self, Error>)
        ensures
            parsed_taxonomy(r, toml_read(text@), "taxonomy.toml"@),
    {
        match read_toml(text) {
            Err(message) => Err(Error::Toml { path: owned("taxonomy.toml"), message }),
            Ok(doc) => match Self::from_document(&doc) {
                Err(message) => Err(Error::Toml { path: owned("taxonomy.toml"), message }),
                Ok(t) => Ok(t),
            },
        }
    }

    /// The taxonomy a parsed document lists, or the first thing wrong with
    /// it.
    pub fn from_document(doc: &Vec<(String, TomlValue)>) -> (r: Result<Self, String>)
        ensures
            match taxonomy_problem(doc@) {
                Some(m) => r matches Err(message) && message@ == m,
                None => r matches Ok(t) && taxonomy_of(t, doc@),
            },
    {
        let mut i: usize = 0;
        assert(doc@.skip(0) == doc@);
        while i < doc.len()
            invariant
                i <= doc@.len(),
                taxonomy_problem(doc@) == taxonomy_problem(doc@.skip(i as int)),
            decreases doc@.len() - i,
        {
            assert(doc@.skip(i as int).drop_first() == doc@.skip(i + 1));
            assert(doc@.skip(i as int)[0] == doc@[i as int]);
            let (key, value) = &doc[i];
            if !(str_eq(key.as_str(), "genre") || str_eq(key.as_str(), "mood") || str_eq(
                key.as_str(),
                "timbre",
            ) || str_eq(key.as_str(), "role")) {
                let mut m = owned("unknown field `");
                push_str(&mut m, key.as_str());
                push_str(&mut m, "`, expected one of `genre`, `mood`, `timbre`, `role`");
                return Err(m);
            }
            if !string_table(value) {
                let mut m = owned("`");
                push_str(&mut m, key.as_str());
                push_str(&mut m, "` must be a table of strings");
                return Err(m);
            }
            i = i + 1;
        }
        proof {
            assert(doc@.skip(doc@.len() as int).len() == 0);
            lemma_valid_axes(doc@, "genre"@);
            lemma_valid_axes(doc@, "mood"@);
            lemma_valid_axes(doc@, "timbre"@);
            lemma_valid_axes(doc@, "role"@);
        }
        let genre = terms_of(get(doc, "genre"));
        let mood = terms_of(get(doc, "mood"));
        let timbre = terms_of(get(doc, "timbre"));
        let role = terms_of(get(doc, "role"));
        Ok(Taxonomy { genre, mood, timbre, role })
    }
}

/// In a document with nothing wrong, every axis present holds a table of
/// strings.
pub proof fn lemma_valid_axes(doc: Seq<(String, TomlValue)>, key: Seq<char>)
    requires
        taxonomy_problem(doc) is None,
    ensures
        lookup(doc, key) matches Some(v) ==> is_string_table(v),
    decreases doc.len(),
{
    if doc.len() > 0 {
        lemma_valid_axes(doc.drop_first(), key);
    }
}

/// Whether a value is a table whose every value is a string.
pub fn string_table(v: &TomlValue) -> (r: bool)
    ensures
        r == is_string_table(*v),
{
    match v {
        TomlValue::Table(t) => {
            assert(*v == TomlValue::Table(*t));
            let mut i: usize = 0;
            while i < t.len()
                invariant
                    i <= t@.len(),
                    *v == TomlValue::Table(*t),
                    forall|j: int| 0 <= j < i ==> #[trigger] t@[j].1 is Text,
                decreases t@.len() - i,
            {
                match &t[i].1 {
                    TomlValue::Text(_) => {},
                    _ => {
                        assert(!(t@[i as int].1 is Text));
                        assert(!is_string_table(*v));
                        return false;
                    },
                }
                i = i + 1;
            }
            true
        },
        _ => false,
    }
}

fn terms_of(v: Option<&TomlValue>) -> (r: Vec<Term>)
    requires
        v matches Some(x) ==> is_string_table(*x),
    ensures
        r@ == terms_in(match v { Some(x) => Some(*x), None => None }),
{
    let mut out: Vec<Term> = Vec::new();
    match v {
        Some(TomlValue::Table(t)) => {
            let mut i: usize = 0;
            while i < t.len()
                invariant
                    i <= t@.len(),
                    forall|j: int| 0 <= j < t@.len() ==> #[trigger] t@[j].1 is Text,
                    out@ == t@.take(i as int).map_values(
                        |e: (String, TomlValue)| Term { term: e.0, about: e.1->Text_0 },
                    ),
                decreases t@.len() - i,
            {
                let (k, value) = &t[i];
                match value {
                    TomlValue::Text(about) => {
                        out.push(Term { term: k.clone(), about: about.clone() });
                    },
                    _ => {
                        assert(t@[i as int].1 is Text);
                    },
                }
                assert(t@.take(i + 1).map_values(
                    |e: (String, TomlValue)| Term { term: e.0, about: e.1->Text_0 },
                ) =~= t@.take(i as int).map_values(
                    |e: (String, TomlValue)| Term { term: e.0, about: e.1->Text_0 },
                ).push(Term { term: t@[i as int].0, about: t@[i as int].1->Text_0 }));
                i = i + 1;
            }
            assert(t@.take(t@.len() as int) == t@);
        },
        _ => {},
    }
    out
}

} // verus!
