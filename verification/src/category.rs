//! The instrument's twelve program categories.
//!
//! The category is byte 240 of the program, so it is the one classification
//! nobody types: the folder a patch sits in must agree with the file. `None`
//! and the four `User` slots are stored values but not categories here, and a
//! patch carrying one is refused until a category is set on the instrument.
//!
//! Each category has two names. [`Category::name`] is the readable one, which
//! is the icon file and what the index writes: `Sound Effects`.
//! [`Category::label`] is the instrument's own short form: `SFX`. A folder
//! under `presets/` may be spelled either way ([`Category::from_name`]).

use vstd::prelude::*;

use crate::text::{debug_quoted, join, join_strings, owned, push_str, quoted, str_eq, texts};

verus! {

/// One of the twelve categories, in the instrument's order.
#[derive(Debug, Clone, Copy, PartialEq, Eq, Structural, PartialOrd, Ord, Hash)]
pub enum Category {
    /// Plays the bottom.
    Bass,
    /// Held chords.
    Pad,
    /// Plays the tune.
    Lead,
    /// Monophonic, not otherwise a bass or a lead.
    Mono,
    /// Polyphonic, not otherwise a pad.
    Poly,
    /// One hit, chordal.
    Stab,
    /// Sound effects.
    Sfx,
    /// The arpeggiator is the point.
    Arp,
    /// The sequencer is the point.
    Sequence,
    /// Drums, hits, clicks.
    Perc,
    /// Drifting, atmospheric.
    Ambient,
    /// Patches built around the modulation matrix.
    Modular,
}

/// The stored value of a category.
pub open spec fn value_of(c: Category) -> u8 {
    match c {
        Category::Bass => 1,
        Category::Pad => 2,
        Category::Lead => 3,
        Category::Mono => 4,
        Category::Poly => 5,
        Category::Stab => 6,
        Category::Sfx => 7,
        Category::Arp => 8,
        Category::Sequence => 9,
        Category::Perc => 10,
        Category::Ambient => 11,
        Category::Modular => 12,
    }
}

/// The category at a position of [`Category::ALL`].
pub open spec fn nth(i: int) -> Category {
    if i == 0 {
        Category::Bass
    } else if i == 1 {
        Category::Pad
    } else if i == 2 {
        Category::Lead
    } else if i == 3 {
        Category::Mono
    } else if i == 4 {
        Category::Poly
    } else if i == 5 {
        Category::Stab
    } else if i == 6 {
        Category::Sfx
    } else if i == 7 {
        Category::Arp
    } else if i == 8 {
        Category::Sequence
    } else if i == 9 {
        Category::Perc
    } else if i == 10 {
        Category::Ambient
    } else {
        Category::Modular
    }
}

/// The readable name: the icon file, what the index writes, and one of the
/// two spellings a folder may take.
pub open spec fn name_of(c: Category) -> Seq<char> {
    match c {
        Category::Bass => "Bass"@,
        Category::Pad => "Pads"@,
        Category::Lead => "Leads"@,
        Category::Mono => "Monophonic"@,
        Category::Poly => "Polyphonic"@,
        Category::Stab => "Stabs"@,
        Category::Sfx => "Sound Effects"@,
        Category::Arp => "Arpeggios"@,
        Category::Sequence => "Sequences"@,
        Category::Perc => "Percussion"@,
        Category::Ambient => "Ambient"@,
        Category::Modular => "Modular"@,
    }
}

/// The instrument's short label.
pub open spec fn label_of(c: Category) -> Seq<char> {
    match c {
        Category::Bass => "Bass"@,
        Category::Pad => "Pad"@,
        Category::Lead => "Lead"@,
        Category::Mono => "Mono"@,
        Category::Poly => "Poly"@,
        Category::Stab => "Stab"@,
        Category::Sfx => "SFX"@,
        Category::Arp => "Arp"@,
        Category::Sequence => "Seq"@,
        Category::Perc => "Perc"@,
        Category::Ambient => "Ambient"@,
        Category::Modular => "Modular"@,
    }
}

/// What the category is for, in a few words.
pub open spec fn about_of(c: Category) -> Seq<char> {
    match c {
        Category::Bass => "Plays the bottom"@,
        Category::Pad => "Held chords"@,
        Category::Lead => "Plays the tune"@,
        Category::Mono => "One voice, not a bass or a lead"@,
        Category::Poly => "Many voices, not a pad"@,
        Category::Stab => "One hit, chordal"@,
        Category::Sfx => "Not an instrument"@,
        Category::Arp => "The arpeggiator is the point"@,
        Category::Sequence => "The sequencer is the point"@,
        Category::Perc => "Drums, hits, clicks"@,
        Category::Ambient => "Drifting, atmospheric"@,
        Category::Modular => "Built around the modulation matrix"@,
    }
}

/// The category a name refers to, if any.
pub open spec fn named(name: Seq<char>) -> Option<Category> {
    if exists|c: Category| name_of(c) == name {
        Some(choose|c: Category| name_of(c) == name)
    } else {
        None
    }
}

/// The category an instrument label refers to, if any.
pub open spec fn labelled(label: Seq<char>) -> Option<Category> {
    if exists|c: Category| label_of(c) == label {
        Some(choose|c: Category| label_of(c) == label)
    } else {
        None
    }
}

/// The category a stored value names, if any.
pub open spec fn of_value(value: u8) -> Option<Category> {
    if 1 <= value <= 12 {
        Some(nth(value - 1))
    } else {
        None
    }
}

impl Category {
    /// Every category, in the instrument's order.
    pub const ALL: [Category; 12] = [
        Category::Bass,
        Category::Pad,
        Category::Lead,
        Category::Mono,
        Category::Poly,
        Category::Stab,
        Category::Sfx,
        Category::Arp,
        Category::Sequence,
        Category::Perc,
        Category::Ambient,
        Category::Modular,
    ];

    /// Every category, in the instrument's order.
    pub fn all() -> (list: [Category; 12])
        ensures
            forall|i: int| 0 <= i < 12 ==> #[trigger] list@[i] == nth(i),
    {
        [
            Category::Bass,
            Category::Pad,
            Category::Lead,
            Category::Mono,
            Category::Poly,
            Category::Stab,
            Category::Sfx,
            Category::Arp,
            Category::Sequence,
            Category::Perc,
            Category::Ambient,
            Category::Modular,
        ]
    }

    /// The category a stored value names, or `None` for `None` and `User-1`
    /// through `User-4`.
    pub fn from_value(value: u8) -> (r: Option<Self>)
        ensures
            r == of_value(value),
    {
        match value {
            1 => Some(Self::Bass),
            2 => Some(Self::Pad),
            3 => Some(Self::Lead),
            4 => Some(Self::Mono),
            5 => Some(Self::Poly),
            6 => Some(Self::Stab),
            7 => Some(Self::Sfx),
            8 => Some(Self::Arp),
            9 => Some(Self::Sequence),
            10 => Some(Self::Perc),
            11 => Some(Self::Ambient),
            12 => Some(Self::Modular),
            _ => None,
        }
    }

    /// The value the program stores for this category.
    pub fn value(self) -> (r: u8)
        ensures
            r == value_of(self),
    {
        match self {
            Self::Bass => 1,
            Self::Pad => 2,
            Self::Lead => 3,
            Self::Mono => 4,
            Self::Poly => 5,
            Self::Stab => 6,
            Self::Sfx => 7,
            Self::Arp => 8,
            Self::Sequence => 9,
            Self::Perc => 10,
            Self::Ambient => 11,
            Self::Modular => 12,
        }
    }

    /// The readable name: the icon file, what the index writes, and one of
    /// the two spellings of a folder under `presets/`.
    pub fn name(self) -> (r: &'static str)
        ensures
            r@ == name_of(self),
    {
        match self {
            Self::Bass => "Bass",
            Self::Pad => "Pads",
            Self::Lead => "Leads",
            Self::Mono => "Monophonic",
            Self::Poly => "Polyphonic",
            Self::Stab => "Stabs",
            Self::Sfx => "Sound Effects",
            Self::Arp => "Arpeggios",
            Self::Sequence => "Sequences",
            Self::Perc => "Percussion",
            Self::Ambient => "Ambient",
            Self::Modular => "Modular",
        }
    }

    /// The short label the instrument's display uses: `SFX`, `Perc`.
    pub fn label(self) -> (r: &'static str)
        ensures
            r@ == label_of(self),
    {
        match self {
            Self::Bass => "Bass",
            Self::Pad => "Pad",
            Self::Lead => "Lead",
            Self::Mono => "Mono",
            Self::Poly => "Poly",
            Self::Stab => "Stab",
            Self::Sfx => "SFX",
            Self::Arp => "Arp",
            Self::Sequence => "Seq",
            Self::Perc => "Perc",
            Self::Ambient => "Ambient",
            Self::Modular => "Modular",
        }
    }

    /// What the category is for, in a few words.
    pub fn about(self) -> (r: &'static str)
        ensures
            r@ == about_of(self),
    {
        match self {
            Self::Bass => "Plays the bottom",
            Self::Pad => "Held chords",
            Self::Lead => "Plays the tune",
            Self::Mono => "One voice, not a bass or a lead",
            Self::Poly => "Many voices, not a pad",
            Self::Stab => "One hit, chordal",
            Self::Sfx => "Not an instrument",
            Self::Arp => "The arpeggiator is the point",
            Self::Sequence => "The sequencer is the point",
            Self::Perc => "Drums, hits, clicks",
            Self::Ambient => "Drifting, atmospheric",
            Self::Modular => "Built around the modulation matrix",
        }
    }

    /// The category whose readable name this is. Case-sensitive.
    pub(crate) fn by_readable_name(name: &str) -> (r: Option<Self>)
        ensures
            r == named(name@),
    {
        let all = Self::all();
        let mut i: usize = 0;
        while i < 12
            invariant
                i <= 12,
                forall|j: int| 0 <= j < 12 ==> #[trigger] all@[j] == nth(j),
                forall|j: int| 0 <= j < i ==> name_of(nth(j)) != name@,
            decreases 12 - i,
        {
            if str_eq(all[i].name(), name) {
                proof {
                    lemma_names_distinct();
                }
                return Some(all[i]);
            }
            i = i + 1;
        }
        proof {
            lemma_nth_covers();
            assert forall|c: Category| name_of(c) != name@ by {
                let j = value_of(c) - 1;
                assert(name_of(nth(j)) != name@);
            }
        }
        None
    }

    /// The category a folder name refers to. A folder under `presets/` or
    /// `demos/` is spelled as the instrument writes the category (`SFX`,
    /// `Pad`), or by the category's readable name (`Sound Effects`, `Pads`);
    /// either is accepted. Case-sensitive.
    pub fn from_name(name: &str) -> (r: Option<Self>)
        ensures
            r == foldered(name@),
    {
        match Self::by_readable_name(name) {
            Some(c) => Some(c),
            None => Self::from_label(name),
        }
    }

    /// The category an instrument label refers to. Case-sensitive.
    pub fn from_label(label: &str) -> (r: Option<Self>)
        ensures
            r == labelled(label@),
    {
        let all = Self::all();
        let mut i: usize = 0;
        while i < 12
            invariant
                i <= 12,
                forall|j: int| 0 <= j < 12 ==> #[trigger] all@[j] == nth(j),
                forall|j: int| 0 <= j < i ==> label_of(nth(j)) != label@,
            decreases 12 - i,
        {
            if str_eq(all[i].label(), label) {
                proof {
                    lemma_labels_distinct();
                }
                return Some(all[i]);
            }
            i = i + 1;
        }
        proof {
            lemma_nth_covers();
            assert forall|c: Category| label_of(c) != label@ by {
                let j = value_of(c) - 1;
                assert(label_of(nth(j)) != label@);
            }
        }
        None
    }
}

/// Every category sits in [`Category::ALL`] at its value less one.
pub proof fn lemma_nth_covers()
    ensures
        forall|c: Category| nth(#[trigger] value_of(c) - 1) == c,
{
}

/// No two categories share a name.
pub proof fn lemma_names_distinct()
    ensures
        forall|a: Category, b: Category| name_of(a) == name_of(b) ==> a == b,
{
    reveal_strlit("Bass");
    reveal_strlit("Pads");
    reveal_strlit("Leads");
    reveal_strlit("Monophonic");
    reveal_strlit("Polyphonic");
    reveal_strlit("Stabs");
    reveal_strlit("Sound Effects");
    reveal_strlit("Arpeggios");
    reveal_strlit("Sequences");
    reveal_strlit("Percussion");
    reveal_strlit("Ambient");
    reveal_strlit("Modular");
    assert forall|a: Category, b: Category| name_of(a) == name_of(b) implies a == b by {
        if a != b {
            let x = name_of(a);
            let y = name_of(b);
            if x.len() == y.len() {
                assert(x[0] != y[0] || x[1] != y[1] || x[2] != y[2]);
            }
        }
    }
}

/// No two categories share a label.
pub proof fn lemma_labels_distinct()
    ensures
        forall|a: Category, b: Category| label_of(a) == label_of(b) ==> a == b,
{
    reveal_strlit("Bass");
    reveal_strlit("Pad");
    reveal_strlit("Lead");
    reveal_strlit("Mono");
    reveal_strlit("Poly");
    reveal_strlit("Stab");
    reveal_strlit("SFX");
    reveal_strlit("Arp");
    reveal_strlit("Seq");
    reveal_strlit("Perc");
    reveal_strlit("Ambient");
    reveal_strlit("Modular");
    assert forall|a: Category, b: Category| label_of(a) == label_of(b) implies a == b by {
        if a != b {
            let x = label_of(a);
            let y = label_of(b);
            if x.len() == y.len() {
                assert(x[0] != y[0] || x[1] != y[1] || x[2] != y[2]);
            }
        }
    }
}

/// Each category's stored value, name and label all lead back to it: the
/// three lookups are inverse to the three ways of writing a category.
pub proof fn lemma_category_round_trip(c: Category)
    ensures
        of_value(value_of(c)) == Some(c),
        named(name_of(c)) == Some(c),
        labelled(label_of(c)) == Some(c),
        forall|v: u8| of_value(v) is Some ==> value_of(of_value(v).unwrap()) == v,
{
    lemma_names_distinct();
    lemma_labels_distinct();
}

/// The names of every category, in order.
pub open spec fn all_names() -> Seq<Seq<char>> {
    Seq::new(12, |i: int| name_of(nth(i)))
}

/// The category a folder stands for: by its name, else by its label.
pub open spec fn foldered(folder: Seq<char>) -> Option<Category> {
    match named(folder) {
        Some(c) => Some(c),
        None => labelled(folder),
    }
}

/// What reading a category from text gives: the category with that
/// name, else the one with that label, else the message naming the choices.
pub open spec fn category_read(text: Seq<char>) -> Result<Category, Seq<char>> {
    match named(text) {
        Some(c) => Ok(c),
        None => match labelled(text) {
            Some(c) => Ok(c),
            None => Err(debug_quoted(text) + " is not a category; one of "@ + join(all_names(), ", "@)),
        },
    }
}

impl Category {
    /// Reads a category from its folder name or its label.
    pub fn from_text(text: &str) -> (r: Result<Category, String>)
        ensures
            match category_read(text@) {
                Ok(c) => r == Ok::<Category, String>(c),
                Err(m) => r matches Err(e) && e@ == m,
            },
    {
        match Category::from_name(text) {
            Some(c) => return Ok(c),
            None => {},
        }
        match Category::from_label(text) {
            Some(c) => return Ok(c),
            None => {},
        }
        let mut names: Vec<String> = Vec::new();
        let all = Category::all();
        let mut i: usize = 0;
        while i < 12
            invariant
                i <= 12,
                forall|k: int| 0 <= k < 12 ==> all@[k] == nth(k),
                texts(names@) == Seq::new(i as nat, |k: int| name_of(nth(k))),
            decreases 12 - i,
        {
            let n = owned(all[i].name());
            let ghost before = names@;
            assert(texts(before).len() == before.len());
            names.push(n);
            assert(names@ == before.push(n));
            assert(texts(names@).len() == names@.len());
            assert(names@[i as int] == n);
            assert forall|k: int| 0 <= k < i + 1 implies texts(names@)[k] == name_of(nth(k)) by {
                if k < i {
                    assert(texts(before)[k] == name_of(nth(k)));
                }
            }
            assert(texts(names@) =~= Seq::new((i + 1) as nat, |k: int| name_of(nth(k))));
            i = i + 1;
        }
        let mut m = quoted(text);
        push_str(&mut m, " is not a category; one of ");
        let joined = join_strings(names.as_slice(), ", ");
        push_str(&mut m, joined.as_str());
        assert(texts(names@) =~= all_names());
        Err(m)
    }
}

impl core::str::FromStr for Category {
    type Err = String;

    fn from_str(text: &str) -> (r: Result<Self, Self::Err>)
        ensures
            match category_read(text@) {
                Ok(c) => r == Ok::<Category, String>(c),
                Err(m) => r matches Err(e) && e@ == m,
            },
    {
        Category::from_text(text)
    }
}

} // verus!
