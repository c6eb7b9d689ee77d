//! What the program bytes say. Computed, never typed.

use vstd::prelude::*;

use crate::category::{of_value, Category};
use crate::program::{
    algorithm_of, label_of, offset_of, param_label, transpose_of, Param, StoredProgram,
};
use crate::text::{chars_of, decimal, owned, parse_u8, push_decimal, u8_read};

verus! {

/// Facts a host filters and styles by, read out of the parameters.
#[derive(Debug, Clone, PartialEq, Eq)]
pub struct Derived {
    /// The category the program is stored with, if it is one of the twelve.
    pub category: Option<Category>,
    /// The raw category byte, for the message when it is not one of the twelve.
    pub category_value: u8,
    /// The effect routing mode as the instrument labels it.
    pub fx_mode: String,
    /// Full names of the algorithms loaded in the four effect engines, in
    /// engine order, skipping engines whose byte names none.
    pub effects: Vec<String>,
    /// Whether the arpeggiator is on.
    pub arp: bool,
    /// The arpeggiator mode, when it is on.
    pub arp_mode: Option<String>,
    /// The polyphony mode as the instrument labels it: `Poly`, `Unison 4`, `Mono`.
    pub polyphony: String,
    /// Voices stacked per note. 1 unless a unison mode is set.
    pub unison: u8,
    /// How many of the eight modulation routings have a source.
    pub routings: u8,
    /// Whether the control sequencer is enabled.
    pub sequencer: bool,
    /// Program transpose in semitones.
    pub transpose: i8,
}

/// The raw value of a parameter in a program's dump.
pub open spec fn byte_of(p: (u8, Seq<u8>), param: Param) -> u8 {
    p.1[offset_of(param) as int]
}

/// The label the instrument gives a value, or `value N` when it has none.
pub open spec fn label_or_value(param: Param, value: u8) -> Seq<char> {
    match label_of(param, value as u16) {
        Some(l) => l,
        None => "value "@ + decimal(value as nat),
    }
}

/// The names of the algorithms of engines `0..n` that name one.
pub open spec fn effects_upto(p: (u8, Seq<u8>), n: int) -> Seq<Seq<char>>
    decreases n,
{
    if n <= 0 {
        seq![]
    } else {
        match algorithm_of(p, (n - 1) as u8) {
            Some(a) => effects_upto(p, n - 1).push(a),
            None => effects_upto(p, n - 1),
        }
    }
}

/// Voices per note a polyphony label says: the number after `Unison `,
/// else 1.
pub open spec fn unison_of(polyphony: Seq<char>) -> u8 {
    if polyphony.len() >= 7 && polyphony.take(7) == "Unison "@ && u8_read(polyphony.skip(7)) is Some {
        u8_read(polyphony.skip(7)).unwrap()
    } else {
        1
    }
}

/// The modulation routing sources.
pub open spec fn mod_source(i: int) -> Param {
    if i == 0 {
        Param::Mod1Source
    } else if i == 1 {
        Param::Mod2Source
    } else if i == 2 {
        Param::Mod3Source
    } else if i == 3 {
        Param::Mod4Source
    } else if i == 4 {
        Param::Mod5Source
    } else if i == 5 {
        Param::Mod6Source
    } else if i == 6 {
        Param::Mod7Source
    } else {
        Param::Mod8Source
    }
}

/// How many of the first `n` routings have a source.
pub open spec fn routings_upto(p: (u8, Seq<u8>), n: int) -> nat
    decreases n,
{
    if n <= 0 {
        0
    } else {
        routings_upto(p, n - 1) + if byte_of(p, mod_source(n - 1)) != 0 {
            1nat
        } else {
            0nat
        }
    }
}

/// Whether `d` holds what a program's bytes say.
pub open spec fn derived_from(d: Derived, p: (u8, Seq<u8>)) -> bool {
    let arp = byte_of(p, Param::ArpOnOff) != 0;
    let polyphony = label_or_value(Param::PolyphonyMode, byte_of(p, Param::PolyphonyMode));
    &&& d.category == of_value(byte_of(p, Param::ProgramCategory))
    &&& d.category_value == byte_of(p, Param::ProgramCategory)
    &&& d.fx_mode@ == label_or_value(Param::FxMode, byte_of(p, Param::FxMode))
    &&& d.effects@.map_values(|s: String| s@) == effects_upto(p, 4)
    &&& d.arp == arp
    &&& match d.arp_mode {
        Some(m) => arp && label_of(Param::ArpMode, byte_of(p, Param::ArpMode) as u16) == Some(m@),
        None => !arp || label_of(Param::ArpMode, byte_of(p, Param::ArpMode) as u16) is None,
    }
    &&& d.polyphony@ == polyphony
    &&& d.unison == unison_of(polyphony)
    &&& d.routings as nat == routings_upto(p, 8)
    &&& d.sequencer == (byte_of(p, Param::CtrlSequencerEnable) != 0)
    &&& d.transpose == transpose_of(p)
}

/// The label of a value, or `value N`.
pub fn label_or_number(param: Param, value: u8) -> (s: String)
    ensures
        s@ == label_or_value(param, value),
{
    match param_label(param, value as u16) {
        Some(label) => label,
        None => {
            let mut s = owned("value ");
            push_decimal(&mut s, value as u64);
            s
        },
    }
}

fn unison_count(polyphony: &str) -> (r: u8)
    ensures
        r == unison_of(polyphony@),
{
    let chars = chars_of(polyphony);
    let prefix = chars_of("Unison ");
    proof {
        reveal_strlit("Unison ");
    }
    if chars.len() < 7 {
        return 1;
    }
    let mut i: usize = 0;
    while i < 7
        invariant
            i <= 7,
            chars@.len() >= 7,
            prefix@ == "Unison "@,
            prefix@.len() == 7,
            chars@ == polyphony@,
            forall|j: int| 0 <= j < i ==> chars@[j] == prefix@[j],
        decreases 7 - i,
    {
        if chars[i] != prefix[i] {
            assert(chars@.take(7)[i as int] != "Unison "@[i as int]);
            assert(chars@.take(7) != "Unison "@);
            return 1;
        }
        i = i + 1;
    }
    assert(chars@.take(7) =~= "Unison "@);
    let rest = crate::text::slice_of(chars.as_slice(), 7, chars.len());
    assert(rest@ == chars@.skip(7));
    match parse_u8(rest.as_slice()) {
        Some(n) => n,
        None => 1,
    }
}

impl Derived {
    /// Reads the facts out of a program.
    pub fn of(program: &StoredProgram) -> (d: Derived)
        requires
            program.wf(),
        ensures
            derived_from(d, program@),
    {
        let category_value = program.get(Param::ProgramCategory);
        let mut effects: Vec<String> = Vec::new();
        let mut engine: u8 = 0;
        while engine < 4
            invariant
                engine <= 4,
                effects@.map_values(|s: String| s@) == effects_upto(program@, engine as int),
            decreases 4 - engine,
        {
            let ghost before = effects@;
            match program.algorithm(engine) {
                Some(name) => {
                    effects.push(name);
                    assert(effects@.map_values(|s: String| s@) =~= before.map_values(
                        |s: String| s@,
                    ).push(effects@.last()@));
                },
                None => {},
            }
            engine = engine + 1;
        }
        let arp = program.get(Param::ArpOnOff) != 0;
        let arp_mode = if arp {
            param_label(Param::ArpMode, program.get(Param::ArpMode) as u16)
        } else {
            None
        };
        let polyphony = label_or_number(Param::PolyphonyMode, program.get(Param::PolyphonyMode));
        let unison = unison_count(polyphony.as_str());
        let sources = [
            Param::Mod1Source,
            Param::Mod2Source,
            Param::Mod3Source,
            Param::Mod4Source,
            Param::Mod5Source,
            Param::Mod6Source,
            Param::Mod7Source,
            Param::Mod8Source,
        ];
        assert(forall|i: int| 0 <= i < 8 ==> #[trigger] sources@[i] == mod_source(i));
        let mut routings: u8 = 0;
        let mut i: usize = 0;
        while i < 8
            invariant
                i <= 8,
                program.wf(),
                forall|k: int| 0 <= k < 8 ==> #[trigger] sources@[k] == mod_source(k),
                routings as nat == routings_upto(program@, i as int),
                routings <= i,
            decreases 8 - i,
        {
            if program.get(sources[i]) != 0 {
                routings = routings + 1;
            }
            i = i + 1;
        }
        Derived {
            category: Category::from_value(category_value),
            category_value,
            fx_mode: label_or_number(Param::FxMode, program.get(Param::FxMode)),
            effects,
            arp,
            arp_mode,
            polyphony,
            unison,
            routings,
            sequencer: program.get(Param::CtrlSequencerEnable) != 0,
            transpose: program.transpose(),
        }
    }
}

impl Category {
    /// The category a program is stored with.
    pub fn of(program: &StoredProgram) -> (r: Option<Category>)
        requires
            program.wf(),
        ensures
            r == of_value(byte_of(program@, Param::ProgramCategory)),
    {
        Category::from_value(program.get(Param::ProgramCategory))
    }

    /// The label the instrument shows for a stored value, including the ones
    /// that are not categories here.
    pub fn label_of_value(value: u8) -> (s: String)
        ensures
            s@ == label_or_value(Param::ProgramCategory, value),
    {
        label_or_number(Param::ProgramCategory, value)
    }
}

/// One where a byte is set, else none.
pub open spec fn set_count(b: u8) -> nat {
    if b != 0 {
        1
    } else {
        0
    }
}

/// The routings count is how many of the eight modulation sources are set:
/// the bytes at offsets 93, 96, 99, 102, 105, 108, 111 and 114, each counted
/// once.
pub proof fn lemma_routings_count_the_eight_sources(d: Derived, p: (u8, Seq<u8>))
    requires
        derived_from(d, p),
    ensures
        d.routings as nat == set_count(p.1[93]) + set_count(p.1[96]) + set_count(p.1[99]) + set_count(p.1[102])
            + set_count(p.1[105]) + set_count(p.1[108]) + set_count(p.1[111]) + set_count(p.1[114]),
{
    reveal_with_fuel(routings_upto, 9);
}

} // verus!
