//! The order slots are kept in: by folder, component by component, then by
//! stem, the order of a sorted map keyed by path and stem.

use vstd::prelude::*;

verus! {

/// Whether one sequence comes strictly before another, element by element,
/// a proper prefix first.
pub open spec fn lex_less(a: Seq<int>, b: Seq<int>) -> bool
    decreases a.len(),
{
    if b.len() == 0 {
        false
    } else if a.len() == 0 {
        true
    } else if a[0] != b[0] {
        a[0] < b[0]
    } else {
        lex_less(a.drop_first(), b.drop_first())
    }
}

/// Nothing comes before itself.
pub proof fn lemma_lex_irreflexive(a: Seq<int>)
    ensures
        !lex_less(a, a),
    decreases a.len(),
{
    if a.len() > 0 {
        lemma_lex_irreflexive(a.drop_first());
    }
}

/// Coming before is transitive.
pub proof fn lemma_lex_transitive(a: Seq<int>, b: Seq<int>, c: Seq<int>)
    requires
        lex_less(a, b),
        lex_less(b, c),
    ensures
        lex_less(a, c),
    decreases a.len(),
{
    if a.len() > 0 && b.len() > 0 && c.len() > 0 && a[0] == b[0] && b[0] == c[0] {
        lemma_lex_transitive(a.drop_first(), b.drop_first(), c.drop_first());
    }
}

/// Of two different sequences, one comes first.
pub proof fn lemma_lex_total(a: Seq<int>, b: Seq<int>)
    requires
        a != b,
    ensures
        lex_less(a, b) || lex_less(b, a),
    decreases a.len(),
{
    if a.len() > 0 && b.len() > 0 && a[0] == b[0] {
        if a.drop_first() == b.drop_first() {
            assert(a =~= seq![a[0]] + a.drop_first());
            assert(b =~= seq![b[0]] + b.drop_first());
        }
        lemma_lex_total(a.drop_first(), b.drop_first());
    } else if a.len() == 0 && b.len() == 0 {
        assert(a =~= b);
    }
}

/// A character's code in a path: `/` below every other character, so that
/// folders compare component by component.
pub open spec fn path_code(c: char) -> int {
    if c == '/' {
        1
    } else {
        c as int + 2
    }
}

/// A character's code in a stem: in character order.
pub open spec fn char_code(c: char) -> int {
    c as int + 2
}

/// The key a stem in a folder sorts by: the folder's codes, a mark below
/// every code, then the stem's codes.
pub open spec fn slot_key(folder: Seq<char>, stem: Seq<char>) -> Seq<int> {
    folder.map_values(|c: char| path_code(c)) + seq![0int] + stem.map_values(|c: char| char_code(c))
}

/// A character's number is below 0x110000, and different characters have
/// different numbers.
pub proof fn lemma_char_number(c: char, d: char)
    ensures
        0 <= c as int <= 0x10FFFF,
        (c as u32) as int == c as int,
        c as int == d as int ==> c == d,
{
}

/// Different folders or stems give different keys.
pub proof fn lemma_slot_key_injective(f1: Seq<char>, s1: Seq<char>, f2: Seq<char>, s2: Seq<char>)
    requires
        slot_key(f1, s1) == slot_key(f2, s2),
    ensures
        f1 == f2,
        s1 == s2,
{
    let k1 = slot_key(f1, s1);
    let k2 = slot_key(f2, s2);
    if f1.len() < f2.len() {
        assert(k1[f1.len() as int] == 0);
        assert(k2[f1.len() as int] == path_code(f2[f1.len() as int]));
        assert(k1[f1.len() as int] == k2[f1.len() as int]);
        lemma_char_number(f2[f1.len() as int], f2[f1.len() as int]);
        assert(false);
    } else if f2.len() < f1.len() {
        assert(k2[f2.len() as int] == 0);
        assert(k1[f2.len() as int] == path_code(f1[f2.len() as int]));
        assert(k1[f2.len() as int] == k2[f2.len() as int]);
        lemma_char_number(f1[f2.len() as int], f1[f2.len() as int]);
        assert(false);
    }
    assert(f1.len() == f2.len());
    assert forall|i: int| 0 <= i < f1.len() implies f1[i] == f2[i] by {
        lemma_char_number(f1[i], f2[i]);
        lemma_char_number(f2[i], f1[i]);
        assert(k1[i] == path_code(f1[i]));
        assert(k2[i] == path_code(f2[i]));
        assert(k1[i] == k2[i]);
        if f1[i] != '/' && f2[i] != '/' {
            assert(f1[i] as int == f2[i] as int);
        }
    }
    assert(f1 =~= f2);
    assert(k1.len() == f1.len() + 1 + s1.len());
    assert(k2.len() == f2.len() + 1 + s2.len());
    assert(s1.len() == s2.len());
    assert forall|i: int| 0 <= i < s1.len() implies s1[i] == s2[i] by {
        lemma_char_number(s1[i], s2[i]);
        lemma_char_number(s2[i], s1[i]);
        assert(k1[f1.len() + 1 + i] == char_code(s1[i]));
        assert(k2[f2.len() + 1 + i] == char_code(s2[i]));
        assert(k1[f1.len() + 1 + i] == k2[f2.len() + 1 + i]);
    }
    assert(s1 =~= s2);
}

/// The codes of a folder and a stem, as a sequence of integers.
fn key_codes(folder: &str, stem: &str) -> (r: Vec<u32>)
    ensures
        r@.map_values(|x: u32| x as int) == slot_key(folder@, stem@),
{
    let mut out: Vec<u32> = Vec::new();
    let f = crate::text::chars_of(folder);
    let s = crate::text::chars_of(stem);
    let mut i: usize = 0;
    while i < f.len()
        invariant
            i <= f@.len(),
            f@ == folder@,
            out@.map_values(|x: u32| x as int) == f@.take(i as int).map_values(|c: char| path_code(c)),
        decreases f@.len() - i,
    {
        let c = f[i];
        proof {
            lemma_char_number(c, c);
        }
        let code: u32 = if c == '/' {
            1
        } else {
            c as u32 + 2
        };
        let ghost before = out@;
        out.push(code);
        assert(out@.map_values(|x: u32| x as int) =~= before.map_values(|x: u32| x as int).push(
            path_code(c),
        ));
        assert(f@.take(i + 1).map_values(|c: char| path_code(c)) =~= f@.take(i as int).map_values(
            |c: char| path_code(c),
        ).push(path_code(c)));
        i = i + 1;
    }
    let ghost mid = out@;
    out.push(0);
    assert(out@.map_values(|x: u32| x as int) =~= mid.map_values(|x: u32| x as int).push(0));
    let mut j: usize = 0;
    while j < s.len()
        invariant
            j <= s@.len(),
            s@ == stem@,
            f@ == folder@,
            out@.map_values(|x: u32| x as int) == folder@.map_values(|c: char| path_code(c)) + seq![
                0int,
            ] + s@.take(j as int).map_values(|c: char| char_code(c)),
        decreases s@.len() - j,
    {
        let c = s[j];
        proof {
            lemma_char_number(c, c);
        }
        let ghost before = out@;
        out.push(c as u32 + 2);
        assert(out@.map_values(|x: u32| x as int) =~= before.map_values(|x: u32| x as int).push(
            char_code(c),
        ));
        assert(s@.take(j + 1).map_values(|c: char| char_code(c)) =~= s@.take(j as int).map_values(
            |c: char| char_code(c),
        ).push(char_code(c)));
        j = j + 1;
    }
    assert(f@.take(f@.len() as int) =~= f@);
    assert(s@.take(s@.len() as int) =~= s@);
    out
}

/// Whether one integer sequence comes strictly before another.
pub(crate) fn codes_less(a: &Vec<u32>, b: &Vec<u32>) -> (r: bool)
    ensures
        r == lex_less(a@.map_values(|x: u32| x as int), b@.map_values(|x: u32| x as int)),
{
    let ghost sa = a@.map_values(|x: u32| x as int);
    let ghost sb = b@.map_values(|x: u32| x as int);
    let mut i: usize = 0;
    assert(sa.skip(0) =~= sa);
    assert(sb.skip(0) =~= sb);
    while i < a.len() && i < b.len() && a[i] == b[i]
        invariant
            i <= a@.len(),
            i <= b@.len(),
            sa == a@.map_values(|x: u32| x as int),
            sb == b@.map_values(|x: u32| x as int),
            lex_less(sa, sb) == lex_less(sa.skip(i as int), sb.skip(i as int)),
        decreases a@.len() - i,
    {
        assert(sa.skip(i as int).drop_first() =~= sa.skip(i + 1));
        assert(sb.skip(i as int).drop_first() =~= sb.skip(i + 1));
        i = i + 1;
    }
    if i == b.len() {
        false
    } else if i == a.len() {
        true
    } else {
        assert(sa.skip(i as int)[0] == a@[i as int] as int);
        assert(sb.skip(i as int)[0] == b@[i as int] as int);
        a[i] < b[i]
    }
}

/// Whether a stem in a folder sorts strictly before another.
pub fn slot_key_less(folder: &str, stem: &str, other_folder: &str, other_stem: &str) -> (r: bool)
    ensures
        r == lex_less(slot_key(folder@, stem@), slot_key(other_folder@, other_stem@)),
{
    let a = key_codes(folder, stem);
    let b = key_codes(other_folder, other_stem);
    codes_less(&a, &b)
}

/// A path's codes: `/` below every other character.
pub open spec fn path_codes(p: Seq<char>) -> Seq<int> {
    p.map_values(|c: char| path_code(c))
}

fn path_code_vec(path: &str) -> (r: Vec<u32>)
    ensures
        r@.map_values(|x: u32| x as int) == path_codes(path@),
{
    let mut out: Vec<u32> = Vec::new();
    let f = crate::text::chars_of(path);
    let mut i: usize = 0;
    while i < f.len()
        invariant
            i <= f@.len(),
            f@ == path@,
            out@.map_values(|x: u32| x as int) == f@.take(i as int).map_values(|c: char| path_code(c)),
        decreases f@.len() - i,
    {
        let c = f[i];
        proof {
            lemma_char_number(c, c);
        }
        let code: u32 = if c == '/' {
            1
        } else {
            c as u32 + 2
        };
        let ghost before = out@;
        out.push(code);
        assert(out@.map_values(|x: u32| x as int) =~= before.map_values(|x: u32| x as int).push(
            path_code(c),
        ));
        assert(f@.take(i + 1).map_values(|c: char| path_code(c)) =~= f@.take(i as int).map_values(
            |c: char| path_code(c),
        ).push(path_code(c)));
        i = i + 1;
    }
    assert(f@.take(f@.len() as int) =~= f@);
    out
}

/// Whether one path sorts strictly before another, component by component.
pub fn path_before(a: &str, b: &str) -> (r: bool)
    ensures
        r == lex_less(path_codes(a@), path_codes(b@)),
{
    let x = path_code_vec(a);
    let y = path_code_vec(b);
    codes_less(&x, &y)
}

} // verus!
