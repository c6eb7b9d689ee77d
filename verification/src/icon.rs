//! The 7x7 one-bit icon.
//!
//! Written in TOML as seven strings of seven characters, `#` lit and `.` unlit,
//! so the picture is readable in a diff. Row 0 is the top; bit 0 of a row is
//! the left. This crate never renders; it hands out bits.

use vstd::prelude::*;

use crate::error::Error;
use crate::text::{chars_of, debug_char, decimal, owned, push_char, push_decimal, push_str, quoted_char, texts};

verus! {

/// Character for a lit pixel.
pub const LIT: char = '#';

/// Character for an unlit pixel.
pub const UNLIT: char = '.';

/// Dots across and down.
pub const SIDE: usize = 7;

/// A 7x7 one-bit picture. Row 0 is the top; bit 0 of a row is the left.
#[derive(Clone, Copy, PartialEq, Eq, Hash, Debug)]
pub struct Icon {
    rows: [u8; 7],
}

/// The bit a lit character at column `x` sets.
pub open spec fn dot(c: char, x: int) -> int {
    if c != '#' {
        0
    } else if x == 0 {
        1
    } else if x == 1 {
        2
    } else if x == 2 {
        4
    } else if x == 3 {
        8
    } else if x == 4 {
        16
    } else if x == 5 {
        32
    } else {
        64
    }
}

/// The packed row seven characters draw.
pub open spec fn pack(row: Seq<char>) -> u8 {
    (dot(row[0], 0) + dot(row[1], 1) + dot(row[2], 2) + dot(row[3], 3) + dot(row[4], 4) + dot(
        row[5],
        5,
    ) + dot(row[6], 6)) as u8
}

/// Whether bit `x` of a packed row is set.
pub open spec fn lit(row: u8, x: u8) -> bool {
    x < 7 && row & (1u8 << x) != 0
}

/// A row whose low seven bits are clear lights no column.
proof fn lemma_row_without_dot(row: u8, x: u8)
    requires
        row % 128 == 0,
        x < 7,
    ensures
        row & (1u8 << x) == 0,
{
    assert(row % 128 == 0 && x < 7 ==> row & (1u8 << x) == 0) by (bit_vector);
}

/// A row with one of its low seven bits set lights some column.
proof fn lemma_row_with_dot(row: u8)
    requires
        row % 128 != 0,
    ensures
        exists|x: u8| x < 7 && lit(row, x),
{
    assert(row % 128 != 0 ==> (row & (1u8 << 0u8) != 0 || row & (1u8 << 1u8) != 0 || row & (1u8 << 2u8)
        != 0 || row & (1u8 << 3u8) != 0 || row & (1u8 << 4u8) != 0 || row & (1u8 << 5u8) != 0 || row & (
    1u8 << 6u8) != 0)) by (bit_vector);
    if lit(row, 0) {
    } else if lit(row, 1) {
    } else if lit(row, 2) {
    } else if lit(row, 3) {
    } else if lit(row, 4) {
    } else if lit(row, 5) {
    } else {
        assert(lit(row, 6));
    }
}

/// The text of a packed row: `#` where a bit is set, `.` elsewhere.
pub open spec fn row_text(row: u8) -> Seq<char> {
    Seq::new(7, |x: int| if lit(row, x as u8) { '#' } else { '.' })
}

/// What is wrong with one text row, if anything: its length, or its first
/// character that is neither `#` nor `.`.
pub open spec fn row_problem(y: int, row: Seq<char>) -> Option<Seq<char>> {
    if row.len() != 7 {
        Some("row "@ + decimal((y + 1) as nat) + " has "@ + decimal(row.len()) + " characters, expected 7"@)
    } else if exists|x: int| 0 <= x < 7 && row[x] != '#' && row[x] != '.' {
        let x = choose|x: int|
            0 <= x < 7 && row[x] != '#' && row[x] != '.' && forall|z: int|
                0 <= z < x ==> row[z] == '#' || row[z] == '.';
        Some("row "@ + decimal((y + 1) as nat) + " column "@ + decimal((x + 1) as nat) + " is "@
            + debug_char(row[x]) + ", expected '#' or '.'"@)
    } else {
        None
    }
}

/// What parsing text rows gives: the packed rows, or the first problem.
pub open spec fn icon_read(rows: Seq<Seq<char>>) -> Result<Seq<u8>, Seq<char>> {
    if rows.len() != 7 {
        Err("expected 7 rows, found "@ + decimal(rows.len()))
    } else if exists|y: int| 0 <= y < 7 && #[trigger] row_problem(y, rows[y]) is Some {
        let y = choose|y: int|
            0 <= y < 7 && #[trigger] row_problem(y, rows[y]) is Some && forall|z: int|
                0 <= z < y ==> #[trigger] row_problem(z, rows[z]) is None;
        Err(row_problem(y, rows[y])->Some_0)
    } else {
        Ok(Seq::new(7, |y: int| pack(rows[y])))
    }
}


/// A packed row below 128 reads back from its text unchanged.
proof fn lemma_pack_row_text(b: u8)
    requires
        b < 128,
    ensures
        pack(row_text(b)) == b,
        row_text(b).len() == 7,
        forall|x: int| 0 <= x < 7 ==> #[trigger] row_text(b)[x] == '#' || row_text(b)[x] == '.',
{
    let t = row_text(b);
    let d0: u8 = if b & 1u8 != 0 { 1 } else { 0 };
    let d1: u8 = if b & 2u8 != 0 { 2 } else { 0 };
    let d2: u8 = if b & 4u8 != 0 { 4 } else { 0 };
    let d3: u8 = if b & 8u8 != 0 { 8 } else { 0 };
    let d4: u8 = if b & 16u8 != 0 { 16 } else { 0 };
    let d5: u8 = if b & 32u8 != 0 { 32 } else { 0 };
    let d6: u8 = if b & 64u8 != 0 { 64 } else { 0 };
    assert(b == d0 + d1 + d2 + d3 + d4 + d5 + d6) by (bit_vector)
        requires
            b < 128,
            d0 == (if b & 1u8 != 0 { 1u8 } else { 0u8 }),
            d1 == (if b & 2u8 != 0 { 2u8 } else { 0u8 }),
            d2 == (if b & 4u8 != 0 { 4u8 } else { 0u8 }),
            d3 == (if b & 8u8 != 0 { 8u8 } else { 0u8 }),
            d4 == (if b & 16u8 != 0 { 16u8 } else { 0u8 }),
            d5 == (if b & 32u8 != 0 { 32u8 } else { 0u8 }),
            d6 == (if b & 64u8 != 0 { 64u8 } else { 0u8 }),
    ;
    assert(1u8 << 0u8 == 1u8 && 1u8 << 1u8 == 2u8 && 1u8 << 2u8 == 4u8 && 1u8 << 3u8 == 8u8)
        by (bit_vector);
    assert(1u8 << 4u8 == 16u8 && 1u8 << 5u8 == 32u8 && 1u8 << 6u8 == 64u8) by (bit_vector);
    assert(dot(t[0], 0) == d0);
    assert(dot(t[1], 1) == d1);
    assert(dot(t[2], 2) == d2);
    assert(dot(t[3], 3) == d3);
    assert(dot(t[4], 4) == d4);
    assert(dot(t[5], 5) == d5);
    assert(dot(t[6], 6) == d6);
}

/// Seven characters, each `#` or `.`, are drawn back unchanged from the row
/// they pack to.
proof fn lemma_row_text_pack(row: Seq<char>)
    requires
        row.len() == 7,
        forall|x: int| 0 <= x < 7 ==> row[x] == '#' || row[x] == '.',
    ensures
        row_text(pack(row)) == row,
        pack(row) < 128,
{
    let d0: u8 = dot(row[0], 0) as u8;
    let d1: u8 = dot(row[1], 1) as u8;
    let d2: u8 = dot(row[2], 2) as u8;
    let d3: u8 = dot(row[3], 3) as u8;
    let d4: u8 = dot(row[4], 4) as u8;
    let d5: u8 = dot(row[5], 5) as u8;
    let d6: u8 = dot(row[6], 6) as u8;
    let v: u8 = pack(row);
    assert(v == d0 + d1 + d2 + d3 + d4 + d5 + d6);
    assert(v < 128 && (v & 1u8 != 0 <==> d0 != 0) && (v & 2u8 != 0 <==> d1 != 0) && (v & 4u8 != 0
        <==> d2 != 0) && (v & 8u8 != 0 <==> d3 != 0) && (v & 16u8 != 0 <==> d4 != 0) && (v & 32u8
        != 0 <==> d5 != 0) && (v & 64u8 != 0 <==> d6 != 0)) by (bit_vector)
        requires
            d0 == 0 || d0 == 1,
            d1 == 0 || d1 == 2,
            d2 == 0 || d2 == 4,
            d3 == 0 || d3 == 8,
            d4 == 0 || d4 == 16,
            d5 == 0 || d5 == 32,
            d6 == 0 || d6 == 64,
            v == d0 + d1 + d2 + d3 + d4 + d5 + d6,
    ;
    assert(1u8 << 0u8 == 1u8 && 1u8 << 1u8 == 2u8 && 1u8 << 2u8 == 4u8 && 1u8 << 3u8 == 8u8)
        by (bit_vector);
    assert(1u8 << 4u8 == 16u8 && 1u8 << 5u8 == 32u8 && 1u8 << 6u8 == 64u8) by (bit_vector);
    assert(row_text(v) =~= row);
}

/// Printing an icon's rows and parsing them gives the icon back, for every
/// icon whose rows use only the seven pixel bits.
pub proof fn lemma_print_then_parse(bits: Seq<u8>)
    requires
        bits.len() == 7,
        forall|y: int| 0 <= y < 7 ==> bits[y] < 128,
    ensures
        icon_read(Seq::new(7, |y: int| row_text(bits[y]))) == Ok::<Seq<u8>, Seq<char>>(bits),
{
    let rows = Seq::new(7, |y: int| row_text(bits[y]));
    assert forall|y: int| 0 <= y < 7 implies #[trigger] row_problem(y, rows[y]) is None by {
        lemma_row_text_clean(y, bits[y]);
    }
    assert forall|y: int| 0 <= y < 7 implies #[trigger] pack(rows[y]) == bits[y] by {
        lemma_pack_row_text(bits[y]);
    }
    assert(Seq::new(7, |y: int| pack(rows[y])) =~= bits);
}

proof fn lemma_row_text_clean(y: int, b: u8)
    requires
        b < 128,
    ensures
        row_problem(y, row_text(b)) is None,
{
    lemma_pack_row_text(b);
    let t = row_text(b);
    assert(!exists|x: int| 0 <= x < 7 && t[x] != '#' && t[x] != '.');
}

/// Text rows that parse are exactly the rows the parsed icon prints.
pub proof fn lemma_parse_then_print(rows: Seq<Seq<char>>)
    requires
        icon_read(rows) is Ok,
    ensures
        Seq::new(7, |y: int| row_text(icon_read(rows)->Ok_0[y])) == rows,
        forall|y: int| 0 <= y < 7 ==> icon_read(rows)->Ok_0[y] < 128,
{
    assert(rows.len() == 7);
    assert forall|y: int| 0 <= y < 7 implies row_text(#[trigger] pack(rows[y])) == rows[y] && pack(
        rows[y],
    ) < 128 by {
        assert(row_problem(y, rows[y]) is None);
        lemma_row_text_pack(rows[y]);
    }
    assert(Seq::new(7, |y: int| row_text(icon_read(rows)->Ok_0[y])) =~= rows);
}

#[verifier::external_type_specification]
#[verifier::external_body]
pub struct ExPixels(deepmind_midi::pixels::Pixels);

/// The rows a protocol crate grid holds, top to bottom, bit 0 leftmost.
pub uninterp spec fn grid_rows(pixels: deepmind_midi::pixels::Pixels) -> Seq<u8>;

/// A grid from its rows (`Pixels::new`).
///
/// Trusted: the source stores the rows as given, so the grid holds them.
#[verifier::external_body]
fn grid_of(rows: [u8; 7]) -> (r: deepmind_midi::pixels::Pixels)
    ensures
        grid_rows(r) == rows@,
{
    deepmind_midi::pixels::Pixels::new(rows)
}

/// A grid's rows (`Pixels::rows`).
///
/// Trusted: the source hands back the seven rows it holds.
#[verifier::external_body]
fn rows_of_grid(pixels: &deepmind_midi::pixels::Pixels) -> (r: [u8; 7])
    ensures
        r@ == grid_rows(*pixels),
{
    *pixels.rows()
}

impl Icon {
    /// Dots across and down.
    pub const SIDE: usize = 7;

    /// The packed rows.
    pub closed spec fn bits(self) -> Seq<u8> {
        self.rows@
    }

    /// Whether no dot of the grid is lit: each row's low seven bits are
    /// clear (the eighth bit of a row lies outside the grid).
    pub open spec fn nothing_lit(self) -> bool {
        forall|y: int| 0 <= y < 7 ==> self.bits()[y] % 128 == 0
    }

    /// An icon has seven rows.
    pub proof fn lemma_seven_rows(self)
        ensures
            self.bits().len() == 7,
    {
    }

    /// Builds an icon from packed rows, bit 0 leftmost.
    pub fn from_rows(rows: [u8; 7]) -> (icon: Icon)
        ensures
            icon.bits() == rows@,
    {
        Icon { rows }
    }

    /// The same picture as the protocol crate's grid type.
    pub fn pixels(&self) -> (r: deepmind_midi::pixels::Pixels)
        ensures
            grid_rows(r) == self.bits(),
    {
        grid_of(self.rows)
    }

    /// Builds an icon from the protocol crate's grid type.
    pub fn from_pixels(pixels: &deepmind_midi::pixels::Pixels) -> (icon: Icon)
        ensures
            icon.bits() == grid_rows(*pixels),
    {
        Icon { rows: rows_of_grid(pixels) }
    }

    /// The icon with nothing lit.
    pub fn blank() -> (icon: Icon)
        ensures
            icon.bits() == seq![0u8, 0, 0, 0, 0, 0, 0],
    {
        let rows = [0u8; 7];
        assert(rows@ =~= seq![0u8, 0, 0, 0, 0, 0, 0]);
        Icon { rows }
    }

    /// Whether two icons have the same rows.
    pub fn same(&self, other: &Icon) -> (r: bool)
        ensures
            r == (self.bits() == other.bits()),
    {
        let mut y: usize = 0;
        while y < 7
            invariant
                y <= 7,
                forall|j: int| 0 <= j < y ==> self.rows@[j] == other.rows@[j],
            decreases 7 - y,
        {
            if self.rows[y] != other.rows[y] {
                return false;
            }
            y = y + 1;
        }
        assert(self.rows@ =~= other.rows@);
        true
    }

    /// Parses the seven text rows the TOML carries.
    ///
    /// Anything but exactly seven rows of exactly seven `#` or `.` characters
    /// is refused.
    pub fn parse(rows: &[String]) -> (r: Result<Icon, Error>)
        ensures
            match icon_read(texts(rows@)) {
                Ok(bits) => r matches Ok(icon) && icon.bits() == bits,
                Err(m) => r matches Err(Error::Icon(message)) && message@ == m,
            },
    {
        let ghost t = texts(rows@);
        if rows.len() != 7 {
            let mut m = owned("expected 7 rows, found ");
            push_decimal(&mut m, rows.len() as u64);
            return Err(Error::Icon(m));
        }
        let mut packed = [0u8; 7];
        let mut y: usize = 0;
        while y < 7
            invariant
                y <= 7,
                rows@.len() == 7,
                t == texts(rows@),
                forall|z: int| 0 <= z < y ==> #[trigger] row_problem(z, t[z]) is None,
                forall|z: int| 0 <= z < y ==> packed@[z] == #[trigger] pack(t[z]),
            decreases 7 - y,
        {
            assert(t[y as int] == rows@[y as int]@);
            let row = chars_of(rows[y].as_str());
            match Self::parse_row(y, row.as_slice()) {
                Ok(bits) => {
                    packed[y] = bits;
                },
                Err(m) => {
                    proof {
                        assert(row_problem(y as int, t[y as int]) is Some);
                        let w = choose|w: int|
                            0 <= w < 7 && #[trigger] row_problem(w, t[w]) is Some && forall|z: int|
                                0 <= z < w ==> #[trigger] row_problem(z, t[z]) is None;
                        if w < y {
                            assert(row_problem(w, t[w]) is None);
                        }
                        if w > y {
                            assert(row_problem(y as int, t[y as int]) is None);
                        }
                    }
                    return Err(Error::Icon(m));
                },
            }
            y = y + 1;
        }
        proof {
            assert(!exists|z: int| 0 <= z < 7 && #[trigger] row_problem(z, t[z]) is Some);
            assert(packed@ =~= Seq::new(7, |z: int| pack(t[z])));
        }
        Ok(Icon { rows: packed })
    }

    fn parse_row(y: usize, row: &[char]) -> (r: Result<u8, String>)
        requires
            y < 7,
        ensures
            match row_problem(y as int, row@) {
                None => r == Ok::<u8, String>(pack(row@)),
                Some(m) => r matches Err(message) && message@ == m,
            },
    {
        if row.len() != 7 {
            let mut m = owned("row ");
            push_decimal(&mut m, y as u64 + 1);
            push_str(&mut m, " has ");
            push_decimal(&mut m, row.len() as u64);
            push_str(&mut m, " characters, expected 7");
            return Err(m);
        }
        let mut x: usize = 0;
        while x < 7
            invariant
                x <= 7,
                row@.len() == 7,
                y < 7,
                forall|z: int| 0 <= z < x ==> row@[z] == '#' || row@[z] == '.',
            decreases 7 - x,
        {
            let c = row[x];
            if c != '#' && c != '.' {
                proof {
                    let w = choose|w: int|
                        0 <= w < 7 && row@[w] != '#' && row@[w] != '.' && forall|z: int|
                            0 <= z < w ==> row@[z] == '#' || row@[z] == '.';
                    if w < x {
                    } else if w > x {
                        assert(row@[x as int] == '#' || row@[x as int] == '.');
                    }
                }
                let mut m = owned("row ");
                push_decimal(&mut m, y as u64 + 1);
                push_str(&mut m, " column ");
                push_decimal(&mut m, x as u64 + 1);
                push_str(&mut m, " is ");
                let q = quoted_char(c);
                push_str(&mut m, q.as_str());
                push_str(&mut m, ", expected '#' or '.'");
                return Err(m);
            }
            x = x + 1;
        }
        let mut bits: u8 = 0;
        if row[0] == '#' { bits = bits + 1; }
        if row[1] == '#' { bits = bits + 2; }
        if row[2] == '#' { bits = bits + 4; }
        if row[3] == '#' { bits = bits + 8; }
        if row[4] == '#' { bits = bits + 16; }
        if row[5] == '#' { bits = bits + 32; }
        if row[6] == '#' { bits = bits + 64; }
        Ok(bits)
    }

    /// The seven text rows, as the TOML writes them.
    pub fn rows_text(&self) -> (r: Vec<String>)
        ensures
            texts(r@) == Seq::new(7, |y: int| row_text(self.bits()[y])),
    {
        let mut out: Vec<String> = Vec::new();
        let mut y: usize = 0;
        while y < 7
            invariant
                y <= 7,
                texts(out@) == Seq::new(y as nat, |j: int| row_text(self.rows@[j])),
            decreases 7 - y,
        {
            let mut s = String::new();
            let mut x: u8 = 0;
            while x < 7
                invariant
                    x <= 7,
                    y < 7,
                    s@ == row_text(self.rows@[y as int]).take(x as int),
                decreases 7 - x,
            {
                if self.is_lit(x as usize, y) {
                    push_char(&mut s, '#');
                } else {
                    push_char(&mut s, '.');
                }
                assert(row_text(self.rows@[y as int]).take(x + 1) =~= row_text(self.rows@[y as int]).take(x as int).push(
                    if lit(self.rows@[y as int], x) { '#' } else { '.' },
                ));
                x = x + 1;
            }
            assert(row_text(self.rows@[y as int]).take(7) =~= row_text(self.rows@[y as int]));
            let ghost before = out@;
            out.push(s);
            assert(texts(out@) =~= texts(before).push(s@));
            assert(texts(out@) =~= Seq::new((y + 1) as nat, |j: int| row_text(self.rows@[j])));
            y = y + 1;
        }
        out
    }

    /// Packed rows, bit 0 leftmost.
    pub fn rows(&self) -> (r: &[u8; 7])
        ensures
            r@ == self.bits(),
    {
        &self.rows
    }

    /// Whether the pixel at `x`, `y` is lit. `false` outside the grid.
    pub fn is_lit(&self, x: usize, y: usize) -> (r: bool)
        ensures
            r == (y < 7 && x < 7 && lit(self.bits()[y as int], x as u8)),
    {
        if x < 7 && y < 7 {
            let row = self.rows[y];
            let shift = x as u8;
            row & (1u8 << shift) != 0
        } else {
            false
        }
    }

    /// Whether nothing is lit.
    pub fn is_blank(&self) -> (r: bool)
        ensures
            r == self.nothing_lit(),
            r == (forall|x: u8, y: int| 0 <= y < 7 && x < 7 ==> !#[trigger] lit(self.bits()[y], x)),
    {
        let mut y: usize = 0;
        while y < 7
            invariant
                y <= 7,
                forall|j: int| 0 <= j < y ==> self.rows@[j] % 128 == 0,
            decreases 7 - y,
        {
            if self.rows[y] % 128 != 0 {
                proof {
                    lemma_row_with_dot(self.rows@[y as int]);
                    let x = choose|x: u8| x < 7 && lit(self.rows@[y as int], x);
                    assert(lit(self.bits()[y as int], x));
                    assert(self.bits()[y as int] % 128 != 0);
                }
                return false;
            }
            y = y + 1;
        }
        proof {
            assert forall|x: u8, y: int| 0 <= y < 7 && x < 7 implies !#[trigger] lit(self.bits()[y], x) by {
                lemma_row_without_dot(self.rows@[y], x);
            }
        }
        true
    }
}

impl Default for Icon {
    fn default() -> (icon: Icon)
        ensures
            icon.bits() == seq![0u8, 0, 0, 0, 0, 0, 0],
    {
        Icon::blank()
    }
}

} // verus!
