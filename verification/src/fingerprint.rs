//! The identity of a sound.
//!
//! A fingerprint is the SHA-256 of the program's parameter bytes with the name
//! and the category left out. A program dumped from an instrument after loading
//! matches the file it came from: bank, slot and sysex framing are not part of
//! the program, and renaming or recategorising on the front panel does not make
//! it a different sound. Any other edit does.

use vstd::prelude::*;

use vstd::string::StringSliceAdditionalSpecFns;

use crate::error::Error;
use crate::program::{offset_of, param_offset, Param, StoredProgram, PARAMETER_COUNT};
use crate::text::{char_of_ascii, debug_quoted, decimal, hex_digit, owned, push_char, push_decimal, push_str, quoted};

verus! {

broadcast use {
    vstd::utf8::is_char_boundary_iff_not_is_continuation_byte,
    vstd::utf8::is_char_boundary_start_end_of_seq,
    vstd::utf8::encode_utf8_valid_utf8,
    vstd::utf8::encode_utf8_decode_utf8,
};

/// The SHA-256 digest of some bytes.
pub uninterp spec fn sha256(data: Seq<u8>) -> Seq<u8>;

/// SHA-256 (`sha2::Sha256::digest`).
///
/// Trusted: the digest is named by [`sha256`], a function of the bytes alone;
/// nothing else about it is claimed.
#[verifier::external_body]
pub(crate) fn sha256_digest(data: &[u8]) -> (digest: [u8; 32])
    ensures
        digest@ == sha256(data@),
{
    <sha2::Sha256 as sha2::Digest>::digest(data).into()
}

/// SHA-256 over what makes a program sound the way it does.
#[derive(Clone, Copy, PartialEq, Eq, Hash, PartialOrd, Ord, Debug)]
pub struct Fingerprint(pub [u8; 32]);

/// Two lowercase hex digits per byte.
pub open spec fn hex_of(bytes: Seq<u8>) -> Seq<char>
    decreases bytes.len(),
{
    if bytes.len() == 0 {
        seq![]
    } else {
        hex_of(bytes.drop_last()) + seq![
            hex_digit((bytes.last() / 16) as nat),
            hex_digit((bytes.last() % 16) as nat),
        ]
    }
}

fn hex_lower(d: u8) -> (c: char)
    requires
        d < 16,
    ensures
        c == hex_digit(d as nat),
{
    if d < 10 {
        char_of_ascii(48 + d)
    } else {
        char_of_ascii(87 + d)
    }
}

/// Lowercase hex, two digits per byte.
pub fn hex(bytes: &[u8]) -> (s: String)
    ensures
        s@ == hex_of(bytes@),
{
    let mut s = String::new();
    let mut i: usize = 0;
    while i < bytes.len()
        invariant
            i <= bytes@.len(),
            s@ == hex_of(bytes@.take(i as int)),
        decreases bytes@.len() - i,
    {
        assert(bytes@.take(i + 1).drop_last() == bytes@.take(i as int));
        push_char(&mut s, hex_lower(bytes[i] / 16));
        push_char(&mut s, hex_lower(bytes[i] % 16));
        i = i + 1;
    }
    assert(bytes@.take(bytes@.len() as int) == bytes@);
    s
}

/// SHA-256 of a whole file, for download integrity. Hex.
pub fn sha256_hex(bytes: &[u8]) -> (s: String)
    ensures
        s@ == hex_of(sha256(bytes@)),
{
    let digest = sha256_digest(bytes);
    hex(&digest)
}

/// The value of an ASCII hex digit, either case.
pub open spec fn hex_value(b: u8) -> Option<nat> {
    if 48 <= b <= 57 {
        Some((b - 48) as nat)
    } else if 97 <= b <= 102 {
        Some((b - 87) as nat)
    } else if 65 <= b <= 70 {
        Some((b - 55) as nat)
    } else {
        None
    }
}

/// The byte two ASCII hex digits spell, high digit first.
pub open spec fn pair_value(b0: u8, b1: u8) -> Option<nat> {
    match (hex_value(b0), hex_value(b1)) {
        (Some(h), Some(l)) => Some(h * 16 + l),
        _ => None,
    }
}

/// Whether a byte offset of UTF-8 text starts a character or ends the text.
pub open spec fn on_boundary(b: Seq<u8>, k: int) -> bool {
    k == b.len() || (0 <= k < b.len() && !(0x80 <= b[k] <= 0xbf))
}

/// What reading pair `i` of the text's bytes gives: the byte, or the message.
pub open spec fn pair_read(b: Seq<u8>, i: int) -> Result<u8, Seq<char>> {
    if !on_boundary(b, 2 * i) || !on_boundary(b, 2 * i + 2) {
        Err("not ASCII"@)
    } else if b[2 * i] < 128 && b[2 * i + 1] < 128 && pair_value(b[2 * i], b[2 * i + 1]) is Some {
        Ok(pair_value(b[2 * i], b[2 * i + 1]).unwrap() as u8)
    } else {
        Err(debug_quoted(vstd::utf8::decode_utf8(b.subrange(2 * i, 2 * i + 2))) + " is not hex"@)
    }
}

/// What reading 64 hex digits gives: the digest, or the first message.
pub open spec fn fingerprint_read(text: Seq<char>) -> Result<Seq<u8>, Seq<char>> {
    let b = vstd::utf8::encode_utf8(text);
    if b.len() != 64 {
        Err("expected 64 hex digits, found "@ + decimal(b.len()))
    } else if exists|i: int| 0 <= i < 32 && #[trigger] pair_read(b, i) is Err {
        let i = choose|i: int|
            0 <= i < 32 && #[trigger] pair_read(b, i) is Err && forall|j: int|
                0 <= j < i ==> #[trigger] pair_read(b, j) is Ok;
        Err(pair_read(b, i)->Err_0)
    } else {
        Ok(Seq::new(32, |i: int| pair_read(b, i)->Ok_0))
    }
}

impl Fingerprint {
    /// The raw digest.
    pub fn as_bytes(&self) -> (r: &[u8; 32])
        ensures
            *r == self.0,
    {
        &self.0
    }

    /// Whether two fingerprints are the same digest.
    pub fn same(&self, other: &Fingerprint) -> (r: bool)
        ensures
            r == (self.0@ == other.0@),
    {
        let mut i: usize = 0;
        while i < 32
            invariant
                i <= 32,
                forall|j: int| 0 <= j < i ==> self.0@[j] == other.0@[j],
            decreases 32 - i,
        {
            if self.0[i] != other.0[i] {
                return false;
            }
            i = i + 1;
        }
        assert(self.0@ =~= other.0@);
        true
    }

    /// Lowercase hex, 64 characters.
    pub fn to_hex(&self) -> (s: String)
        ensures
            s@ == hex_of(self.0@),
    {
        hex(&self.0)
    }

    /// Reads 64 hex digits.
    pub fn parse(text: &str) -> (r: Result<Self, Error>)
        ensures
            match fingerprint_read(text@) {
                Ok(digest) => r matches Ok(f) && f.0@ == digest,
                Err(m) => r matches Err(Error::Fingerprint(message)) && message@ == m,
            },
    {
        let b = text.as_bytes();
        if b.len() != 64 {
            let mut m = owned("expected 64 hex digits, found ");
            push_decimal(&mut m, b.len() as u64);
            return Err(Error::Fingerprint(m));
        }
        let mut bytes = [0u8; 32];
        let mut i: usize = 0;
        while i < 32
            invariant
                i <= 32,
                b@ == vstd::utf8::encode_utf8(text@),
                b@.len() == 64,
                forall|j: int| 0 <= j < i ==> #[trigger] pair_read(b@, j) is Ok,
                forall|j: int| 0 <= j < i ==> bytes@[j] == #[trigger] pair_read(b@, j)->Ok_0,
            decreases 32 - i,
        {
            let start = 2 * i;
            let end = 2 * i + 2;
            let start_ok = start == 64 || !(0x80 <= b[start] && b[start] <= 0xbf);
            let end_ok = end == 64 || !(0x80 <= b[end] && b[end] <= 0xbf);
            if !start_ok || !end_ok {
                assert(pair_read(b@, i as int) is Err);
                proof { Self::lemma_first_error(b@, i as int); }
                return Err(Error::Fingerprint(owned("not ASCII")));
            }
            let b0 = b[start];
            let b1 = b[start + 1];
            let value = if b0 < 128 && b1 < 128 {
                Self::pair(b0, b1)
            } else {
                None
            };
            match value {
                Some(v) => {
                    bytes[i] = v;
                },
                None => {
                    proof {
                        Self::lemma_first_error(b@, i as int);
                        vstd::utf8::is_char_boundary_iff_not_is_continuation_byte(b@, start as int);
                        if end < 64 {
                            vstd::utf8::is_char_boundary_iff_not_is_continuation_byte(b@, end as int);
                        }
                    }
                    let (_, rest) = text.split_at(start);
                    proof {
                        assert(rest.spec_bytes() =~= b@.subrange(start as int, 64));
                        if end < 64 {
                            vstd::utf8::is_char_boundary_iff_not_is_continuation_byte(rest.spec_bytes(), 2);
                        }
                    }
                    let (pair, _) = rest.split_at(2);
                    proof {
                        assert(pair.spec_bytes() =~= b@.subrange(start as int, end as int));
                        assert(vstd::utf8::decode_utf8(vstd::utf8::encode_utf8(pair@)) == pair@);
                    }
                    let mut m = quoted(pair);
                    push_str(&mut m, " is not hex");
                    return Err(Error::Fingerprint(m));
                },
            }
            i = i + 1;
        }
        proof {
            assert(!exists|j: int| 0 <= j < 32 && #[trigger] pair_read(b@, j) is Err);
            assert(bytes@ =~= Seq::new(32, |j: int| pair_read(b@, j)->Ok_0));
        }
        Ok(Fingerprint(bytes))
    }

    proof fn lemma_first_error(b: Seq<u8>, i: int)
        requires
            0 <= i < 32,
            b.len() == 64,
            pair_read(b, i) is Err,
            forall|j: int| 0 <= j < i ==> #[trigger] pair_read(b, j) is Ok,
        ensures
            ({
                let w = choose|w: int|
                    0 <= w < 32 && #[trigger] pair_read(b, w) is Err && forall|j: int|
                        0 <= j < w ==> #[trigger] pair_read(b, j) is Ok;
                w == i
            }),
    {
        let w = choose|w: int|
            0 <= w < 32 && #[trigger] pair_read(b, w) is Err && forall|j: int|
                0 <= j < w ==> #[trigger] pair_read(b, j) is Ok;
        assert(pair_read(b, i) is Err);
        if w < i {
            assert(pair_read(b, w) is Ok);
        } else if w > i {
            assert(pair_read(b, i) is Ok);
        }
    }

    fn pair(b0: u8, b1: u8) -> (r: Option<u8>)
        ensures
            match pair_value(b0, b1) {
                Some(v) => r == Some(v as u8) && v < 256,
                None => r is None,
            },
    {
        let lo = match Self::digit(b1) {
            Some(d) => d,
            None => return None,
        };
        match Self::digit(b0) {
            Some(hi) => Some(hi * 16 + lo),
            None => None,
        }
    }

    fn digit(b: u8) -> (r: Option<u8>)
        ensures
            match hex_value(b) {
                Some(v) => r == Some(v as u8) && v < 16,
                None => r is None,
            },
    {
        if 48 <= b && b <= 57 {
            Some(b - 48)
        } else if 97 <= b && b <= 102 {
            Some(b - 87)
        } else if 65 <= b && b <= 70 {
            Some(b - 55)
        } else {
            None
        }
    }
}

impl core::str::FromStr for Fingerprint {
    type Err = Error;

    fn from_str(text: &str) -> (r: Result<Self, Self::Err>)
        ensures
            match fingerprint_read(text@) {
                Ok(digest) => r matches Ok(f) && f.0@ == digest,
                Err(m) => r matches Err(Error::Fingerprint(message)) && message@ == m,
            },
    {
        Fingerprint::parse(text)
    }
}

/// Whether an offset is one the fingerprint leaves out: the name
/// characters through the category.
pub open spec fn left_out(offset: int) -> bool {
    offset_of(Param::ProgramNameChar1) <= offset <= offset_of(Param::ProgramCategory)
}

/// The parameter bytes of the first `n` offsets that the fingerprint covers,
/// in offset order.
pub open spec fn sound_upto(data: Seq<u8>, n: int) -> Seq<u8>
    decreases n,
{
    if n <= 0 {
        seq![]
    } else if left_out(n - 1) {
        sound_upto(data, n - 1)
    } else {
        sound_upto(data, n - 1).push(data[n - 1])
    }
}

/// What the fingerprint hashes: every parameter byte but the name and the
/// category, in offset order.
pub open spec fn sound_bytes(data: Seq<u8>) -> Seq<u8> {
    sound_upto(data, PARAMETER_COUNT as int)
}

impl Fingerprint {
    /// Fingerprints a program.
    pub fn of(program: &StoredProgram) -> (f: Fingerprint)
        requires
            program.wf(),
        ensures
            f.0@ == sha256(sound_bytes(program@.1)),
    {
        let first = param_offset(Param::ProgramNameChar1) as usize;
        let last = param_offset(Param::ProgramCategory) as usize;
        let data = program.as_bytes();
        let mut bytes: Vec<u8> = Vec::new();
        let mut offset: usize = 0;
        while offset < PARAMETER_COUNT
            invariant
                offset <= PARAMETER_COUNT,
                data@ == program@.1,
                data@.len() >= PARAMETER_COUNT,
                first as nat == offset_of(Param::ProgramNameChar1),
                last as nat == offset_of(Param::ProgramCategory),
                bytes@ == sound_upto(data@, offset as int),
            decreases PARAMETER_COUNT - offset,
        {
            if !(first <= offset && offset <= last) {
                bytes.push(data[offset]);
            }
            offset = offset + 1;
        }
        Fingerprint(sha256_digest(bytes.as_slice()))
    }
}

proof fn lemma_sound_upto_agree(a: Seq<u8>, b: Seq<u8>, n: int)
    requires
        0 <= n <= a.len(),
        n <= b.len(),
        forall|i: int| 0 <= i < n && !left_out(i) ==> a[i] == b[i],
    ensures
        sound_upto(a, n) == sound_upto(b, n),
    decreases n,
{
    if n > 0 {
        lemma_sound_upto_agree(a, b, n - 1);
    }
}

/// Renaming or recategorising does not make a program a different sound:
/// two programs whose parameter bytes agree everywhere but in the name and
/// the category have the same fingerprint. Bytes past the parameters do not
/// count either.
pub proof fn lemma_name_and_category_do_not_count(a: StoredProgram, b: StoredProgram)
    requires
        a.wf(),
        b.wf(),
        forall|i: int| 0 <= i < PARAMETER_COUNT && !left_out(i) ==> a@.1[i] == b@.1[i],
    ensures
        sha256(sound_bytes(a@.1)) == sha256(sound_bytes(b@.1)),
{
    lemma_sound_upto_agree(a@.1, b@.1, PARAMETER_COUNT as int);
}

proof fn lemma_sound_upto_shape(data: Seq<u8>, n: int)
    requires
        0 <= n <= data.len(),
    ensures
        n <= 223 ==> sound_upto(data, n) == data.take(n),
        223 < n <= 241 ==> sound_upto(data, n) == data.take(223),
        241 < n ==> sound_upto(data, n) == data.take(223) + data.subrange(241, n),
    decreases n,
{
    if n > 0 {
        lemma_sound_upto_shape(data, n - 1);
        if n <= 223 {
            assert(data.take(n - 1).push(data[n - 1]) =~= data.take(n));
        } else if n == 242 || n > 242 {
            if n == 242 {
                assert(data.take(223) + data.subrange(241, n) =~= data.take(223).push(data[241]));
            } else {
                assert((data.take(223) + data.subrange(241, n - 1)).push(data[n - 1]) =~= data.take(223)
                    + data.subrange(241, n));
            }
        }
    }
}

/// What a fingerprint hashes is every parameter byte but the seventeen name
/// characters and the category (offsets 223 to 240): the bytes before the
/// name, then the transposition at 241. So any edit outside the name and the
/// category, an effect routing at 222 say, changes what is hashed, and 224 of
/// the 242 parameter bytes count.
pub proof fn lemma_fingerprint_covers_the_sound(data: Seq<u8>)
    requires
        data.len() >= PARAMETER_COUNT,
    ensures
        sound_bytes(data) == data.take(223) + data.subrange(241, 242),
        sound_bytes(data).len() == PARAMETER_COUNT - 18,
{
    lemma_sound_upto_shape(data, PARAMETER_COUNT as int);
}

/// Two programs that differ in a parameter byte outside the name and the
/// category hash different bytes.
pub proof fn lemma_sound_edits_count(a: Seq<u8>, b: Seq<u8>, k: int)
    requires
        a.len() >= PARAMETER_COUNT,
        b.len() >= PARAMETER_COUNT,
        0 <= k < PARAMETER_COUNT,
        k < 223 || k > 240,
        a[k] != b[k],
    ensures
        sound_bytes(a) != sound_bytes(b),
{
    lemma_fingerprint_covers_the_sound(a);
    lemma_fingerprint_covers_the_sound(b);
    if k < 223 {
        assert(sound_bytes(a)[k] == a[k] && sound_bytes(b)[k] == b[k]);
    } else {
        assert(sound_bytes(a)[223] == a[241] && sound_bytes(b)[223] == b[241]);
    }
}

/// The hex of some bytes is two characters a byte: the high digit, then the
/// low one.
proof fn lemma_hex_shape(bytes: Seq<u8>)
    ensures
        hex_of(bytes).len() == 2 * bytes.len(),
        forall|i: int|
            0 <= i < bytes.len() ==> hex_of(bytes)[2 * i] == hex_digit((bytes[i] / 16) as nat) && hex_of(bytes)[2 * i
                + 1] == hex_digit((bytes[i] % 16) as nat),
    decreases bytes.len(),
{
    if bytes.len() > 0 {
        lemma_hex_shape(bytes.drop_last());
        let h = hex_of(bytes);
        let g = hex_of(bytes.drop_last());
        assert forall|i: int| 0 <= i < bytes.len() implies h[2 * i] == hex_digit((bytes[i] / 16) as nat) && h[2 * i + 1]
            == hex_digit((bytes[i] % 16) as nat) by {
            if i < bytes.len() - 1 {
                assert(h[2 * i] == g[2 * i]);
                assert(h[2 * i + 1] == g[2 * i + 1]);
                assert(bytes.drop_last()[i] == bytes[i]);
            }
        }
    }
}

/// Text of ASCII characters encodes as UTF-8 one byte a character, each the
/// character's number.
proof fn lemma_ascii_encoding(t: Seq<char>)
    requires
        forall|i: int| 0 <= i < t.len() ==> (#[trigger] t[i] as u32) < 128,
    ensures
        vstd::utf8::encode_utf8(t).len() == t.len(),
        forall|i: int| 0 <= i < t.len() ==> vstd::utf8::encode_utf8(t)[i] as u32 == #[trigger] t[i] as u32,
    decreases t.len(),
{
    if t.len() > 0 {
        let c = t[0] as u32;
        assert(c < 128);
        assert((c & 0x7F) == c) by (bit_vector)
            requires
                c < 128,
        ;
        assert forall|i: int| 0 <= i < t.drop_first().len() implies (#[trigger] t.drop_first()[i] as u32) < 128 by {
            assert(t.drop_first()[i] == t[i + 1]);
        }
        lemma_ascii_encoding(t.drop_first());
        let e = vstd::utf8::encode_utf8(t);
        assert(e == seq![(c & 0x7F) as u8] + vstd::utf8::encode_utf8(t.drop_first()));
        assert forall|i: int| 0 <= i < t.len() implies e[i] as u32 == #[trigger] t[i] as u32 by {
            if i > 0 {
                assert(t.drop_first()[i - 1] == t[i]);
            }
        }
    }
}

/// A hex digit's character and its value.
proof fn lemma_hex_digit(d: nat)
    requires
        d < 16,
    ensures
        (hex_digit(d) as u32) < 128,
        (hex_digit(d) as u32) != 43,
        hex_value((hex_digit(d) as u32) as u8) == Some(d),
        !(0x80 <= (hex_digit(d) as u32) <= 0xbf),
{
}

/// Printing a fingerprint as hex and reading it back gives the same
/// fingerprint.
pub proof fn lemma_hex_round_trip(bytes: Seq<u8>)
    requires
        bytes.len() == 32,
    ensures
        fingerprint_read(hex_of(bytes)) == Ok::<Seq<u8>, Seq<char>>(bytes),
{
    let t = hex_of(bytes);
    lemma_hex_shape(bytes);
    assert forall|i: int| 0 <= i < t.len() implies (#[trigger] t[i] as u32) < 128 by {
        let k = i / 2;
        assert(0 <= k < 32);
        if i % 2 == 0 {
            assert(i == 2 * k);
            lemma_hex_digit((bytes[k] / 16) as nat);
        } else {
            assert(i == 2 * k + 1);
            lemma_hex_digit((bytes[k] % 16) as nat);
        }
    }
    lemma_ascii_encoding(t);
    let b = vstd::utf8::encode_utf8(t);
    assert(b.len() == 64);
    assert forall|i: int| 0 <= i < 32 implies #[trigger] pair_read(b, i) == Ok::<u8, Seq<char>>(bytes[i]) by {
        let hi = (bytes[i] / 16) as nat;
        let lo = (bytes[i] % 16) as nat;
        lemma_hex_digit(hi);
        lemma_hex_digit(lo);
        assert(b[2 * i] as u32 == t[2 * i] as u32);
        assert(b[2 * i + 1] as u32 == t[2 * i + 1] as u32);
        if 2 * i + 2 < 64 {
            let j = (2 * i + 2) / 2;
            assert(j == i + 1);
            lemma_hex_digit((bytes[j] / 16) as nat);
            assert(b[2 * i + 2] as u32 == t[2 * i + 2] as u32);
        }
        assert(on_boundary(b, 2 * i));
        assert(on_boundary(b, 2 * i + 2));
        assert(pair_value(b[2 * i], b[2 * i + 1]) == Some(hi * 16 + lo));
        assert(hi * 16 + lo == bytes[i]);
    }
    assert(!exists|i: int| 0 <= i < 32 && #[trigger] pair_read(b, i) is Err);
    assert(Seq::new(32, |i: int| pair_read(b, i)->Ok_0) =~= bytes);
}

} // verus!
