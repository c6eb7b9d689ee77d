//! Enough MP3 parsing to enforce the demo limits.
//!
//! Walks the frame headers, skipping an `ID3v2` tag at the front and an `ID3v1`
//! tag at the back. Reports the samples, bitrate, sample rate and channels.
//! Does not decode audio.

pub mod limits;

use vstd::prelude::*;

use crate::error::Error;
use crate::text::owned;

verus! {

/// Bytes an `ID3v2` tag occupies at the front, or 0: ten header bytes, the
/// size its four 7-bit bytes give, and ten more when the footer flag is set.
pub open spec fn id3v2_size(b: Seq<u8>) -> nat {
    if b.len() < 10 || b[0] != 0x49 || b[1] != 0x44 || b[2] != 0x33 {
        0
    } else {
        let size = (((b[6] & 0x7f) as nat * 128 + (b[7] & 0x7f) as nat) * 128 + (b[8] & 0x7f) as nat)
            * 128 + (b[9] & 0x7f) as nat;
        10 + size + if b[5] & 0x10 != 0 {
            10nat
        } else {
            0nat
        }
    }
}

/// Bytes an `ID3v2` tag occupies at the front, or 0.
pub fn id3v2_len(bytes: &[u8]) -> (n: usize)
    ensures
        n == id3v2_size(bytes@),
{
    if bytes.len() < 10 || bytes[0] != 0x49 || bytes[1] != 0x44 || bytes[2] != 0x33 {
        return 0;
    }
    let (b6, b7, b8, b9) = (bytes[6], bytes[7], bytes[8], bytes[9]);
    assert(b6 & 0x7f < 128 && b7 & 0x7f < 128 && b8 & 0x7f < 128 && b9 & 0x7f < 128)
        by (bit_vector);
    let a = (b6 & 0x7f) as usize;
    let b = (b7 & 0x7f) as usize;
    let c = (b8 & 0x7f) as usize;
    let d = (b9 & 0x7f) as usize;
    let size = ((a * 128 + b) * 128 + c) * 128 + d;
    let footer: usize = if bytes[5] & 0x10 != 0 {
        10
    } else {
        0
    };
    10 + size + footer
}

/// Bitrate in kbit/s for MPEG-1 (`mpeg1`) or not, a layer field and a
/// bitrate index from 1 to 14.
pub open spec fn bitrate_of(mpeg1: bool, layer: u8, index: int) -> u32 {
    if mpeg1 && layer == 1 {
        seq![0u32, 32, 40, 48, 56, 64, 80, 96, 112, 128, 160, 192, 224, 256, 320][index]
    } else if mpeg1 && layer == 2 {
        seq![0u32, 32, 48, 56, 64, 80, 96, 112, 128, 160, 192, 224, 256, 320, 384][index]
    } else if mpeg1 {
        seq![0u32, 32, 64, 96, 128, 160, 192, 224, 256, 288, 320, 352, 384, 416, 448][index]
    } else if layer == 1 || layer == 2 {
        seq![0u32, 8, 16, 24, 32, 40, 48, 56, 64, 80, 96, 112, 128, 144, 160][index]
    } else {
        seq![0u32, 32, 48, 56, 64, 80, 96, 112, 128, 144, 160, 176, 192, 224, 256][index]
    }
}

/// Sample rate in Hz for a version field and a rate index from 0 to 2.
pub open spec fn sample_rate_of(version: u8, index: int) -> u32 {
    if version == 3 {
        seq![44_100u32, 48_000, 32_000][index]
    } else if version == 2 {
        seq![22_050u32, 24_000, 16_000][index]
    } else {
        seq![11_025u32, 12_000, 8_000][index]
    }
}

/// What one frame header says.
#[derive(Debug, Clone, Copy, PartialEq, Eq, Structural)]
pub struct Frame {
    /// Bytes the frame occupies, header included.
    pub len: usize,
    /// Samples it plays.
    pub samples: u32,
    /// Its bitrate, kbit/s.
    pub bitrate_kbps: u32,
    /// Its sample rate, Hz.
    pub sample_rate: u32,
    /// 1 or 2.
    pub channels: u8,
}

/// The frame four header bytes describe, if they are one: the sync word, a
/// known version and layer, and a bitrate and rate index that are not
/// reserved.
pub open spec fn frame_of(h: Seq<u8>) -> Option<Frame> {
    if h.len() < 4 || h[0] != 0xff || h[1] & 0xe0 != 0xe0 {
        None
    } else {
        let version = (h[1] >> 3) & 3;
        let layer = (h[1] >> 1) & 3;
        let bitrate_index = h[2] >> 4;
        let rate_index = (h[2] >> 2) & 3;
        let padding = (h[2] >> 1) & 1;
        if version == 1 || layer == 0 || bitrate_index == 0 || bitrate_index == 15 || rate_index
            == 3 {
            None
        } else {
            let mpeg1 = version == 3;
            let bitrate = bitrate_of(mpeg1, layer, bitrate_index as int);
            let rate = sample_rate_of(version, rate_index as int);
            let samples: u32 = if layer == 3 {
                384
            } else if mpeg1 || layer == 2 {
                1152
            } else {
                576
            };
            let len: int = if layer == 3 {
                ((12 * bitrate * 1000) / (rate as int) + padding) * 4
            } else {
                ((samples / 8) * bitrate * 1000) / (rate as int) + padding
            };
            Some(
                Frame {
                    len: len as usize,
                    samples,
                    bitrate_kbps: bitrate,
                    sample_rate: rate,
                    channels: if h[3] >> 6 == 3 {
                        1
                    } else {
                        2
                    },
                },
            )
        }
    }
}

fn bitrate(mpeg1: bool, layer: u8, index: u8) -> (r: u32)
    requires
        1 <= index <= 14,
    ensures
        r == bitrate_of(mpeg1, layer, index as int),
        8 <= r <= 448,
        layer == 3 ==> r >= 32,
{
    let i = index as usize;
    if mpeg1 && layer == 1 {
        let t: [u32; 15] = [0, 32, 40, 48, 56, 64, 80, 96, 112, 128, 160, 192, 224, 256, 320];
        assert(t@ =~= seq![0u32, 32, 40, 48, 56, 64, 80, 96, 112, 128, 160, 192, 224, 256, 320]);
        t[i]
    } else if mpeg1 && layer == 2 {
        let t: [u32; 15] = [0, 32, 48, 56, 64, 80, 96, 112, 128, 160, 192, 224, 256, 320, 384];
        assert(t@ =~= seq![0u32, 32, 48, 56, 64, 80, 96, 112, 128, 160, 192, 224, 256, 320, 384]);
        t[i]
    } else if mpeg1 {
        let t: [u32; 15] = [0, 32, 64, 96, 128, 160, 192, 224, 256, 288, 320, 352, 384, 416, 448];
        assert(t@ =~= seq![0u32, 32, 64, 96, 128, 160, 192, 224, 256, 288, 320, 352, 384, 416, 448]);
        t[i]
    } else if layer == 1 || layer == 2 {
        let t: [u32; 15] = [0, 8, 16, 24, 32, 40, 48, 56, 64, 80, 96, 112, 128, 144, 160];
        assert(t@ =~= seq![0u32, 8, 16, 24, 32, 40, 48, 56, 64, 80, 96, 112, 128, 144, 160]);
        t[i]
    } else {
        let t: [u32; 15] = [0, 32, 48, 56, 64, 80, 96, 112, 128, 144, 160, 176, 192, 224, 256];
        assert(t@ =~= seq![0u32, 32, 48, 56, 64, 80, 96, 112, 128, 144, 160, 176, 192, 224, 256]);
        t[i]
    }
}

fn sample_rate(version: u8, index: u8) -> (r: u32)
    requires
        index <= 2,
    ensures
        r == sample_rate_of(version, index as int),
        8000 <= r <= 48000,
        version != 3 ==> r <= 24000,
{
    let i = index as usize;
    if version == 3 {
        let t: [u32; 3] = [44_100, 48_000, 32_000];
        assert(t@ =~= seq![44_100u32, 48_000, 32_000]);
        t[i]
    } else if version == 2 {
        let t: [u32; 3] = [22_050, 24_000, 16_000];
        assert(t@ =~= seq![22_050u32, 24_000, 16_000]);
        t[i]
    } else {
        let t: [u32; 3] = [11_025, 12_000, 8_000];
        assert(t@ =~= seq![11_025u32, 12_000, 8_000]);
        t[i]
    }
}

/// However small the bitrate and however high the rate, a frame is at
/// least 24 bytes long.
proof fn lemma_frame_len(bitrate: int, rate: int, samples: int, pad: int, layer1: bool)
    requires
        8 <= bitrate <= 448,
        8000 <= rate <= 48000,
        0 <= pad <= 1,
        layer1 ==> bitrate >= 32,
        !layer1 ==> (samples == 1152 || (samples == 576 && rate <= 24000)),
    ensures
        layer1 ==> ((12 * bitrate * 1000) / rate + pad) * 4 >= 24,
        !layer1 ==> ((samples / 8) * bitrate * 1000) / rate + pad >= 24,
        layer1 ==> ((12 * bitrate * 1000) / rate + pad) * 4 <= 8192,
        !layer1 ==> ((samples / 8) * bitrate * 1000) / rate + pad <= 8192,
{
    vstd::arithmetic::div_mod::lemma_div_is_ordered(12 * bitrate * 1000, 5376000, rate);
    vstd::arithmetic::div_mod::lemma_div_is_ordered_by_denominator(5376000, 8000, rate);
    assert(5376000int / 8000 == 672);
    if !layer1 {
        assert((samples / 8) * bitrate * 1000 <= 64512000) by (nonlinear_arith)
            requires
                0 <= bitrate <= 448,
                0 <= samples <= 1152,
        ;
        vstd::arithmetic::div_mod::lemma_div_is_ordered((samples / 8) * bitrate * 1000, 64512000, rate);
        vstd::arithmetic::div_mod::lemma_div_is_ordered_by_denominator(64512000, 8000, rate);
        assert(64512000int / 8000 == 8064);
    }
    if layer1 {
        vstd::arithmetic::div_mod::lemma_div_is_ordered(384000, 12 * bitrate * 1000, rate);
        vstd::arithmetic::div_mod::lemma_div_is_ordered_by_denominator(384000, rate, 48000);
        assert(384000int / 48000 == 8);
    } else if samples == 1152 {
        vstd::arithmetic::div_mod::lemma_div_is_ordered(1152000, 144 * bitrate * 1000, rate);
        vstd::arithmetic::div_mod::lemma_div_is_ordered_by_denominator(1152000, rate, 48000);
        assert(1152000int / 48000 == 24);
    } else {
        vstd::arithmetic::div_mod::lemma_div_is_ordered(576000, 72 * bitrate * 1000, rate);
        vstd::arithmetic::div_mod::lemma_div_is_ordered_by_denominator(576000, rate, 24000);
        assert(576000int / 24000 == 24);
    }
}

impl Frame {
    /// Reads four header bytes.
    pub fn parse(header: &[u8]) -> (r: Option<Frame>)
        ensures
            r == frame_of(header@),
            r matches Some(f) ==> 24 <= f.len <= 8192 && 1 <= f.samples <= 1152,
    {
        if header.len() < 4 || header[0] != 0xff || header[1] & 0xe0 != 0xe0 {
            return None;
        }
        let h1 = header[1];
        let h2 = header[2];
        let version = (h1 >> 3) & 3;
        let layer = (h1 >> 1) & 3;
        let bitrate_index = h2 >> 4;
        let rate_index = (h2 >> 2) & 3;
        let padding = (h2 >> 1) & 1;
        let channel_mode = header[3] >> 6;
        assert(h2 >> 4 <= 15 && (h2 >> 2) & 3 <= 3 && (h2 >> 1) & 1 <= 1) by (bit_vector);
        if version == 1 || layer == 0 || bitrate_index == 0 || bitrate_index == 15 || rate_index
            == 3 {
            return None;
        }
        let mpeg1 = version == 3;
        let bitrate_kbps = bitrate(mpeg1, layer, bitrate_index);
        let rate = sample_rate(version, rate_index);
        let samples: u32 = if layer == 3 {
            384
        } else if mpeg1 || layer == 2 {
            1152
        } else {
            576
        };
        assert(samples == 576 ==> !mpeg1);
        let pad = padding as u32;
        assert(12 * bitrate_kbps * 1000 <= 5376000) by (nonlinear_arith)
            requires
                bitrate_kbps <= 448,
        ;
        assert((samples / 8) * bitrate_kbps * 1000 <= 64512000) by (nonlinear_arith)
            requires
                bitrate_kbps <= 448,
                samples <= 1152,
        ;
        assert((12 * bitrate_kbps * 1000) / (rate as int) <= 5376000) by (nonlinear_arith)
            requires
                12 * bitrate_kbps * 1000 <= 5376000,
                rate >= 8000,
        ;
        let len = if layer == 3 {
            (12 * bitrate_kbps * 1000 / rate + pad) * 4
        } else {
            (samples / 8) * bitrate_kbps * 1000 / rate + pad
        };
        proof {
            lemma_frame_len(bitrate_kbps as int, rate as int, samples as int, pad as int, layer == 3);
        }
        Some(
            Frame {
                len: len as usize,
                samples,
                bitrate_kbps,
                sample_rate: rate,
                channels: if channel_mode == 3 {
                    1
                } else {
                    2
                },
            },
        )
    }
}

/// What the frame headers of a file say.
#[derive(Debug, Clone, Copy, PartialEq, Eq, Structural)]
pub struct Mp3Info {
    /// Samples played, over all frames; the playing time is this over the
    /// sample rate.
    pub samples: u64,
    /// Bitrate of the first frame, kbit/s.
    pub bitrate_kbps: u32,
    /// Whether every frame has the same bitrate.
    pub constant_bitrate: bool,
    /// Sample rate, Hz.
    pub sample_rate: u32,
    /// 1 or 2.
    pub channels: u8,
    /// Frames counted.
    pub frames: u32,
}

/// Where the frames end: before an `ID3v1` tag in the last 128 bytes, if
/// there is one.
pub open spec fn frames_end(b: Seq<u8>) -> int {
    if b.len() >= 128 && b[b.len() - 128] == 0x54 && b[b.len() - 127] == 0x41 && b[b.len() - 126]
        == 0x47 {
        b.len() - 128
    } else {
        b.len() as int
    }
}

/// How far a position is from the end, zero once past it.
pub open spec fn gap(pos: int, end: int) -> nat {
    if pos < end {
        (end - pos) as nat
    } else {
        0
    }
}

/// What walking the frame headers from `pos` finds, given what the frames
/// before it said: junk is skipped until the first frame and ends the walk
/// after it, and a change of sample rate is refused.
pub open spec fn walk(b: Seq<u8>, pos: int, end: int, acc: Option<Mp3Info>) -> Result<
    Option<Mp3Info>,
    Seq<char>,
>
    decreases gap(pos, end),
{
    if pos < 0 || pos + 4 > end || end > b.len() {
        Ok(acc)
    } else {
        match frame_of(b.subrange(pos, pos + 4)) {
            None => if acc is Some {
                Ok(acc)
            } else {
                walk(b, pos + 1, end, acc)
            },
            Some(f) => {
                if f.len < 1 {
                    Ok(acc)
                } else {
                    match acc {
                        None => walk(
                            b,
                            pos + f.len,
                            end,
                            Some(
                                Mp3Info {
                                    samples: f.samples as u64,
                                    bitrate_kbps: f.bitrate_kbps,
                                    constant_bitrate: true,
                                    sample_rate: f.sample_rate,
                                    channels: f.channels,
                                    frames: 1,
                                },
                            ),
                        ),
                        Some(info) => if f.sample_rate != info.sample_rate {
                            Err("sample rate changes between frames"@)
                        } else {
                            walk(
                                b,
                                pos + f.len,
                                end,
                                Some(
                                    Mp3Info {
                                        samples: (info.samples + f.samples) as u64,
                                        constant_bitrate: info.constant_bitrate && f.bitrate_kbps
                                            == info.bitrate_kbps,
                                        frames: (info.frames + 1) as u32,
                                        ..info
                                    },
                                ),
                            )
                        },
                    }
                }
            },
        }
    }
}

/// What the frame headers of a whole file say, or why it is not audio.
pub open spec fn mp3_read(b: Seq<u8>) -> Result<Mp3Info, Seq<char>> {
    match walk(b, id3v2_size(b) as int, frames_end(b), None) {
        Ok(Some(info)) => Ok(info),
        Ok(None) => Err("no MPEG audio frames found"@),
        Err(m) => Err(m),
    }
}

impl Mp3Info {
    /// Reads the frame headers of a file's bytes; `path` names the file in
    /// the error.
    pub fn parse(path: &str, bytes: &[u8]) -> (r: Result<Mp3Info, Error>)
        requires
            bytes@.len() <= 24 * 0xffff_fffe,
            bytes@.len() <= usize::MAX - 8192,
        ensures
            match mp3_read(bytes@) {
                Ok(info) => r == Ok::<Mp3Info, Error>(info),
                Err(m) => r matches Err(Error::Mp3 { path: p, message }) && p@ == path@ && message@
                    == m,
            },
    {
        let start = id3v2_len(bytes);
        let n = bytes.len();
        let end = if n >= 128 && bytes[n - 128] == 0x54 && bytes[n - 127] == 0x41 && bytes[n - 126]
            == 0x47 {
            n - 128
        } else {
            n
        };
        let mut position = start;
        let mut info: Option<Mp3Info> = None;
        while position <= end && end - position >= 4
            invariant
                end <= bytes@.len(),
                bytes@.len() <= 24 * 0xffff_fffe,
                bytes@.len() <= usize::MAX - 8192,
                end == frames_end(bytes@),
                walk(bytes@, position as int, end as int, info) == walk(
                    bytes@,
                    id3v2_size(bytes@) as int,
                    frames_end(bytes@),
                    None,
                ),
                info matches Some(i) ==> (i.frames as int) * 24 <= position && i.samples as int
                    <= (i.frames as int) * 1152,
            ensures
                walk(bytes@, id3v2_size(bytes@) as int, frames_end(bytes@), None) == Ok::<
                    Option<Mp3Info>,
                    Seq<char>,
                >(info),
            decreases gap(position as int, end as int),
        {
            let header = crate::text::slice_bytes(bytes, position, position + 4);
            match Frame::parse(header.as_slice()) {
                None => {
                    if info.is_some() {
                        assert(walk(bytes@, position as int, end as int, info) == Ok::<
                            Option<Mp3Info>,
                            Seq<char>,
                        >(info));
                        break;
                    }
                    position = position + 1;
                },
                Some(frame) => {
                    match info {
                        None => {
                            info = Some(
                                Mp3Info {
                                    samples: frame.samples as u64,
                                    bitrate_kbps: frame.bitrate_kbps,
                                    constant_bitrate: true,
                                    sample_rate: frame.sample_rate,
                                    channels: frame.channels,
                                    frames: 1,
                                },
                            );
                        },
                        Some(old) => {
                            if frame.sample_rate != old.sample_rate {
                                return Err(
                                    Error::Mp3 {
                                        path: owned(path),
                                        message: owned("sample rate changes between frames"),
                                    },
                                );
                            }
                            info = Some(
                                Mp3Info {
                                    samples: old.samples + frame.samples as u64,
                                    constant_bitrate: old.constant_bitrate && frame.bitrate_kbps
                                        == old.bitrate_kbps,
                                    frames: old.frames + 1,
                                    ..old
                                },
                            );
                        },
                    }
                    position = position + frame.len;
                },
            }
        }
        match info {
            Some(info) => Ok(info),
            None => Err(
                Error::Mp3 { path: owned(path), message: owned("no MPEG audio frames found") },
            ),
        }
    }
}

} // verus!
