use deepmind_patches::category::Category;
use deepmind_patches::derived::Derived;
use deepmind_patches::fingerprint::Fingerprint;
use deepmind_patches::icon::Icon;
use deepmind_patches::meta::{PatchMeta, ALL_RIGHTS_RESERVED};
use deepmind_patches::mp3::Mp3Info;
use deepmind_midi::ParamId;
use deepmind_patches::program::StoredProgram;

const MINIMAL: &str = r#"
name = "Acid Growl"
author = "nyx"
version = 1
about = "Bass."
licence = "CC-BY-4.0"
role = ["bass"]
"#;

const A: [&str; 7] = [".......", "..###..", ".#...#.", ".#...#.", ".#####.", ".#...#.", "......."];

fn rows(list: &[&str]) -> Vec<String> {
    list.iter().map(|row| (*row).to_owned()).collect()
}

/// A version 7 program with some bytes set, by offset.
fn program_with(changes: &[(usize, u8)]) -> StoredProgram {
    let blank = StoredProgram::lowest(7);
    let mut bytes = blank.as_bytes().to_vec();
    for (offset, value) in changes {
        bytes[*offset] = *value;
    }
    StoredProgram::from_bytes(7, &bytes).unwrap()
}

#[test]
fn reads_a_blank_program() {
    let program = program_with(&[
        (ParamId::ProgramCategory.offset() as usize, Category::Pad.value()),
        (ParamId::ArpOnOff.offset() as usize, 1),
        (ParamId::Mod1Source.offset() as usize, 3),
        (ParamId::PolyphonyMode.offset() as usize, 3),
    ]);
    let derived = Derived::of(&program);
    assert_eq!(derived.category, Some(Category::Pad));
    assert!(derived.arp);
    assert!(derived.arp_mode.is_some());
    assert_eq!(derived.routings, 1);
    assert_eq!(derived.polyphony, "Unison 4");
    assert_eq!(derived.unison, 4);
    assert!(!derived.sequencer);
}

#[test]
fn name_and_category_do_not_change_it() {
    let mut a = StoredProgram::lowest(7);
    let before = Fingerprint::of(&a);
    a.rename("Renamed");
    a.set_category(5).unwrap();
    assert_eq!(Fingerprint::of(&a), before);
    let resonance = ParamId::VcfResonance.offset() as usize;
    let mut bytes = a.as_bytes().to_vec();
    bytes[resonance] = 100;
    let b = StoredProgram::from_bytes(7, &bytes).unwrap();
    assert_ne!(Fingerprint::of(&b), before);
}

#[test]
fn hex_round_trip() {
    let fingerprint = Fingerprint::of(&StoredProgram::lowest(6));
    let text = fingerprint.to_hex();
    assert_eq!(text.len(), 64);
    assert_eq!(Fingerprint::parse(&text).unwrap(), fingerprint);
    assert!(Fingerprint::parse("abc").is_err());
}

#[test]
fn parses_and_prints_the_same_rows() {
    let icon = Icon::parse(&rows(&A)).unwrap();
    assert_eq!(icon.rows_text().iter().map(String::as_str).collect::<Vec<_>>(), A);
    assert!(icon.is_lit(2, 1));
    assert!(!icon.is_lit(0, 0));
    assert!(!icon.is_lit(7, 0));
    assert!(!icon.is_blank());
    assert!(Icon::default().is_blank());
}

#[test]
fn refuses_bad_shapes() {
    assert!(Icon::parse(&rows(&A[..6])).is_err());
    assert!(Icon::parse(&rows(&["......", ".", ".", ".", ".", ".", "."])).is_err());
    assert!(Icon::parse(&rows(&["......x", A[1], A[2], A[3], A[4], A[5], A[6]])).is_err());
}

#[test]
fn minimal_parses() {
    let meta = PatchMeta::parse(MINIMAL).unwrap();
    assert_eq!(meta.stem(), "Acid Growl - nyx");
    assert!(meta.has_terms());
    assert!(meta.licence_is_valid());
    assert!(meta.unknown.is_empty());
    assert!(meta.icon.is_none());
}

#[test]
fn unknown_fields_are_kept_not_refused() {
    let meta = PatchMeta::parse(&format!("{MINIMAL}\nfuture = 1\n")).unwrap();
    assert_eq!(meta.unknown.len(), 1);
}

#[test]
fn demos_name_their_files() {
    let text = format!("{MINIMAL}\n[[demo]]\nabout = \"dry\"\n[[demo]]\nvariant = \"mod wheel\"\n");
    let meta = PatchMeta::parse(&text).unwrap();
    assert_eq!(meta.demo_file_name(&meta.demos[0]), "Acid Growl - nyx.mp3");
    assert_eq!(meta.demo_file_name(&meta.demos[1]), "Acid Growl - nyx (mod wheel).mp3");
}

#[test]
fn licences() {
    let mut meta = PatchMeta::parse(MINIMAL).unwrap();
    for ok in ["CC0-1.0", "CC-BY-4.0", "CC-BY-NC-SA-4.0", "MIT", ALL_RIGHTS_RESERVED] {
        meta.licence = ok.to_owned();
        assert!(meta.licence_is_valid(), "{ok}");
    }
    meta.licence = "all rights reserved".to_owned();
    assert!(!meta.licence_is_valid());
    meta.licence = "CC BY 4.0".to_owned();
    assert!(!meta.licence_is_valid());
}

#[test]
fn round_trips_through_toml() {
    let meta = PatchMeta::parse(MINIMAL).unwrap();
    let text = meta.to_toml().unwrap();
    assert_eq!(PatchMeta::parse(&text).unwrap(), meta);
}

/// One MPEG-1 Layer III frame header: 128 kbit/s, 44.1 kHz, stereo, no padding.
const HEADER: [u8; 4] = [0xFF, 0xFB, 0x90, 0x00];

fn frames(count: usize) -> Vec<u8> {
    let mut bytes = Vec::new();
    for _ in 0..count {
        bytes.extend_from_slice(&HEADER);
        bytes.extend(std::iter::repeat_n(0u8, 417 - 4));
    }
    bytes
}

#[test]
fn counts_frames_and_time() {
    let info = Mp3Info::parse("x.mp3", &frames(38)).unwrap();
    assert_eq!(info.frames, 38);
    assert_eq!(info.bitrate_kbps, 128);
    assert_eq!(info.sample_rate, 44_100);
    assert_eq!(info.channels, 2);
    assert!(info.constant_bitrate);
    let seconds = info.samples as f64 / f64::from(info.sample_rate);
    assert!((seconds - 38.0 * 1152.0 / 44_100.0).abs() < 1e-9);
}

#[test]
fn skips_id3_tags() {
    let mut bytes = b"ID3\x04\x00\x00\x00\x00\x00\x05hello".to_vec();
    bytes.extend(frames(2));
    bytes.extend_from_slice(b"TAG");
    bytes.extend(std::iter::repeat_n(0u8, 125));
    let info = Mp3Info::parse("x.mp3", &bytes).unwrap();
    assert_eq!(info.frames, 2);
}

#[test]
fn refuses_non_audio() {
    assert!(Mp3Info::parse("x.mp3", b"not audio at all").is_err());
}

#[test]
fn matches_the_protocol_crate_layout() {
    let icon = Icon::parse(&rows(&A)).unwrap();
    let pixels = icon.pixels();
    for y in 0..7u8 {
        for x in 0..7u8 {
            assert_eq!(pixels.is_lit(x, y), icon.is_lit(x.into(), y.into()));
        }
    }
    assert_eq!(Icon::from_pixels(&pixels), icon);
}

#[test]
fn a_fingerprint_is_sixty_four_hex_digits() {
    let signed = "+0".repeat(32);
    assert!(matches!(signed.parse::<Fingerprint>(), Err(deepmind_patches::error::Error::Fingerprint(_))));
    let upper = "AB".repeat(32);
    assert_eq!(upper.parse::<Fingerprint>().unwrap(), Fingerprint([0xab; 32]));
}

#[test]
fn the_eighth_bit_of_a_row_lights_nothing() {
    let icon = Icon::from_rows([0x80, 0, 0, 0, 0, 0, 0]);
    assert!(icon.is_blank());
    assert!(!Icon::from_rows([0x81, 0, 0, 0, 0, 0, 0]).is_blank());
    assert!(!Icon::from_rows([0, 0, 0, 0, 0, 0, 0x40]).is_blank());
}

#[test]
fn stored_names_and_transpositions_read_from_their_bytes() {
    let lowest = StoredProgram::lowest(7);
    assert_eq!(lowest.transpose(), -48);
    let mut bytes = lowest.as_bytes().to_vec();
    bytes[241] = 128 + 12;
    bytes[223] = 200;
    bytes[224] = b'A';
    bytes[225] = 0;
    bytes[226] = b'Z';
    let program = StoredProgram::from_bytes(7, &bytes).unwrap();
    assert_eq!(program.transpose(), 12);
    assert_eq!(program.name(), "?A");
    bytes[241] = 255;
    for (i, byte) in bytes[223..240].iter_mut().enumerate() {
        *byte = b'a' + i as u8;
    }
    let program = StoredProgram::from_bytes(7, &bytes).unwrap();
    assert_eq!(program.transpose(), 48);
    assert_eq!(program.name(), "abcdefghijklmnop");
}
