use deepmind_patches::version::{classify, Bump, Change, LibraryVersion};

fn changes(list: &[(Change, &str)]) -> Vec<(Change, String)> {
    list.iter().map(|(change, path)| (*change, (*path).to_owned())).collect()
}

#[test]
fn parses_and_prints() {
    let version = LibraryVersion::parse("26.3.1").unwrap();
    assert_eq!((version.year, version.release, version.patch), (26, 3, 1));
    assert_eq!(version.tag(), "v26.3.1");
    assert_eq!(LibraryVersion::from_tag("v26.3.1").unwrap(), version);
    for bad in ["26.3", "2026.1.0", "26.01.0", "v26.1.0", "26.1.0.0", ""] {
        assert!(LibraryVersion::parse(bad).is_err(), "{bad}");
    }
}

#[test]
fn bumps() {
    let version = LibraryVersion::parse("26.3.1").unwrap();
    assert_eq!(version.next(Bump::Nothing, 26).to_string(), "26.3.1");
    assert_eq!(version.next(Bump::Patch, 26).to_string(), "26.3.2");
    assert_eq!(version.next(Bump::Release, 26).to_string(), "26.4.0");
    assert_eq!(version.next(Bump::Patch, 27).to_string(), "27.0.0");
    assert_eq!(version.next(Bump::Year, 26).to_string(), "26.0.0");
}

#[test]
fn steps() {
    let version = LibraryVersion::parse("26.3.1").unwrap();
    let step = |next: &str, year| version.step_to(LibraryVersion::parse(next).unwrap(), year);
    assert_eq!(step("26.3.2", 26).unwrap(), Bump::Patch);
    assert_eq!(step("26.4.0", 26).unwrap(), Bump::Release);
    assert_eq!(step("27.0.0", 27).unwrap(), Bump::Year);
    // Still the same year on the calendar and in the version.
    assert_eq!(step("26.3.2", 27).unwrap(), Bump::Patch);
    for (bad, year) in [
        ("26.3.1", 26),
        ("26.3.3", 26),
        ("26.4.1", 26),
        ("26.5.0", 26),
        ("26.3.0", 26),
        ("25.0.0", 26),
        ("27.0.0", 26),
        ("28.0.0", 27),
        ("27.1.0", 27),
    ] {
        assert!(step(bad, year).is_err(), "{bad} in {year}");
    }
    let message = step("26.9.9", 27).unwrap_err().to_string();
    assert!(message.contains("26.3.2, 26.4.0, 27.0.0"), "{message}");
    let message = step("26.9.9", 26).unwrap_err().to_string();
    assert!(message.ends_with("26.3.2, 26.4.0"), "{message}");
}

#[test]
fn classifies_changes() {
    assert_eq!(classify(&changes(&[(Change::Added, "presets/Bass/X - y.syx")])), Bump::Release);
    assert_eq!(classify(&changes(&[(Change::Modified, "presets/Bass/X - y.syx")])), Bump::Patch);
    assert_eq!(classify(&changes(&[(Change::Added, "presets/Bass/X - y.toml")])), Bump::Patch);
    assert_eq!(classify(&changes(&[(Change::Added, "demos/Bass/X - y.mp3")])), Bump::Patch);
    assert_eq!(classify(&changes(&[(Change::Modified, "taxonomy.toml")])), Bump::Patch);
    assert_eq!(classify(&changes(&[(Change::Modified, "README.md")])), Bump::Nothing);
    assert_eq!(
        classify(&changes(&[(Change::Modified, "crates/deepmind-patches/src/lib.rs")])),
        Bump::Nothing
    );
    assert_eq!(
        classify(&changes(&[
            (Change::Modified, "docs/format.md"),
            (Change::Added, "presets/Pad/A - b.syx")
        ])),
        Bump::Release
    );
}

#[test]
fn a_new_year_starts_over_whatever_the_counts() {
    let full = LibraryVersion { year: 26, release: u32::MAX, patch: u32::MAX };
    let fresh = LibraryVersion { year: 27, release: 0, patch: 0 };
    assert_eq!(full.next(Bump::Patch, 27), fresh);
    assert_eq!(full.next(Bump::Release, 27), fresh);
    assert_eq!(full.next(Bump::Year, 27), fresh);
    assert_eq!(full.next(Bump::Nothing, 27), full);
}
