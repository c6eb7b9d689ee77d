use deepmind_patches::category::Category;
use deepmind_patches::create::{new_folder, new_meta, new_program, new_toml, normalised};
use deepmind_patches::library::Slot;
use deepmind_patches::program::SyxEntry;
use deepmind_patches::fingerprint::Fingerprint;
use deepmind_patches::gallery::render_icons;
use deepmind_patches::icon::Icon;
use deepmind_patches::index::{HistoryEntry, Index};
use deepmind_patches::library::{Icons, Scan};
use deepmind_patches::program::StoredProgram;
use deepmind_patches::release::{
    bump_label, changes, history_entries, log, manifest_version, notes, patch_verdict, release_verdict, side,
    stem_files, touched, touches, without_version_line, NotedPatch,
};
use deepmind_patches::text::replace_all;
use deepmind_patches::version::{Bump, Change, LibraryVersion};
use deepmind_patches::Error;

fn v(text: &str) -> LibraryVersion {
    LibraryVersion::parse(text).unwrap()
}

#[test]
fn name_status_lines_become_changes() {
    let out = changes("A\tpresets/Bass/a.syx\nM\tREADME.md\nR100\told.toml\tnew.toml\nD\tgone.txt\nX\n");
    assert_eq!(
        out,
        vec![
            (Change::Added, "presets/Bass/a.syx".to_owned()),
            (Change::Modified, "README.md".to_owned()),
            (Change::Deleted, "old.toml".to_owned()),
            (Change::Added, "new.toml".to_owned()),
            (Change::Deleted, "gone.txt".to_owned()),
        ]
    );
    assert_eq!(log("abc\ndef\n"), vec!["abc".to_owned(), "def".to_owned()]);
}

#[test]
fn version_line_is_left_out() {
    let text = "[package]\nname = \"x\"\nversion = \"26.1.0\"\n  version.workspace = true\nedition = \"2021\"\n";
    assert_eq!(without_version_line(text), "[package]\nname = \"x\"\nedition = \"2021\"");
    assert_eq!(bump_label(Bump::Nothing), "none");
    assert_eq!(bump_label(Bump::Year), "year");
}

#[test]
fn patch_versions_follow_the_bytes() {
    let path = "presets/Bass/x.toml";
    assert_eq!(patch_verdict(path, 1, None), None);
    assert_eq!(
        patch_verdict(path, 2, None),
        Some((false, "::warning file=presets/Bass/x.toml::new patch starts at version 2, expected 1".to_owned()))
    );
    assert_eq!(
        patch_verdict(path, 3, Some((3, true))),
        Some((
            true,
            "::error file=presets/Bass/x.toml::the .syx changed but version is still 3. Set version = 4.".to_owned()
        ))
    );
    assert_eq!(patch_verdict(path, 4, Some((3, true))), None);
    assert_eq!(
        patch_verdict(path, 4, Some((3, false))),
        Some((
            false,
            "::warning file=presets/Bass/x.toml::version changed from 3 to 4 but the sound did not. Only bump when the .syx bytes change."
                .to_owned()
        ))
    );
    assert_eq!(patch_verdict(path, 3, Some((3, false))), None);
}

#[test]
fn touched_stems_once_each() {
    let list = vec![
        (Change::Modified, "presets/Bass/A - b.syx".to_owned()),
        (Change::Modified, "presets/Bass/A - b.toml".to_owned()),
        (Change::Deleted, "presets/Bass/C - d.syx".to_owned()),
        (Change::Added, "README.md".to_owned()),
    ];
    assert_eq!(touched(&list), vec!["presets/Bass/A - b".to_owned()]);
    assert_eq!(
        stem_files("presets/Bass/A - b"),
        ("presets/Bass/A - b.toml".to_owned(), "presets/Bass/A - b.syx".to_owned())
    );
    assert!(touches(&list, "presets/Bass/C - d.syx", "presets/Bass/C - d.toml"));
    assert!(!touches(&list, "presets/Pads/E - f.syx", "presets/Pads/E - f.toml"));
}

#[test]
fn release_needs_its_bump() {
    let added = vec![(Change::Added, "presets/Bass/A - b.syx".to_owned())];
    let verdict = release_verdict(&added, Some(v("26.1.0")), v("26.2.0"), false, 26);
    assert!(!verdict.failed);
    assert_eq!(verdict.step, Bump::Release);
    assert_eq!(verdict.required, Bump::Release);
    assert!(!verdict.code_changed);
    let verdict = release_verdict(&added, Some(v("26.1.0")), v("26.1.1"), false, 26);
    assert!(verdict.failed);
    assert_eq!(verdict.step, Bump::Patch);
    let verdict = release_verdict(&added, Some(v("26.1.0")), v("26.1.0"), false, 26);
    assert!(verdict.failed);
    assert_eq!(verdict.step, Bump::Nothing);
    assert!(verdict.lines.iter().any(|line| line == "version=26.1.0"));
    let code = vec![(Change::Modified, "crates/deepmind-patches/src/lib.rs".to_owned())];
    let verdict = release_verdict(&code, Some(v("26.1.0")), v("26.1.1"), false, 26);
    assert!(verdict.code_changed);
    assert_eq!(verdict.required, Bump::Patch);
    assert!(!verdict.failed);
    assert!(verdict
        .lines
        .iter()
        .any(|line| line.starts_with("::warning file=CHANGELOG.md::")));
}

#[test]
fn notes_list_added_and_updated() {
    let added = vec![NotedPatch {
        name: "Acid Growl".to_owned(),
        author: "nyx".to_owned(),
        category: Category::Bass,
        before: None,
        version: 1,
    }];
    let updated = vec![NotedPatch {
        name: "Aurora".to_owned(),
        author: "kai".to_owned(),
        category: Category::Pad,
        before: Some(1),
        version: 2,
    }];
    let text = notes(v("26.2.0"), 5, &added, &updated);
    assert_eq!(
        text,
        "## 26.2.0\n\n5 patches in the library.\n\n### Added\n\n- **Acid Growl** by nyx (Bass)\n\n### Updated\n\n- **Aurora** by kai (Pads): v1 to v2\n\nAssets: `index.toml`, `patches.tar.gz` (presets/), `demos.tar.gz` (demos/).\n"
    );
    let none = notes(v("26.2.1"), 0, &[], &[]);
    assert!(none.contains("No patch changes.\n\n"));
}

#[test]
fn history_keeps_the_newest_sound_of_each_version() {
    let a = Fingerprint([1; 32]);
    let b = Fingerprint([2; 32]);
    let c = Fingerprint([3; 32]);
    let entries = history_entries(&[(2, a), (2, b), (1, c)]);
    assert_eq!(
        entries,
        vec![HistoryEntry { version: 1, fingerprint: c }, HistoryEntry { version: 2, fingerprint: a }]
    );
    assert!(history_entries(&[]).is_empty());
}

#[test]
fn manifest_gives_the_version() {
    let ok = b"[package]\nname = \"deepmind-patches\"\nversion = \"26.3.1\"\n";
    assert_eq!(manifest_version(ok), Ok(v("26.3.1")));
    assert_eq!(
        manifest_version(b"[package]\nname = \"x\"\n"),
        Err("crates/deepmind-patches/Cargo.toml has no package.version".to_owned())
    );
    let bad = manifest_version(b"[package]\nversion = \"1.2.3.4\"\n").unwrap_err();
    assert!(bad.starts_with("crates/deepmind-patches/Cargo.toml: version: "), "{bad}");
    assert!(manifest_version(b"[package\n").unwrap_err().starts_with("crates/deepmind-patches/Cargo.toml: "));
}

#[test]
fn a_side_reads_meta_and_first_fingerprint() {
    let toml = b"name = \"Acid Growl\"\nauthor = \"nyx\"\nversion = 3\nabout = \"x\"\nlicence = \"MIT\"\n";
    let program = StoredProgram::lowest(7);
    let frame = program.a1_file().unwrap();
    let read = side("presets/Bass/x.toml", toml, Some(&frame)).unwrap();
    assert_eq!(read.meta.version, 3);
    assert_eq!(read.fingerprint, Some(Fingerprint::of(&program)));
    let without = side("presets/Bass/x.toml", toml, None).unwrap();
    assert_eq!(without.fingerprint, None);
    let broken = side("presets/Bass/x.toml", b"name = ", None).unwrap_err();
    assert!(broken.starts_with("presets/Bass/x.toml: "), "{broken}");
}

#[test]
fn a_new_patch_starts_from_the_lowest_program() {
    let program = new_program(Category::Pad, "Aurora 1", None).unwrap();
    assert_eq!(program.name(), "Aurora 1");
    assert_eq!(program.as_bytes()[240], Category::Pad.value());
    assert_eq!(Fingerprint::of(&program), Fingerprint::of(&StoredProgram::lowest(7)));
    let refused = new_program(Category::Pad, "Seventeen Charact", None).err().unwrap();
    assert!(refused.starts_with("name: "), "{refused}");
    let frame = StoredProgram::lowest(7).a1_file().unwrap();
    let mut two = frame.clone();
    two.extend_from_slice(&frame);
    assert_eq!(
        new_program(Category::Bass, "X", Some(("two.syx", &two))).err().unwrap(),
        "two.syx holds 2 programs, expected one"
    );
    let from = new_program(Category::Bass, "X", Some(("one.syx", &frame))).unwrap();
    assert_eq!(from.name(), "X");
}

#[test]
fn a_new_patch_file_asks_for_what_is_missing() {
    let meta = new_meta("Aurora 1", "kai", "CC-BY-4.0", Some("2026-09-21".to_owned()));
    assert_eq!(meta.version, 1);
    assert_eq!(meta.stem(), "Aurora 1 - kai");
    let text = new_toml("name = \"Aurora 1\"\nabout = \"\"\n");
    assert_eq!(
        text,
        "name = \"Aurora 1\"\nabout = \"\" # What it sounds like, how to play it.\n\n# Pick at least one term from taxonomy.toml on any axis.\n# genre  = []\n# mood   = []\n# timbre = []\n# role   = []\n"
    );
    assert_eq!(new_folder(Category::Sfx, None), "presets/Sound Effects");
    assert_eq!(new_folder(Category::Pad, Some("Aurora Pads")), "presets/Pads/Aurora Pads");
    assert_eq!(replace_all("a-b-c", "-", "+-"), "a+-b+-c");
}

#[test]
fn icons_page_sorts_by_name() {
    let lit = Icon::from_rows([1, 0, 0, 0, 0, 0, 0]);
    let icons = Icons {
        categories: vec![("Pads".to_owned(), Icon::blank()), ("Bass".to_owned(), lit)],
        badges: vec![],
    };
    let page = render_icons(&icons);
    let expected_row = "██············   ··············";
    assert!(page.starts_with("# Icons\n\nGenerated from `resources/icons/`. Do not edit.\n\n## Categories\n\n```\n"));
    assert!(page.contains(&format!("```\n{expected_row}\n")));
    assert!(page.contains("Bass             Pads\n```\n"));
    assert!(page.ends_with("\n## Badges\n\n"));
}

#[test]
fn newer_index_schema_is_refused() {
    assert!(Index::check_schema(1).is_ok());
    assert_eq!(Index::check_schema(99), Err(Error::Schema { found: 99, supported: 1 }));
}

#[test]
fn a_rewritten_file_holds_the_same_program_at_a1() {
    let program = new_program(Category::Bass, "Moved", None).unwrap();
    let bytes = program.a1_file().unwrap();
    let mut scan = Scan::new("/repo");
    scan.preset_file("presets/Bass/Moved - nyx.syx", Ok(bytes.clone()));
    let entries = &scan.slots[0].programs;
    assert_eq!(entries.len(), 1);
    assert_eq!(entries[0].slot, Some((0, 0)));
    assert_eq!(entries[0].program.as_bytes(), program.as_bytes());
    let slot = |stored: Option<(u8, u8)>| Slot {
        folder: "presets/Bass".to_owned(),
        category_dir: "Bass".to_owned(),
        collection: None,
        extra_depth: 0,
        stem: "Moved - nyx".to_owned(),
        syx: Some("presets/Bass/Moved - nyx.syx".to_owned()),
        toml: None,
        toml_text: None,
        meta: None,
        bytes: None,
        programs: vec![SyxEntry { slot: stored, program: program.clone() }],
    };
    let rewritten = normalised(&slot(Some((2, 9)))).unwrap().unwrap();
    assert_eq!(rewritten, bytes);
    assert!(normalised(&slot(Some((0, 0)))).is_none());
    assert!(normalised(&slot(None)).is_some());
}
