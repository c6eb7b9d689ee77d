use deepmind_patches::category::Category;
use deepmind_patches::error::Error;
use deepmind_patches::validate::Severity;
use deepmind_patches::create::new_program;
use deepmind_patches::fingerprint::Fingerprint;
use deepmind_patches::index::{HistoryEntry, Index};
use deepmind_patches::library::{Library, Scan};
use deepmind_patches::meta::PatchMeta;
use deepmind_patches::release::{pr_summary, summary};
use deepmind_patches::rules::run;
use deepmind_patches::slug::{id, slug};
use deepmind_patches::version::{Bump, Change, LibraryVersion};

#[test]
fn versions_print_and_read_back() {
    for text in ["0.0.0", "26.3.1", "99.4294967295.7", "1.10.100"] {
        let version = LibraryVersion::parse(text).unwrap();
        assert_eq!(version.to_string(), text);
        assert_eq!(LibraryVersion::parse(&version.to_string()).unwrap(), version);
        assert_eq!(LibraryVersion::from_tag(&version.tag()).unwrap(), version);
    }
}

#[test]
fn a_bump_is_one_step() {
    let version = LibraryVersion::parse("26.3.1").unwrap();
    for bump in [Bump::Patch, Bump::Release] {
        assert_eq!(version.step_to(version.next(bump, 26), 26).unwrap(), bump);
    }
    for bump in [Bump::Patch, Bump::Release, Bump::Year] {
        assert_eq!(version.step_to(version.next(bump, 27), 27).unwrap(), Bump::Year);
    }
}

#[test]
fn slugs_are_clean_and_stable() {
    for text in ["  Acid   Growl  ", "a/b\u{7}c", "\t", "x - y", "Bits - Pieces\n"] {
        let once = slug(text);
        assert_eq!(slug(&once), once);
        assert!(!once.starts_with(' ') && !once.ends_with(' ') && !once.contains("  "));
        assert!(!once.chars().any(|c| c.is_control() || "/\\:*?\"<>|".contains(c)));
    }
    let made = id("Sound Effects", Some("--Weird!! Set--"), "Ä Name", "-nyx-");
    assert!(made.chars().all(|c| c.is_ascii_lowercase() || c.is_ascii_digit() || c == '-' || c == '/'));
    assert_eq!(made, "sound-effects/weird-set/name-nyx");
}

const MINIMAL: &str = "name = \"Acid Growl\"\nauthor = \"nyx\"\nversion = 2\nabout = \"Bass.\"\nlicence = \"CC-BY-4.0\"\nrole = [\"bass\"]\n";

fn one_patch_library() -> (Library, Fingerprint) {
    let mut scan = Scan::new("/repo");
    scan.taxonomy_read(Ok("[role]\nbass = \"Bottom.\"\n".to_owned()));
    let program = new_program(Category::Bass, "Acid Growl", None).unwrap();
    let fingerprint = Fingerprint::of(&program);
    let syx = program.a1_file().unwrap();
    scan.preset_file("presets/Bass/Acid Growl - nyx.syx", Ok(syx));
    scan.preset_file("presets/Bass/Acid Growl - nyx.toml", Ok(MINIMAL.as_bytes().to_vec()));
    let findings = run(&scan);
    assert!(findings.iter().all(|f| !f.to_string().contains("Acid Growl - nyx.syx: a frame")));
    (Library::from_scan(scan), fingerprint)
}

#[test]
fn a_dumped_program_is_found_in_the_index() {
    let (library, fingerprint) = one_patch_library();
    assert_eq!(library.patches().len(), 1);
    assert_eq!(library.patches()[0].id, "bass/acid-growl-nyx");
    let old = Fingerprint([7; 32]);
    let history = vec![(
        "bass/acid-growl-nyx".to_owned(),
        vec![HistoryEntry { version: 1, fingerprint: old }, HistoryEntry { version: 3, fingerprint: old }],
    )];
    let version = LibraryVersion::parse("26.1.0").unwrap();
    let index = Index::build(&library, version, "abc", "2026-09-21T10:31:07Z", &history);
    assert_eq!(index.catalogue.patches, 1);
    let patch = &index.patches[0];
    assert_eq!(
        patch.history,
        vec![HistoryEntry { version: 1, fingerprint: old }, HistoryEntry { version: 2, fingerprint }]
    );
    let now = index.lookup(&fingerprint).unwrap();
    assert_eq!((now.version, now.latest), (2, true));
    let then = index.lookup(&old).unwrap();
    assert_eq!((then.version, then.latest), (1, false));
    assert!(index.lookup(&Fingerprint([9; 32])).is_none());
    assert_eq!(index.get("bass/acid-growl-nyx").unwrap().name, "Acid Growl");
}

#[test]
fn summaries_count_and_tabulate() {
    let (library, _) = one_patch_library();
    assert_eq!(summary(&library), "1 patches by 1 authors, 0 demos. Bass 1.");
    let changes = vec![(Change::Modified, "presets/Bass/Acid Growl - nyx.syx".to_owned())];
    let table = pr_summary(&library, &changes);
    assert!(table.starts_with("| Patch | Category | Version | Effects | Arp | Voices | Routings | Licence |\n"));
    assert!(table.contains("| Acid Growl by nyx | Bass | 2 |"));
    assert_eq!(pr_summary(&library, &[]), "No patches changed.\n");
}

#[test]
fn metadata_written_as_a_document_reads_back() {
    let text = "name = \"Acid Growl\"\nauthor = \"nyx\"\nversion = 2\nabout = \"Bass.\"\nlicence = \"MIT\"\nmood = [\"dark\"]\nicon = [\".......\", \"..###..\", \".#...#.\", \".#...#.\", \".#####.\", \".#...#.\", \".......\"]\ncreated = 2026-09-21\nmodel = \"DeepMind 12\"\ntags = [\"303\"]\n[[demo]]\nabout = \"Dry.\"\n[[demo]]\nvariant = \"mod wheel\"\n";
    let meta = PatchMeta::parse(text).unwrap();
    assert_eq!(meta.created.as_deref(), Some("2026-09-21"));
    let back = PatchMeta::from_document(meta.to_document()).unwrap();
    assert_eq!(back, meta);
}

#[test]
fn opening_refuses_a_checkout_with_errors() {
    let mut scan = Scan::new("/repo");
    scan.preset_file("presets/Nope/Zap - nyx.toml", Ok(MINIMAL.as_bytes().to_vec()));
    let errors = run(&scan).iter().filter(|f| f.severity == Severity::Error).count();
    assert!(errors > 0);
    match Library::open_scan(scan) {
        Err(Error::Invalid(n)) => assert_eq!(n, errors),
        Err(other) => panic!("unexpected error {}", other.to_string()),
        Ok(_) => panic!("a checkout with errors was opened"),
    }
}

#[test]
fn a_folder_spelled_the_instrument_way_is_its_category() {
    let mut scan = Scan::new("/repo");
    let program = new_program(Category::Sfx, "Zap", None).unwrap();
    scan.preset_file("presets/SFX/Zap - nyx.syx", Ok(program.a1_file().unwrap()));
    let toml = "name = \"Zap\"\nauthor = \"nyx\"\nversion = 1\nabout = \"Zap.\"\nlicence = \"CC-BY-4.0\"\n";
    scan.preset_file("presets/SFX/Zap - nyx.toml", Ok(toml.as_bytes().to_vec()));
    assert!(run(&scan).iter().all(|f| !f.to_string().contains("is not a category")));
    let library = Library::from_scan(scan);
    assert_eq!(library.patches().len(), 1);
    assert_eq!(library.patches()[0].id, "sound-effects/zap-nyx");
    assert_eq!(library.patches()[0].category, Category::Sfx);
}

#[test]
fn filing_a_preset_records_its_programs_and_problems() {
    let mut scan = Scan::new("/repo");
    let program = new_program(Category::Bass, "Acid Growl", None).unwrap();
    scan.preset_file("presets/Bass/Set/Acid Growl - nyx.syx", Ok(program.a1_file().unwrap()));
    scan.preset_file("presets/Bass/Set/Acid Growl - nyx.toml", Err("denied".to_owned()));
    scan.preset_file("presets/Bass/Other - nyx.toml", Ok(vec![0xff]));
    assert_eq!(scan.slots.len(), 2);
    let set = scan.slots.iter().find(|s| s.stem == "Acid Growl - nyx").unwrap();
    assert_eq!(set.category_dir, "Bass");
    assert_eq!(set.collection.as_deref(), Some("Set"));
    assert_eq!(set.extra_depth, 0);
    assert_eq!(set.programs.len(), 1);
    assert_eq!(set.programs[0].slot, Some((0, 0)));
    assert_eq!(set.syx.as_deref(), Some("presets/Bass/Set/Acid Growl - nyx.syx"));
    assert_eq!(set.toml.as_deref(), Some("presets/Bass/Set/Acid Growl - nyx.toml"));
    assert!(set.meta.is_none());
    let other = scan.slots.iter().find(|s| s.stem == "Other - nyx").unwrap();
    assert!(other.collection.is_none() && other.syx.is_none() && other.toml_text.is_none());
    let messages: Vec<&str> = scan.problems.iter().map(|f| f.message.as_str()).collect();
    assert_eq!(messages, ["denied", "stream did not contain valid UTF-8"]);
    assert_eq!(scan.problems[0].path, "presets/Bass/Set/Acid Growl - nyx.toml");
}

#[test]
fn findings_come_in_order_without_repeats() {
    let mut scan = Scan::new("/repo");
    scan.preset_file("presets/Nope/Zap - nyx.toml", Ok(MINIMAL.as_bytes().to_vec()));
    scan.preset_file("presets/Bass/Zap - nyx.toml", Ok(vec![0xff]));
    scan.preset_file("presets/Bass-x/Zap - nyx.toml", Err("denied".to_owned()));
    let findings = run(&scan);
    assert!(findings.len() > 3);
    let key = |f: &deepmind_patches::validate::Finding| {
        let codes: Vec<u32> = f.path.chars().map(|c| if c == '/' { 1 } else { c as u32 + 2 }).collect();
        (codes, f.line, f.message.clone())
    };
    for pair in findings.windows(2) {
        assert!(key(&pair[0]) <= key(&pair[1]));
        assert!(pair[0] != pair[1]);
    }
}

#[test]
fn slugs_keep_words_and_join_them_with_one_space() {
    assert_eq!(slug(" Acid \t\n Growl "), format!("{} {}", slug(" Acid"), slug("Growl ")));
    assert_eq!(slug("a/b|c:d"), format!("{}{}", slug("a/b"), slug("|c:d")));
    assert_eq!(slug("a/b|c:d"), "a_b_c_d");
    let text = "  x\ty/z \u{7}w ";
    let kept: String = slug(text).chars().filter(|&c| c != ' ').collect();
    assert_eq!(kept, "xy_z_w");
}
