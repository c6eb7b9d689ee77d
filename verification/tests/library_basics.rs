use deepmind_patches::category::Category;
use deepmind_patches::index::raw_url;
use deepmind_patches::slug::{demo_stem, id, slug, stem};
use deepmind_patches::taxonomy::{is_term, Axis, Taxonomy};
use deepmind_patches::validate::{line_of, Finding};

#[test]
fn values_round_trip() {
    for category in Category::ALL {
        assert_eq!(Category::from_value(category.value()), Some(category));
        assert_eq!(Category::from_name(category.name()), Some(category));
        assert_eq!(Category::from_label(category.label()), Some(category));
        assert_eq!(Category::label_of_value(category.value()), category.label());
    }
    assert_eq!(Category::from_value(0), None);
    assert_eq!(Category::from_value(13), None);
}

#[test]
fn folder_names_take_either_spelling() {
    assert_eq!(Category::from_name("SFX"), Some(Category::Sfx));
    assert_eq!(Category::from_name("Pad"), Some(Category::Pad));
    assert_eq!(Category::from_name("Seq"), Some(Category::Sequence));
    assert_eq!(Category::from_name("Sound Effects"), Some(Category::Sfx));
    assert_eq!(Category::from_name("Bass"), Some(Category::Bass));
    assert_eq!(Category::from_name("sfx"), None);
    assert_eq!(Category::from_name("Seqs"), None);
    for category in Category::ALL {
        assert_eq!(Category::from_name(category.label()), Some(category));
        assert_eq!(Category::from_name(category.name()), Some(category));
    }
}

#[test]
fn urls_are_encoded() {
    assert_eq!(
        raw_url("o/r", "abc", "presets/Bass/Acid Growl - nyx.syx"),
        "https://raw.githubusercontent.com/o/r/abc/presets/Bass/Acid%20Growl%20-%20nyx.syx"
    );
}

#[test]
fn slug_keeps_names_readable() {
    assert_eq!(slug("Acid Growl"), "Acid Growl");
    assert_eq!(slug("  A   B\t"), "A B");
    assert_eq!(slug("a/b:c*d?e\"f<g>h|i\\j"), "a_b_c_d_e_f_g_h_i_j");
    assert_eq!(slug("x\u{7}y"), "x_y");
}

#[test]
fn stems_and_ids() {
    assert_eq!(stem("Acid Growl", "nyx"), "Acid Growl - nyx");
    assert_eq!(
        demo_stem("Acid Growl - nyx", Some("mod wheel")),
        "Acid Growl - nyx (mod wheel)"
    );
    assert_eq!(demo_stem("Acid Growl - nyx", None), "Acid Growl - nyx");
    assert_eq!(id("SFX", None, "Acid Growl", "nyx"), "sfx/acid-growl-nyx");
    assert_eq!(
        id("Pad", Some("Aurora Pads"), "Aurora 1", "Bits - Pieces"),
        "pad/aurora-pads/aurora-1-bits-pieces"
    );
}

#[test]
fn parses_and_looks_up() {
    let taxonomy =
        Taxonomy::parse("[genre]\ntechno = \"Machine music.\"\n[role]\nbass = \"Bottom.\"\n").unwrap();
    assert!(taxonomy.contains(Axis::Genre, "techno"));
    assert!(!taxonomy.contains(Axis::Mood, "techno"));
    assert_eq!(taxonomy.malformed_terms().len(), 0);
}

#[test]
fn unknown_axis_is_refused() {
    assert!(Taxonomy::parse("[colour]\nred = \"x\"\n").is_err());
}

#[test]
fn terms_are_lowercase_words() {
    assert!(is_term("drum-and-bass"));
    assert!(!is_term("Techno"));
    assert!(!is_term("-x"));
    assert!(!is_term(""));
}

#[test]
fn finds_lines() {
    let text = "name = \"x\"\nauthor=\"y\"\n\n[[demo]]\nabout = \"z\"\n";
    assert_eq!(line_of(text, "name"), Some(1));
    assert_eq!(line_of(text, "author"), Some(2));
    assert_eq!(line_of(text, "[[demo]]"), Some(4));
    assert_eq!(line_of(text, "about"), Some(5));
    assert_eq!(line_of(text, "nope"), None);
}

#[test]
fn annotation_format() {
    let finding = Finding::error("presets/Bass/x.toml", "bad").at(Some(3)).hint("Fix it.");
    assert_eq!(finding.annotation(), "::error file=presets/Bass/x.toml,line=3::bad Fix it.");
    assert_eq!(finding.to_string(), "error: presets/Bass/x.toml:3: bad Fix it.");
}
