use deepmind_patches::fetch::entries;
use deepmind_patches::fingerprint::sha256_hex;
use deepmind_patches::icon::Icon;
use deepmind_patches::release::side;
use deepmind_patches::version::LibraryVersion;
use deepmind_patches::Error;

#[test]
fn digests_are_sha256() {
    assert_eq!(sha256_hex(b"abc"), "ba7816bf8f01cfea414140de5dae2223b00361a396177a9cb410ff61f20015ad");
    assert_eq!(sha256_hex(b""), "e3b0c44298fc1c149afbf4c8996fb92427ae41e4649b934ca495991b7852b855");
}

#[test]
fn archives_give_their_files() {
    let mut builder = tar::Builder::new(flate2::write::GzEncoder::new(Vec::new(), flate2::Compression::default()));
    let mut dir = tar::Header::new_gnu();
    dir.set_entry_type(tar::EntryType::Directory);
    dir.set_size(0);
    dir.set_mode(0o755);
    dir.set_cksum();
    builder.append_data(&mut dir, "presets/", std::io::empty()).unwrap();
    let body = b"hello";
    let mut file = tar::Header::new_gnu();
    file.set_size(body.len() as u64);
    file.set_mode(0o644);
    file.set_cksum();
    builder.append_data(&mut file, "presets/a.syx", &body[..]).unwrap();
    let archive = builder.into_inner().unwrap().finish().unwrap();
    let files = entries(&archive).unwrap();
    assert_eq!(files, vec![("presets/a.syx".to_owned(), b"hello".to_vec())]);
    match entries(b"not a gzip stream") {
        Err(Error::Io { path, .. }) => assert_eq!(path, "archive"),
        other => panic!("expected an archive error, got {other:?}"),
    }
}

#[test]
fn messages_quote_what_was_refused() {
    let error = LibraryVersion::parse("26.3").unwrap_err();
    assert_eq!(error.to_string(), "version: \"26.3\" is not yy.release.patch");
    let error = LibraryVersion::parse("126.3.0").unwrap_err();
    assert_eq!(error.to_string(), "version: \"126.3.0\": year is two digits");
    let rows: Vec<String> = ["#......", ".x.....", ".......", ".......", ".......", ".......", "......."]
        .iter()
        .map(|row| (*row).to_owned())
        .collect();
    let error = Icon::parse(&rows).unwrap_err();
    assert!(error.to_string().starts_with("icon: "), "{}", error.to_string());
}

#[test]
fn invalid_utf8_is_replaced_not_refused() {
    let toml = b"name = \"A\"\nauthor = \"b\"\nversion = 1\nabout = \"x\xffy\"\nlicence = \"MIT\"\n";
    let read = side("presets/Bass/A - b.toml", toml, None).unwrap();
    assert_eq!(read.meta.about, "x\u{FFFD}y");
}
