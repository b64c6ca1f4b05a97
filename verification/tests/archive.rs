use hawellha::converters::archive::{
    looks_like_file_target, safe_join, supports_pack, supports_unpack, unpack_dir_of,
    unpack_targets_for, ArchiveConverter,
};
use hawellha::converters::packing::{pack_tar, pack_tar_gz, pack_zip, packed_name_of, Walked};
use hawellha::converters::unpacking::{
    extract_archive, extract_tar, extract_zip, unpack_tar_entries, Unpack,
};
use hawellha::converters::{ConvertOptions, Converter, Delivery, Source};
use hawellha::outside::tars::Stamp;

fn file(content: &[u8]) -> Source {
    Source { content: Ok(content.to_vec()), ..Source::unread(true, true, false) }
}

fn list(names: &[&str]) -> Vec<String> {
    names.iter().map(|s| s.to_string()).collect()
}

fn tar_of(entries: &[(&str, &[u8])]) -> Vec<u8> {
    let mut builder = tar::Builder::new(Vec::new());
    for (name, data) in entries {
        let mut header = tar::Header::new_gnu();
        header.set_size(data.len() as u64);
        header.set_mode(0o644);
        // The bytes are set by hand, as the builder refuses some paths.
        let raw = name.as_bytes();
        header.as_gnu_mut().unwrap().name[..raw.len()].copy_from_slice(raw);
        header.set_cksum();
        builder.append(&header, *data).unwrap();
    }
    builder.into_inner().unwrap()
}

#[test]
fn zip_pack_unpack_roundtrip() {
    let opts = ConvertOptions::default();
    let d = ArchiveConverter
        .convert("/d/hello.txt", file(b"hello archive"), "/d/hello.zip", &opts)
        .expect("pack");
    let zip = match d {
        Delivery::Bytes(b) => b,
        other => panic!("{other:?}"),
    };
    let d = ArchiveConverter
        .convert("/d/hello.zip", file(&zip), "/d/out", &opts)
        .expect("unpack");
    let plan = match d {
        Delivery::Unpack(p) => p,
        other => panic!("{other:?}"),
    };
    assert!(plan.failure.is_none());
    assert_eq!(plan.dest, "/d/out");
    assert_eq!(plan.steps.len(), 1);
    match &plan.steps[0] {
        Unpack::File { folder, path, data } => {
            assert_eq!(folder.as_deref(), Some("/d/out"));
            assert_eq!(path, "/d/out/hello.txt");
            assert_eq!(data, b"hello archive");
        }
        other => panic!("{other:?}"),
    }
}

#[test]
fn zip_keeps_unusual_names() {
    let opts = ConvertOptions::default();
    let d = ArchiveConverter
        .convert("/d/c:a\\b.txt", file(b"x"), "/d/a.zip", &opts)
        .expect("pack");
    let zip = match d {
        Delivery::Bytes(b) => b,
        other => panic!("{other:?}"),
    };
    match ArchiveConverter.convert("/d/a.zip", file(&zip), "/d/out", &opts).expect("unpack") {
        Delivery::Unpack(p) => match &p.steps[..] {
            [Unpack::File { path, data, .. }] => {
                assert_eq!(path, "/d/out/c:a\\b.txt");
                assert_eq!(data, b"x");
            }
            other => panic!("{other:?}"),
        },
        other => panic!("{other:?}"),
    }
}

#[test]
fn zip_slip_rejected() {
    let dest = "/tmp/hawellha_dest";
    assert!(safe_join(dest, "../evil.sh").is_none());
    assert!(safe_join(dest, "/absolute").is_none());
    assert!(safe_join(dest, "ok/nested.txt").is_some());
}

#[test]
fn entries_stay_below_the_destination() {
    assert_eq!(safe_join("/d", "a/./b//c").as_deref(), Some("/d/a/b/c"));
    assert_eq!(safe_join("/d", "./a").as_deref(), Some("/d/a"));
    assert_eq!(safe_join("/d", "").as_deref(), Some("/d"));
    assert_eq!(safe_join("/d", "a/../b"), None);
}

#[test]
fn folders_are_packed_in_order() {
    let source = Source {
        content: Err("a folder".to_string()),
        found: vec![
            Walked::File { trail: list(&["a.txt"]), content: Ok(b"one".to_vec()) },
            Walked::Folder { trail: list(&["sub"]) },
            Walked::File { trail: list(&["sub", "b.txt"]), content: Ok(b"two".to_vec()) },
        ],
        ..Source::unread(true, false, true)
    };
    let zip = pack_zip("/d/dir", &source, "/d/dir.zip").unwrap();
    let plan = extract_zip("/d/dir.zip", zip, "/o");
    assert!(plan.failure.is_none());
    assert_eq!(plan.steps.len(), 3);
    assert!(matches!(&plan.steps[0], Unpack::File { path, data, .. } if path == "/o/a.txt" && data == b"one"));
    assert!(matches!(&plan.steps[1], Unpack::Folder(path) if path == "/o/sub"));
    assert!(matches!(&plan.steps[2], Unpack::File { path, data, .. } if path == "/o/sub/b.txt" && data == b"two"));
}

#[test]
fn packing_failures() {
    let gone = Source { content: Err("denied".to_string()), ..file(b"") };
    let e = pack_zip("/d/a.txt", &gone, "/d/a.zip").unwrap_err();
    assert_eq!(e.message(), "cannot read input file '/d/a.txt': denied");
    let folder = |found| Source {
        content: Err("a folder".to_string()),
        found,
        ..Source::unread(true, false, true)
    };
    let e = pack_zip("/d/x", &folder(vec![Walked::Unlisted("denied".to_string())]), "/d/x.zip").unwrap_err();
    assert_eq!(e.message(), "I/O error: denied");
    let unread = Walked::File { trail: list(&["a"]), content: Err("denied".to_string()) };
    let e = pack_zip("/d/x", &folder(vec![unread]), "/d/x.zip").unwrap_err();
    assert_eq!(e.message(), "cannot read input file '/d/x/a': denied");
    let twice = vec![
        Walked::File { trail: list(&["a"]), content: Ok(Vec::new()) },
        Walked::File { trail: list(&["a"]), content: Ok(Vec::new()) },
    ];
    let e = pack_zip("/d/x", &folder(twice), "/d/x.zip").unwrap_err();
    assert!(e.message().starts_with("cannot write output file '/d/x': "), "{}", e.message());
    let long = Walked::Folder { trail: vec!["n".repeat(70_000)] };
    let e = pack_zip("/d/x", &folder(vec![long]), "/d/x.zip").unwrap_err();
    assert!(e.message().starts_with("cannot write output file '/d/x': "), "{}", e.message());
}

#[test]
fn unsafe_zip_entries_end_the_plan() {
    let mut writer = zip::ZipWriter::new(std::io::Cursor::new(Vec::new()));
    let options = zip::write::SimpleFileOptions::default();
    for name in ["good.txt", "../evil.sh", "later.txt"] {
        writer.start_file(name, options).unwrap();
        std::io::Write::write_all(&mut writer, b"x").unwrap();
    }
    let zip = writer.finish().unwrap().into_inner();
    let plan = extract_zip("/d/bad.zip", zip, "/o");
    assert_eq!(plan.steps.len(), 1);
    assert_eq!(
        plan.failure.unwrap().message(),
        "malformed ZIP data in '/d/bad.zip': unsafe entry path rejected: '../evil.sh'"
    );
}

#[test]
fn broken_archives_are_reported() {
    let plan = extract_zip("/d/bad.zip", b"junk".to_vec(), "/o");
    assert!(plan.steps.is_empty());
    assert!(plan.failure.unwrap().message().starts_with("malformed ZIP data in '/d/bad.zip': "));
    let plan = extract_tar("/d/bad.tar", &[1u8; 600], "/o");
    assert!(plan.steps.is_empty());
    assert!(plan.failure.unwrap().message().starts_with("malformed TAR data in '/d/bad.tar': "));
    let plan = extract_archive("/d/a.zip", Err("denied".to_string()), "/o");
    assert_eq!(plan.failure.unwrap().message(), "cannot read input file '/d/a.zip': denied");
}

#[test]
fn tar_entries_are_planned() {
    let tar = tar_of(&[("a.txt", b"one"), ("sub/b.txt", b"two")]);
    let plan = extract_tar("/d/x.tar", &tar, "/o");
    assert!(plan.failure.is_none());
    assert!(!plan.compressed);
    assert_eq!(plan.steps.len(), 2);
    assert!(matches!(&plan.steps[1], Unpack::Entry { path, link: false, data }
        if path == "/o/sub/b.txt" && data == b"two"));
    let zipped = pack_tar_gz(&tar, "/d/x.tar.gz").unwrap();
    assert_ne!(zipped, tar);
    let plan = extract_archive("/d/x.tar.gz", Ok(zipped.clone()), "/o");
    assert!(plan.failure.is_none());
    assert!(plan.compressed);
    assert_eq!(plan.steps.len(), 2);
    let plan = extract_archive("/d/x.TGZ", Ok(zipped), "/o");
    assert!(plan.compressed);
    assert_eq!(plan.steps.len(), 2);
}

#[test]
fn unsafe_tar_entries_end_the_plan() {
    let tar = tar_of(&[("ok", b"one"), ("../evil", b"two")]);
    let plan = extract_tar("/d/x.tar", &tar, "/o");
    assert_eq!(plan.steps.len(), 1);
    assert_eq!(
        plan.failure.unwrap().message(),
        "malformed TAR data in '/d/x.tar': unsafe entry path rejected: '../evil'"
    );
    let plan = unpack_tar_entries("/d/x.tar", Ok(vec![Err("cut".to_string())]), "/o", false);
    assert_eq!(plan.failure.unwrap().message(), "malformed TAR data in '/d/x.tar': cut");
}

#[test]
fn tar_pack_unpack_roundtrip() {
    let opts = ConvertOptions::default();
    let long = format!("/d/{}.txt", "n".repeat(150));
    for input in ["/d/hello.txt", "/d/ä b", long.as_str()] {
        for archive in ["/d/x.tar", "/d/x.tar.gz", "/d/x.TGZ", "/d/x.zip"] {
            let d = ArchiveConverter.convert(input, file(b"hello archive"), archive, &opts).unwrap();
            let bytes = match d {
                Delivery::Bytes(b) => b,
                other => panic!("{other:?}"),
            };
            let d = ArchiveConverter.convert(archive, file(&bytes), "/d/out", &opts).unwrap();
            let plan = match d {
                Delivery::Unpack(p) => p,
                other => panic!("{other:?}"),
            };
            assert!(plan.failure.is_none());
            assert_eq!(plan.steps.len(), 1);
            let expected = format!("/d/out/{}", packed_name_of(input));
            match &plan.steps[0] {
                Unpack::File { path, data, .. } | Unpack::Entry { path, link: false, data } => {
                    assert_eq!(path, &expected);
                    assert_eq!(data, b"hello archive");
                }
                other => panic!("{other:?}"),
            }
        }
    }
}

#[test]
fn tar_files_keep_the_stamp() {
    let stamp = Stamp { mode: 0o755, uid: 7, gid: 8, mtime: 9 };
    let source = Source { stamp, ..file(b"x") };
    let tar = pack_tar("/d/run", &source).unwrap();
    let mut archive = tar::Archive::new(&tar[..]);
    let entry = archive.entries().unwrap().next().unwrap().unwrap();
    assert_eq!(entry.header().mode().unwrap(), 0o755);
    assert_eq!(entry.header().uid().unwrap(), 7);
    assert_eq!(entry.header().gid().unwrap(), 8);
    assert_eq!(entry.header().mtime().unwrap(), 9);
    let gone = Source { content: Err("denied".to_string()), ..file(b"") };
    assert_eq!(
        pack_tar("/d/run", &gone).unwrap_err().message(),
        "cannot read input file '/d/run': denied"
    );
}

#[test]
fn links_are_not_followed() {
    let link = |kind: tar::EntryType, later: &str| {
        let mut builder = tar::Builder::new(Vec::new());
        let mut header = tar::Header::new_gnu();
        header.set_entry_type(kind);
        header.set_size(0);
        builder.append_link(&mut header, "l", "/tmp/x").unwrap();
        let mut header = tar::Header::new_gnu();
        header.set_size(1);
        builder.append_data(&mut header, later, &b"x"[..]).unwrap();
        builder.into_inner().unwrap()
    };
    for kind in [tar::EntryType::Symlink, tar::EntryType::Link] {
        for later in ["l/f", "l", "./l/a/b"] {
            let plan = extract_tar("/d/x.tar", &link(kind, later), "/o");
            assert_eq!(plan.steps.len(), 1);
            assert!(matches!(&plan.steps[0], Unpack::Entry { path, link: true, .. } if path == "/o/l"));
            assert!(plan.failure.unwrap().message().contains("unsafe entry path rejected"));
        }
        let plan = extract_tar("/d/x.tar", &link(kind, "lf"), "/o");
        assert!(plan.failure.is_none());
        assert_eq!(plan.steps.len(), 2);
    }
}

#[test]
fn directions() {
    let opts = ConvertOptions::default();
    let gone = Source { exists: false, is_file: false, ..file(b"") };
    let e = ArchiveConverter.convert("/d/a.txt", gone, "/d/a.zip", &opts).unwrap_err();
    assert_eq!(e.message(), "cannot read input file '/d/a.txt': file does not exist");
    let d = ArchiveConverter.convert("/d/a.txt", file(b""), "/d/a.tgz", &opts).unwrap();
    assert!(matches!(d, Delivery::Bytes(_)));
    let folder = Source::unread(true, false, true);
    let d = ArchiveConverter.convert("/d/a", folder, "/d/a.tgz", &opts).unwrap();
    assert!(matches!(d, Delivery::Tar { name, compressed: true } if name == "a"));
    let e = ArchiveConverter.convert("/d/a.txt", file(b""), "/d/a.gz", &opts).unwrap_err();
    assert_eq!(e.message(), "unsupported conversion: txt → gz");
}

#[test]
fn destinations() {
    assert!(looks_like_file_target("/o/a.txt"));
    assert!(looks_like_file_target("/o/a.ZIP"));
    assert!(!looks_like_file_target("/o/a"));
    assert!(!looks_like_file_target("/o/a.extract"));
    assert_eq!(unpack_dir_of("/o/a.txt"), "/o/a");
    assert_eq!(unpack_dir_of("/o/a.zip"), "/o/a");
    assert_eq!(unpack_dir_of("/o/a.extract"), "/o/a.extract");
    assert_eq!(unpack_dir_of("/o/files"), "/o/files");
    assert_eq!(packed_name_of("/d/a.txt"), "a.txt");
    assert_eq!(packed_name_of("/"), "file");
}

#[test]
fn archive_formats() {
    for e in ["zip", "tar.gz", "tgz", "tar"] {
        assert!(supports_pack(e) && supports_unpack(e));
    }
    assert!(supports_unpack("gz") && !supports_pack("gz"));
    assert!(!supports_pack("rar"));
    assert_eq!(unpack_targets_for("zip"), vec!["extract"]);
}
