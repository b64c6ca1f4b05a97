use hawellha::converters::{
    batch_targets_for, compound_extension_of, convert_file, default_output_dir, ensure_parent_dir,
    extension_of, images, is_supported, kind_of_extension, kind_of_path, media, mime_of, needs_of,
    resolve_output_path, route_of, targets_for, ConversionError, ConvertOptions, Delivery, Engine,
    FileKind, Reading, Source,
};

fn file(content: &[u8]) -> Source {
    Source { content: Ok(content.to_vec()), ..Source::unread(true, true, false) }
}

#[test]
fn matrix_spot_checks() {
    assert!(is_supported("csv", "xlsx"));
    assert!(is_supported("xlsx", "csv"));
    assert!(is_supported("json", "csv"));
    assert!(is_supported("png", "jpg"));
    assert!(is_supported("mp4", "mp3"));
    assert!(is_supported("txt", "pdf"));
    assert!(is_supported("md", "html"));
    assert!(is_supported("txt", "html"));
    assert!(is_supported("html", "txt"));
    assert!(!is_supported("mp3", "xlsx"));
    assert!(!is_supported("png", "mp3"));
    assert!(!is_supported("csv", "csv"));
}

#[test]
fn unsupported_pairs_are_not_on_offer() {
    assert!(!is_supported("xls", "xlsx"));
    assert!(!is_supported("txt", "gz"));
    assert!(is_supported("txt", "TAR.GZ"));
}

#[test]
fn output_paths() {
    let dir = "/tmp/out";
    assert_eq!(
        resolve_output_path("/a/report.csv", "xlsx", dir),
        "/tmp/out/report.xlsx".to_string()
    );
    assert_eq!(
        resolve_output_path("/a/photo.PNG", "jpg", dir),
        "/tmp/out/photo.jpg".to_string()
    );
    assert_eq!(
        resolve_output_path("/a/files.zip", "extract", dir),
        "/tmp/out/files".to_string()
    );
}

#[test]
fn output_paths_of_tar_archives() {
    assert_eq!(resolve_output_path("/a/src.tar.gz", "extract", "/o"), "/o/src");
    assert_eq!(resolve_output_path("/a/notes.txt", "tgz", "/o/"), "/o/notes.tar.gz");
    assert_eq!(resolve_output_path("/a/notes.txt", "TAR.GZ", "/o"), "/o/notes.tar.gz");
    assert_eq!(resolve_output_path("/", "csv", "/o"), "/o/converted.csv");
}

#[test]
fn image_matrix() {
    assert!(images::supports("png", "jpg"));
    assert!(images::supports("jpg", "webp"));
    assert!(!images::supports("png", "png"));
    assert!(!images::supports("png", "mp3"));
}

#[test]
fn media_matrix() {
    assert!(media::supports_audio("mp3", "wav"));
    assert!(media::supports_video_to_audio("mp4", "mp3"));
    assert!(media::supports_video_remux("mp4", "mkv"));
    assert!(!media::supports_audio("mp3", "mp3"));
    assert!(!media::supports_audio("mp3", "xlsx"));
}

#[test]
fn extensions_and_kinds() {
    assert_eq!(extension_of("/a/b.XLSX"), "xlsx");
    assert_eq!(extension_of("/a/.hidden"), "");
    assert_eq!(compound_extension_of("/a/b.TAR.gz"), "tar.gz");
    assert_eq!(compound_extension_of("/a/b.tgz"), "tar.gz");
    assert_eq!(kind_of_extension("ods"), FileKind::Tabular);
    assert_eq!(kind_of_extension("tif"), FileKind::Image);
    assert_eq!(kind_of_extension("opus"), FileKind::Audio);
    assert_eq!(kind_of_extension("ogv"), FileKind::Video);
    assert_eq!(kind_of_extension("markdown"), FileKind::Document);
    assert_eq!(kind_of_extension("exe"), FileKind::Unknown);
    assert_eq!(kind_of_path("/a/b.tar.gz"), FileKind::Archive);
    assert_eq!(kind_of_path("/a/b.png"), FileKind::Image);
}

#[test]
fn mime_types_are_guessed_from_the_name() {
    assert_eq!(mime_of("/a/b.png"), "image/png");
    assert_eq!(mime_of("/a/b.unheard-of"), "application/octet-stream");
}

#[test]
fn targets_on_offer() {
    assert_eq!(targets_for("csv"), vec!["xlsx", "json", "tsv"]);
    assert_eq!(targets_for("XLS"), vec!["csv", "tsv", "json"]);
    assert_eq!(targets_for("jpeg"), vec!["png", "webp", "bmp", "tiff", "gif"]);
    assert_eq!(targets_for("zip"), vec!["extract"]);
    assert_eq!(targets_for("exe"), vec!["zip", "tar.gz"]);
    for from in ["csv", "xls", "json", "png", "mp3", "mkv", "md", "pdf", "html", "bin"] {
        for to in targets_for(from) {
            assert!(is_supported(from, &to), "{from} to {to}");
        }
    }
}

#[test]
fn batch_targets_are_listed_once() {
    let all = batch_targets_for(&vec!["csv".to_string(), "json".to_string(), "tsv".to_string()]);
    assert_eq!(all, vec!["xlsx", "json", "tsv", "csv"]);
    assert_eq!(batch_targets_for(&Vec::new()), Vec::<String>::new());
}

#[test]
fn routing() {
    assert_eq!(route_of("/a/b.csv", true, "/o/b.json").unwrap(), Engine::Tabular);
    assert_eq!(route_of("/a/b.png", true, "/o/b.bmp").unwrap(), Engine::Image);
    assert_eq!(route_of("/a/b.mp4", true, "/o/b.mp3").unwrap(), Engine::Media);
    assert_eq!(route_of("/a/b.md", true, "/o/b.pdf").unwrap(), Engine::Document);
    assert_eq!(route_of("/a/b.bin", true, "/o/b.tar.gz").unwrap(), Engine::Archive);
    assert_eq!(route_of("/a/b.zip", true, "/o/b").unwrap(), Engine::Archive);
}

#[test]
fn refused_routes() {
    let e = route_of("/a/README", true, "/o/README.zip").unwrap_err();
    assert_eq!(e.message(), "unsupported conversion: (no extension) → zip");
    let e = route_of("/a/b.mp3", true, "/o/b.xlsx").unwrap_err();
    assert_eq!(e.message(), "unsupported conversion: mp3 → xlsx");
    let e = route_of("/a/b.csv", false, "/o/b.json").unwrap_err();
    assert_eq!(
        e.message(),
        "cannot read input file '/a/b.csv': file does not exist or is not a regular file"
    );
}

#[test]
fn error_messages() {
    let s = |t: &str| t.to_string();
    let e = ConversionError::UnwritableOutput { path: s("/o"), reason: s("full") };
    assert_eq!(e.message(), "cannot write output file '/o': full");
    let e = ConversionError::MalformedData { path: s("/i"), format: s("CSV"), reason: s("bad") };
    assert_eq!(e.message(), "malformed CSV data in '/i': bad");
    assert_eq!(ConversionError::ExternalTool(s("x")).message(), "external tool failed: x");
    assert_eq!(ConversionError::Io(s("x")).message(), "I/O error: x");
}

#[test]
fn supported_pairs_reach_their_engine() {
    let opts = ConvertOptions::default();
    let d = convert_file("/a/t.csv", file(b"a,b\n1,2\n"), "/o/t.json", &opts).unwrap();
    assert!(matches!(d, Delivery::Text(_)));
    let d = convert_file("/a/t.txt", file(b"hello"), "/o/t.md", &opts).unwrap();
    assert!(matches!(d, Delivery::Copy));
    let d = convert_file("/a/t.mp3", file(b""), "/o/t.wav", &opts).unwrap();
    assert!(matches!(d, Delivery::Media(_)));
    let d = convert_file("/a/t.bin", file(b"x"), "/o/t.tar", &opts).unwrap();
    assert!(matches!(d, Delivery::Bytes(_)));
    let e = convert_file("/a/t.bin", file(b"x"), "/o/t.gz", &opts).unwrap_err();
    assert_eq!(e.message(), "unsupported conversion: bin → gz");
    let e = convert_file("/a/t.xls", file(b"x"), "/o/t.xlsx", &opts).unwrap_err();
    assert_eq!(e.message(), "unsupported conversion: xls → xlsx");
}

#[test]
fn needs_before_converting() {
    let n = needs_of(Engine::Tabular, "/a/t.csv", "/o/x/t.json");
    assert_eq!(n.folder.as_deref(), Some("/o/x"));
    assert_eq!(n.reading, Reading::Bytes);
    assert_eq!(needs_of(Engine::Tabular, "/a/t.ods", "/o/t.json").reading, Reading::Workbook);
    assert_eq!(needs_of(Engine::Image, "/a/t.png", "/o/t.gif").reading, Reading::Picture);
    let n = needs_of(Engine::Media, "/a/t.mp3", "t.wav");
    assert_eq!(n.folder, None);
    assert_eq!(n.reading, Reading::Nothing);
    let n = needs_of(Engine::Document, "/a/t.txt", "/o/t.md");
    assert_eq!(n.reading, Reading::Nothing);
    let n = needs_of(Engine::Archive, "/a/t.zip", "/o/t");
    assert_eq!(n.folder, None);
    assert_eq!(n.reading, Reading::Bytes);
    let n = needs_of(Engine::Archive, "/a/t.bin", "/o/t.tar.gz");
    assert_eq!(n.folder.as_deref(), Some("/o"));
    assert_eq!(n.reading, Reading::Bytes);
}

#[test]
fn output_directories() {
    assert_eq!(ensure_parent_dir("/a/b/c.txt").as_deref(), Some("/a/b"));
    assert_eq!(ensure_parent_dir("c.txt"), None);
    assert_eq!(ensure_parent_dir("/"), None);
    let t = || "/tmp".to_string();
    assert_eq!(default_output_dir(Some("/home/u/Downloads".to_string()), t()), "/home/u/Downloads");
    assert_eq!(default_output_dir(None, t()), "/tmp");
}

#[test]
fn default_options() {
    let o = ConvertOptions::default();
    assert_eq!(o.jpeg_quality, 90);
    assert_eq!(o.webp_quality, 90);
    assert_eq!(o.resize_width, None);
    assert_eq!(o.resize_height, None);
    assert_eq!(o.csv_delimiter, None);
    assert_eq!(o.audio_bitrate_kbps, 192);
}
