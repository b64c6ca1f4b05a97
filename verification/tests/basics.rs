use hawellha::app::FileStatus;
use hawellha::converters::FileKind;
use hawellha::number::{decimal_of, nearest_to, read_unsigned, reads_as_real, signed_decimal_of};
use hawellha::paths;
use hawellha::text;
use hawellha::ui::components::{
    drop_zone_body, file_icon, human_size, icon_name_for_kind, source_badge, status_label,
};
use std::path::Path;

#[test]
fn sizes_for_people() {
    assert_eq!(human_size(0), "0 B");
    assert_eq!(human_size(1023), "1023 B");
    assert_eq!(human_size(1024), "1.0 KiB");
    assert_eq!(human_size(1536), "1.5 KiB");
    assert_eq!(human_size(5 * 1024 * 1024), "5.0 MiB");
}

#[test]
fn sizes_agree_with_floating_point() {
    let units = ["B", "KiB", "MiB", "GiB", "TiB"];
    for bytes in [
        1u64, 999, 1024, 1087, 1088, 1089, 10239, 10240, 1048575, 1048576, 1073741823, 1073741824,
        987654321, 123456789012, 1099511627775, 1125899906842624, u64::MAX, u64::MAX - 1023,
    ] {
        let mut size = bytes as f64;
        let mut unit = 0;
        while size >= 1024.0 && unit < units.len() - 1 {
            size /= 1024.0;
            unit += 1;
        }
        let expected = if unit == 0 {
            format!("{bytes} B")
        } else {
            format!("{size:.1} {}", units[unit])
        };
        assert_eq!(human_size(bytes), expected, "{bytes}");
    }
}

#[test]
fn labels_and_icons() {
    assert_eq!(status_label(&FileStatus::Pending), "Ready");
    assert_eq!(status_label(&FileStatus::Failed), "Failed");
    assert_eq!(file_icon(FileKind::Audio).name, icon_name_for_kind(FileKind::Audio));
    assert_eq!(source_badge("tar.gz"), "TAR.GZ");
    assert_ne!(drop_zone_body(true).headline, drop_zone_body(false).headline);
}

#[test]
fn paths_agree_with_the_standard_library() {
    for p in [
        "/a/b.txt", "a/b/", "a//b", "/", "", ".", "..", "a/.", "./a", "a/..", "/a/./b", ".hidden",
        "a.tar.gz", "x/.y.z", "a.", "//a", "/..", "a/b.c/d",
    ] {
        let std_path = Path::new(p);
        let name = std_path.file_name().map(|x| x.to_str().unwrap().to_string());
        let extension = std_path.extension().map(|x| x.to_str().unwrap().to_string());
        let stem = std_path.file_stem().map(|x| x.to_str().unwrap().to_string());
        assert_eq!(paths::file_name_of(p), name, "name of {p:?}");
        assert_eq!(paths::extension_of(p), extension, "extension of {p:?}");
        assert_eq!(paths::file_stem_of(p), stem, "stem of {p:?}");
        assert_eq!(
            paths::parent_of(p),
            std_path.parent().map(|x| x.to_str().unwrap().to_string()),
            "parent of {p:?}"
        );
        assert_eq!(paths::absolute(p), std_path.is_absolute(), "{p:?}");
        assert_eq!(paths::components_of(p).len(), std_path.components().count(), "{p:?}");
        for q in ["x", "/x", "x/y", ""] {
            assert_eq!(paths::joined(p, q), std_path.join(q).to_str().unwrap(), "{p:?} and {q:?}");
            assert_eq!(paths::same_path(p, q), std_path == Path::new(q), "{p:?} and {q:?}");
        }
    }
}

#[test]
fn text_agrees_with_the_standard_library() {
    for s in ["", "a b", "  a\tb\n", "A\u{a0}B", "x\r\ny\n\nz", "\u{2003}w\u{3000}", "äÖ", "a,b,,c"] {
        assert_eq!(text::trimmed(s), s.trim());
        assert_eq!(text::without_lead(s), s.trim_start());
        assert_eq!(text::without_tail(s), s.trim_end());
        assert_eq!(text::words_of(s), s.split_whitespace().collect::<Vec<_>>());
        assert_eq!(text::lines_of(s), s.lines().collect::<Vec<_>>());
        assert_eq!(text::split_at_char(s, ','), s.split(',').collect::<Vec<_>>());
        assert_eq!(text::to_lower(s), s.to_ascii_lowercase());
        assert_eq!(text::is_blank(s), s.trim().is_empty());
        assert_eq!(text::replaced(s, "a", "xx"), s.replace("a", "xx"));
        assert_eq!(text::has_end(s, "\n"), s.ends_with('\n'));
    }
    for c in '\0'..='\u{4000}' {
        assert_eq!(text::space(c), c.is_whitespace(), "{c:?}");
    }
}

#[test]
fn numerals() {
    assert_eq!(decimal_of(0), "0");
    assert_eq!(decimal_of(u64::MAX), u64::MAX.to_string());
    assert_eq!(signed_decimal_of(i64::MIN), i64::MIN.to_string());
    for s in ["0", "7", "+8", "255", "256", "-1", "", "+", " 1", "00012", "99999999999"] {
        assert_eq!(read_unsigned(s, 255), s.parse::<u8>().ok().map(|n| n as u32), "{s:?}");
    }
}

#[test]
fn real_numerals() {
    for s in [
        "1", "-1", "+.5", "5.", ".", "", "1e5", "1e", "1e+5", "e5", "inf", "-Infinity", "nan",
        "NaNs", "1.2.3", "0x10", "1_000", " 1", "1E-3", "+", "-", "1.5e3", "infinit",
    ] {
        assert_eq!(reads_as_real(s), s.parse::<f64>().is_ok(), "{s:?}");
    }
}

#[test]
fn rounding_agrees_with_single_precision() {
    for n in [0u128, 1, 16777215, 16777216, 16777217, 16777219, 33554433, 123456789, 4294967295] {
        assert_eq!(nearest_to(n, 1, 1 << 24), (n as f32) as u128, "{n}");
    }
}
