use hawellha::converters::media::{
    after_run, audio_targets_for, convert_media, failed_run, ffmpeg_status, version_line,
    video_targets_for, AfterRun, MediaConverter, RunEnd, INSTALL_HINT,
};
use hawellha::converters::{ConvertOptions, Converter, Delivery, Source};

#[test]
fn versions_are_one_line() {
    assert_eq!(version_line("ffmpeg version 7.1\nbuilt with gcc\n"), "ffmpeg version 7.1");
    assert_eq!(version_line(""), "ffmpeg");
    let printed = b"ffmpeg version 6\r\nmore".to_vec();
    assert_eq!(ffmpeg_status(Some(printed)).unwrap(), "ffmpeg version 6");
    assert_eq!(
        ffmpeg_status(None).unwrap_err().message(),
        format!("external tool failed: {INSTALL_HINT}")
    );
}

#[test]
fn audio_is_encoded_at_a_bitrate() {
    assert_eq!(
        convert_media("/a/s.wav", "/o/s.mp3", 192),
        vec![vec!["-y", "-v", "error", "-i", "/a/s.wav", "-b:a", "192k", "/o/s.mp3"]]
    );
    assert_eq!(
        convert_media("/a/s.mp3", "/o/s.flac", 192),
        vec![vec!["-y", "-v", "error", "-i", "/a/s.mp3", "/o/s.flac"]]
    );
    assert!(convert_media("/a/s.wav", "/o/s.ogg", 1)[0].contains(&"64k".to_string()));
    assert!(convert_media("/a/s.wav", "/o/s.aac", 9999)[0].contains(&"320k".to_string()));
}

#[test]
fn video_gives_its_sound() {
    assert_eq!(
        convert_media("/a/v.mp4", "/o/v.mp3", 128),
        vec![vec!["-y", "-v", "error", "-i", "/a/v.mp4", "-vn", "-b:a", "128k", "/o/v.mp3"]]
    );
}

#[test]
fn video_is_copied_first() {
    assert_eq!(
        convert_media("/a/v.mp4", "/o/v.mkv", 128),
        vec![
            vec!["-y", "-v", "error", "-i", "/a/v.mp4", "-c", "copy", "/o/v.mkv"],
            vec!["-y", "-v", "error", "-i", "/a/v.mp4", "/o/v.mkv"],
        ]
    );
}

#[test]
fn runs_follow_one_another() {
    let bad = RunEnd::Failed(b"first\nlast words\n".to_vec());
    assert!(matches!(after_run("/a/v.mp4", "/o/v.mkv", 1, &RunEnd::Succeeded), AfterRun::Done));
    assert!(matches!(after_run("/a/v.mp4", "/o/v.mkv", 1, &bad), AfterRun::TryNext));
    match after_run("/a/v.mp4", "/o/v.mkv", 0, &bad) {
        AfterRun::Failed(e) => assert_eq!(
            e.message(),
            "external tool failed: ffmpeg could not convert 'v.mp4' (/o/v.mkv). last words"
        ),
        other => panic!("{other:?}"),
    }
    match after_run("/a/v.mp4", "/o/v.mkv", 0, &RunEnd::NotLaunched("gone".to_string())) {
        AfterRun::Failed(e) => {
            assert_eq!(e.message(), "external tool failed: failed to launch ffmpeg: gone")
        }
        other => panic!("{other:?}"),
    }
}

#[test]
fn silent_failures_are_named() {
    assert_eq!(
        failed_run("/", "/o/x.mp3", ""),
        "ffmpeg could not convert 'input' (/o/x.mp3). unknown ffmpeg error"
    );
}

#[test]
fn media_engine_hands_out_runs() {
    let source = Source::unread(true, true, false);
    let d = MediaConverter
        .convert("/a/s.wav", source, "/o/s.mp3", &ConvertOptions::default())
        .unwrap();
    assert!(matches!(d, Delivery::Media(runs) if runs.len() == 1));
}

#[test]
fn media_targets() {
    assert_eq!(
        audio_targets_for("MP3"),
        vec!["wav", "ogg", "oga", "flac", "aac", "m4a", "opus", "wma"]
    );
    assert_eq!(
        video_targets_for("mp4"),
        vec!["mp3", "wav", "ogg", "mkv", "webm", "avi", "mov", "m4v", "flv", "ogv"]
    );
}
