use hawellha::app::batch::{
    audio_bitrate, audio_bitrate_index, audio_bitrate_labels, candidate_path, kind_dir_name,
    unique_output_path, BatchFacts, Rename,
};
use hawellha::app::history::stored_part;
use hawellha::app::input::{
    app_key_binds, event_mapper, picker_answer, shortcut_mapper, InputEvent, Key, Modifiers,
    Picked, Picker,
};
use hawellha::app::queue::{default_target_index, file_preview, FoundPath};
use hawellha::app::views::{header_start, kind_name, BatchButton, Control, MainView, MenuItem};
use hawellha::app::{
    Action, AppModel, Clock, ContextPage, Effects, FileStatus, MenuAction, Message, Page,
    QueuedFile,
};
use hawellha::config::Config;
use hawellha::converters::FileKind;

fn now(millis: u64) -> Clock {
    Clock { millis, secs: 1_000 }
}

fn found(path: &str) -> FoundPath {
    FoundPath {
        path: path.to_string(),
        is_file: true,
        is_dir: false,
        size: 10,
        dimensions: None,
        head: Vec::new(),
    }
}

fn model() -> AppModel {
    AppModel::init(
        Config::default(),
        "/out".to_string(),
        Ok("ffmpeg version 7".to_string()),
        Vec::new(),
    )
}

fn with_files(paths: &[&str]) -> AppModel {
    let mut m = model();
    m.add_paths(paths.iter().map(|p| found(p)).collect());
    m
}

fn send(m: &mut AppModel, message: Message) -> Effects {
    m.update(message, now(5_000))
}

fn names(m: &AppModel) -> Vec<&str> {
    m.files.iter().map(|f| f.file_name.as_str()).collect()
}

fn facts(m: &AppModel) -> BatchFacts {
    BatchFacts { folder_error: None, folders: vec![false; m.files.len()], now: 1_000 }
}

#[test]
fn a_fresh_start() {
    let m = model();
    assert_eq!(m.output_dir, "/out");
    assert_eq!(m.quality_text, "90");
    assert_eq!(m.resize_w_text, "");
    assert_eq!(m.ffmpeg_info, "ffmpeg version 7");
    assert_eq!(m.active_page(), Page::All);
    assert!(m.files.is_empty() && m.history.is_empty() && !m.is_converting);
}

#[test]
fn a_saved_output_folder_is_kept() {
    let config = Config { output_dir: "/mine".to_string(), ..Config::default() };
    let m = AppModel::init(config, "/out".to_string(), Ok(String::new()), Vec::new());
    assert_eq!(m.output_dir, "/mine");
}

#[test]
fn adding_files() {
    let m = with_files(&["/a/t.csv", "/a/p.png"]);
    assert_eq!(names(&m), vec!["t.csv", "p.png"]);
    assert_eq!(m.files[0].id, 1);
    assert_eq!(m.files[1].id, 2);
    assert_eq!(m.next_id, 3);
    assert_eq!(m.files[0].kind, FileKind::Tabular);
    assert_eq!(m.files[0].mime, "text/csv");
    assert_eq!(m.files[0].selected_target(), Some("xlsx"));
    assert_eq!(m.files[1].selected_target(), Some("jpg"));
    assert_eq!(m.batch_targets()[0], "xlsx");
}

#[test]
fn repeated_and_missing_files_are_skipped() {
    let mut m = with_files(&["/a/t.csv"]);
    let missing = FoundPath { is_file: false, ..found("/a/gone.csv") };
    m.add_paths(vec![found("/a/./t.csv"), missing]);
    assert_eq!(names(&m), vec!["t.csv"]);
    let w = m.warning.clone().unwrap();
    assert!(w.contains("t.csv (already in queue)"), "{w}");
    assert!(w.contains("gone.csv (not found or unreadable)"), "{w}");
}

#[test]
fn previews() {
    let image = FoundPath { dimensions: Some((640, 480)), ..found("/a/p.png") };
    assert_eq!(file_preview(FileKind::Image, "png", &image), "640 × 480 px");
    let note = FoundPath { head: b"\n  first line \nsecond".to_vec(), ..found("/a/n.txt") };
    assert_eq!(file_preview(FileKind::Document, "txt", &note), "first line");
    assert_eq!(file_preview(FileKind::Audio, "mp3", &found("/a/s.mp3")), "");
}

#[test]
fn default_targets() {
    let t = |v: &[&str]| v.iter().map(|s| s.to_string()).collect::<Vec<String>>();
    assert_eq!(default_target_index("csv", &t(&["xlsx", "json"])), Some(0));
    assert_eq!(default_target_index("png", &t(&["webp", "jpg"])), Some(1));
    assert_eq!(default_target_index("png", &t(&[])), None);
}

#[test]
fn removing_and_clearing() {
    let mut m = with_files(&["/a/1.csv", "/a/2.csv", "/a/3.csv"]);
    send(&mut m, Message::RemoveFile(2));
    assert_eq!(names(&m), vec!["1.csv", "3.csv"]);
    m.files[0].status = FileStatus::Converting;
    m.is_converting = true;
    send(&mut m, Message::ClearQueue);
    assert_eq!(names(&m), vec!["1.csv"]);
    m.files[0].status = FileStatus::Done;
    m.is_converting = false;
    send(&mut m, Message::ClearFinished);
    assert!(m.files.is_empty());
}

#[test]
fn moving_up_and_down() {
    let mut m = with_files(&["/a/1.csv", "/a/2.csv"]);
    send(&mut m, Message::MoveFileDown(1));
    assert_eq!(names(&m), vec!["2.csv", "1.csv"]);
    send(&mut m, Message::MoveFileUp(1));
    assert_eq!(names(&m), vec!["1.csv", "2.csv"]);
    send(&mut m, Message::MoveFileUp(1));
    assert_eq!(names(&m), vec!["1.csv", "2.csv"]);
}

#[test]
fn selecting() {
    let mut m = with_files(&["/a/1.csv", "/a/2.csv"]);
    send(&mut m, Message::ToggleFileSelection(2));
    assert_eq!(m.selected_count(), 1);
    send(&mut m, Message::ToggleFileSelection(2));
    assert_eq!(m.selected_count(), 0);
    send(&mut m, Message::SelectAllFiles);
    assert_eq!(m.selected_count(), 2);
    send(&mut m, Message::DeselectAllFiles);
    assert_eq!(m.selected_count(), 0);
    send(&mut m, Message::ToggleFileSelection(1));
    send(&mut m, Message::RemoveSelectedFiles);
    assert_eq!(names(&m), vec!["2.csv"]);
}

#[test]
fn targets_for_one_and_for_all() {
    let mut m = with_files(&["/a/1.csv", "/a/2.json", "/a/p.png"]);
    send(&mut m, Message::SetFileTarget(1, 1));
    assert_eq!(m.files[0].selected_target(), Some("json"));
    let k = m.batch_targets().iter().position(|t| t == "tsv").unwrap();
    send(&mut m, Message::SetGlobalTarget(k));
    send(&mut m, Message::ApplyGlobalTarget);
    assert_eq!(m.files[0].selected_target(), Some("tsv"));
    assert_eq!(m.files[1].selected_target(), Some("tsv"));
    assert_eq!(m.files[2].selected_target(), Some("jpg"));
    let w = m.warning.clone().unwrap();
    assert!(w.contains("1 file(s) do not support that target"), "{w}");
}

#[test]
fn a_batch_from_start_to_end() {
    let mut m = with_files(&["/a/t.csv", "/a/p.png"]);
    let e = send(&mut m, Message::ConvertAll);
    assert!(matches!(e.action, Action::StartBatch(false)));
    let f = facts(&m);
    let jobs = m.start_batch(false, &f);
    assert_eq!(jobs.len(), 2);
    assert_eq!(jobs[0].id, 1);
    assert_eq!(jobs[0].input, "/a/t.csv");
    assert_eq!(jobs[0].base, "/out/t.xlsx");
    assert!(jobs[0].rename);
    assert_eq!(jobs[0].opts.jpeg_quality, m.convert_options().jpeg_quality);
    assert!(m.is_converting);
    assert_eq!(m.files[0].status, FileStatus::Converting);
    assert_eq!(m.files[0].progress, 50);
    m.set_output(1, "/out/t_1.xlsx".to_string());

    let e = send(&mut m, Message::ConversionFinished(1, Ok("/out/t_1.xlsx".to_string())));
    assert!(e.save_history);
    assert_eq!(m.files[0].status, FileStatus::Done);
    assert_eq!(m.files[0].progress, 100);
    assert_eq!(m.files[0].output_path.as_deref(), Some("/out/t_1.xlsx"));
    assert!(m.is_converting);
    let e = send(&mut m, Message::ConversionFinished(2, Err("broken".to_string())));
    assert_eq!(m.files[1].status, FileStatus::Failed);
    assert_eq!(m.files[1].error.as_deref(), Some("broken"));
    assert!(!m.is_converting);
    match e.action {
        Action::Announce(text, dir) => {
            assert_eq!(text, "Finished: 1 converted, 1 failed — see the queue for details");
            assert_eq!(dir, None);
        }
        other => panic!("{other:?}"),
    }
    assert_eq!(m.history.len(), 2);
    assert!(m.history[0].success && !m.history[1].success);

    send(&mut m, Message::RetryFailed);
    assert_eq!(m.files[1].status, FileStatus::Pending);
    assert_eq!(m.count_of(FileStatus::Failed), 0);
}

#[test]
fn a_batch_can_be_stopped() {
    let mut m = with_files(&["/a/t.csv"]);
    let f = facts(&m);
    m.start_batch(false, &f);
    send(&mut m, Message::StopConversion);
    assert!(!m.is_converting);
    assert_eq!(m.files[0].status, FileStatus::Failed);
    assert_eq!(m.files[0].error.as_deref(), Some("Conversion cancelled by user"));
}

#[test]
fn batches_that_cannot_start() {
    let mut m = with_files(&["/a/t.csv"]);
    let f = BatchFacts { folder_error: Some("read-only".to_string()), ..facts(&m) };
    assert!(m.start_batch(false, &f).is_empty());
    assert!(!m.is_converting);
    let w = m.warning.clone().unwrap();
    assert!(w.contains("Cannot use output folder") && w.contains("read-only"), "{w}");
    let f = facts(&m);
    assert!(m.start_batch(true, &f).is_empty());
    assert_eq!(m.warning.as_deref(), Some("Nothing to convert — select files first."));
    let mut m = model();
    let f = facts(&m);
    assert!(m.start_batch(false, &f).is_empty());
    assert_eq!(m.warning.as_deref(), Some("Nothing to convert — add files first."));
}

#[test]
fn folders_are_only_packed() {
    let mut m = model();
    let folder = FoundPath { is_file: false, is_dir: true, ..found("/a/dir.csv") };
    m.add_paths(vec![folder]);
    let f = BatchFacts { folders: vec![true], ..facts(&m) };
    assert!(m.start_batch(false, &f).is_empty());
    assert_eq!(
        m.files[0].error.as_deref(),
        Some("Folders can only be packed into .zip / .tar.gz")
    );
}

#[test]
fn grouped_outputs() {
    let mut m = with_files(&["/a/p.png"]);
    send(&mut m, Message::ToggleGroupByKind(true));
    send(&mut m, Message::ToggleOverwrite(true));
    let f = facts(&m);
    let jobs = m.start_batch(false, &f);
    assert_eq!(jobs[0].make_dir.as_deref(), Some("/out/images"));
    assert_eq!(jobs[0].base, "/out/images/p.jpg");
    assert!(!jobs[0].rename);
    assert_eq!(kind_dir_name(FileKind::Archive), "archives");
}

#[test]
fn free_names_are_found() {
    assert_eq!(candidate_path("/o/a.txt", 0), "/o/a.txt");
    assert_eq!(candidate_path("/o/a.txt", 2), "/o/a_2.txt");
    assert_eq!(candidate_path("/o/a.tar.gz", 1), "/o/a_1.tar.gz");
    assert_eq!(candidate_path("/o/a", 1), "/o/a_1");
    let taken = ["/o/a.txt", "/o/a_1.txt"];
    let mut n = 0;
    let path = loop {
        let name = candidate_path("/o/a.txt", n);
        match unique_output_path("/o/a.txt", n, taken.contains(&name.as_str())) {
            Rename::Use(p) => break p,
            Rename::Try(k) => n = k,
        }
    };
    assert_eq!(path, "/o/a_2.txt");
}

#[test]
fn options_from_the_settings() {
    let mut m = model();
    send(&mut m, Message::QualityInput("75".to_string()));
    send(&mut m, Message::ResizeWInput("640".to_string()));
    send(&mut m, Message::ResizeHInput("x".to_string()));
    send(&mut m, Message::SetAudioBitrate(2));
    let o = m.convert_options();
    assert_eq!(o.jpeg_quality, 75);
    assert_eq!(o.resize_width, Some(640));
    assert_eq!(o.resize_height, None);
    assert_eq!(o.audio_bitrate_kbps, 320);
    assert_eq!(o.csv_delimiter, None);
}

#[test]
fn jobs_carry_the_options_of_their_batch() {
    let mut m = with_files(&["/a/p.png"]);
    send(&mut m, Message::QualityInput("75".to_string()));
    send(&mut m, Message::ResizeWInput("640".to_string()));
    let f = facts(&m);
    let jobs = m.start_batch(false, &f);
    send(&mut m, Message::QualityInput("30".to_string()));
    assert_eq!(jobs[0].opts.jpeg_quality, 75);
    assert_eq!(jobs[0].opts.resize_width, Some(640));
    assert_eq!(m.convert_options().jpeg_quality, 30);
}

#[test]
fn bitrates() {
    assert_eq!(audio_bitrate(1), Some(192));
    assert_eq!(audio_bitrate(9), None);
    assert_eq!(audio_bitrate_index(320), Some(2));
    assert_eq!(audio_bitrate_index(7), None);
    assert_eq!(audio_bitrate_labels(), vec!["128 kbps", "192 kbps", "320 kbps"]);
}

#[test]
fn history_is_bounded_and_marked() {
    let mut m = with_files(&["/a/t.csv"]);
    for _ in 0..120 {
        m.files[0].status = FileStatus::Converting;
        m.is_converting = true;
        send(&mut m, Message::ConversionFinished(1, Ok("/out/t.xlsx".to_string())));
    }
    assert_eq!(m.history.len(), 100);
    assert_eq!(stored_part(&m.history).len(), 100);
    send(&mut m, Message::ToggleHistoryFavorite(3));
    assert!(m.history[3].favorite);
    send(&mut m, Message::ToggleHistoryFavorite(3));
    assert!(!m.history[3].favorite);
    let e = send(&mut m, Message::ClearHistory);
    assert!(e.save_history && m.history.is_empty());
}

#[test]
fn pages_and_titles() {
    let mut m = model();
    assert_eq!(Page::tabs().len(), 6);
    assert_eq!(m.update_title("App"), "App — All files");
    assert_eq!(m.on_nav_select(Page::Images, "App"), "App — Images");
    assert_eq!(m.active_page(), Page::Images);
    assert!(Page::Images.matches(FileKind::Image));
    assert!(!Page::Images.matches(FileKind::Audio));
    assert!(Page::All.matches(FileKind::Unknown));
}

#[test]
fn keys_and_events() {
    let ctrl = Modifiers { control: true, logo: false, alt: false, shift: false };
    let none = Modifiers { control: false, logo: false, alt: false, shift: false };
    let key = |c: &str| Key::Character(c.to_string());
    let m = shortcut_mapper(InputEvent::KeyPressed(key("o"), ctrl), true);
    assert!(matches!(m, Some(Message::OpenFiles)));
    let m = shortcut_mapper(InputEvent::KeyPressed(key("o"), none), true);
    assert!(m.is_none());
    let m = event_mapper(InputEvent::FilesDropped(vec!["/a".to_string()]));
    assert!(matches!(m, Some(Message::FilesDropped(v)) if v == vec!["/a".to_string()]));
    assert!(matches!(event_mapper(InputEvent::FileHovered), Some(Message::FilesHovered)));
    assert!(event_mapper(InputEvent::Other).is_none());
    for (_, action) in app_key_binds() {
        assert!(!matches!(action.message(), Message::DismissWarning));
    }
    assert!(matches!(MenuAction::SelectAll.message(), Message::SelectAllFiles));
}

#[test]
fn picker_answers() {
    let one = || Picked::Chosen(vec!["/a".to_string()]);
    assert!(matches!(picker_answer(Picker::Files, one()), Message::FilesChosen(_)));
    assert!(matches!(picker_answer(Picker::OutputDir, one()), Message::OutputDirChosen(p) if p == "/a"));
    assert!(matches!(
        picker_answer(Picker::Files, Picked::Failed("x".to_string())),
        Message::DialogError(_)
    ));
}

#[test]
fn drawers_warnings_and_folders() {
    let mut m = model();
    send(&mut m, Message::ToggleContextPage(ContextPage::Settings));
    assert!(m.show_context && m.context_page == ContextPage::Settings);
    send(&mut m, Message::ToggleContextPage(ContextPage::Settings));
    assert!(!m.show_context);
    send(&mut m, Message::DialogError("no".to_string()));
    assert!(m.warning.is_some());
    send(&mut m, Message::DismissWarning);
    assert!(m.warning.is_none());
    let e = send(&mut m, Message::OutputDirChosen("/new".to_string()));
    assert!(e.save_config);
    assert_eq!(m.output_dir, "/new");
    assert!(matches!(send(&mut m, Message::OpenOutputDir).action, Action::OpenOutputDir(d) if d == "/new"));
    assert!(matches!(send(&mut m, Message::OpenFiles).action, Action::PickFiles));
}

#[test]
fn what_the_window_shows() {
    let mut m = with_files(&["/a/t.csv", "/a/p.png"]);
    match m.view() {
        MainView::Queue(page) => {
            assert_eq!(page.cards.len(), 2);
            assert_eq!(page.cards[0].badge, "CSV");
            assert!(page.cards[0].meta.starts_with("10 B · text/csv · "));
            assert!(!page.cards[0].can_move_up && page.cards[0].can_move_down);
        }
        other => panic!("{other:?}"),
    }
    assert!(matches!(m.batch_bar().button, BatchButton::ConvertAll));
    m.on_nav_select(Page::Images, "App");
    match m.view() {
        MainView::Queue(page) => assert_eq!(page.cards.len(), 1),
        other => panic!("{other:?}"),
    }
    m.on_nav_select(Page::History, "App");
    assert!(matches!(m.view(), MainView::History(_)));
}

#[test]
fn files_without_a_way_are_told_apart() {
    let f = QueuedFile::from_path(7, found("/a/x.csv"));
    assert_eq!(f.id, 7);
    assert_eq!(f.source_ext, "csv");
    assert!(f.validation_error().is_none());
    let odd = QueuedFile { target_idx: None, ..f };
    assert!(odd.selected_target().is_none());
}

#[test]
fn header_drawer_and_drop_zone() {
    let mut m = model();
    let h = m.header_end();
    assert!(!h.select_all && !h.deselect_all && !h.remove_selected);
    assert_eq!(m.drop_zone(), "");
    assert!(m.context_drawer().is_none());
    m.add_paths(vec![found("/a/t.csv"), found("/a/p.png"), found("/a/q.png")]);
    assert!(m.header_end().select_all);
    let stats = m.drop_zone();
    assert!(stats.starts_with("Queue: "), "{stats}");
    assert!(stats.contains("1 data files") && stats.contains("2 images"), "{stats}");
    assert_eq!(kind_name(FileKind::Video), "videos");
    send(&mut m, Message::ToggleContextPage(ContextPage::About));
    assert_eq!(m.context_drawer(), Some(ContextPage::About));
    send(&mut m, Message::ToggleContextPage(ContextPage::About));
    assert_eq!(m.context_drawer(), None);
}

#[test]
fn settings_on_show() {
    let m = model();
    let all = m.settings_view();
    assert_eq!(all.len(), 11);
    assert!(matches!(&all[0].control, Control::Folder(dir) if dir == "/out"));
    assert!(all.iter().any(|s| matches!(&s.control, Control::Quality(q) if q == "90")));
    assert!(all.iter().any(|s| matches!(&s.control, Control::Backend(b) if b == "ffmpeg version 7")));
}

#[test]
fn history_rows() {
    let mut m = with_files(&["/a/t.csv"]);
    m.files[0].status = FileStatus::Converting;
    m.is_converting = true;
    send(&mut m, Message::ConversionFinished(1, Ok("/out/t.xlsx".to_string())));
    m.on_nav_select(Page::History, "App");
    match m.view() {
        MainView::History(page) => {
            assert_eq!(page.title, "History (1 entry)");
            assert_eq!(page.rows[0].title, "t.csv .csv → .xlsx");
            assert_eq!(page.rows[0].detail, "/out/t.xlsx");
            assert_eq!(page.rows[0].mark, "✓");
            assert_eq!(page.rows[0].open.as_deref(), Some("/out/t.xlsx"));
        }
        other => panic!("{other:?}"),
    }
}

#[test]
fn finished_ids_are_never_reused() {
    let mut m = with_files(&["/a/1.csv", "/a/2.csv"]);
    send(&mut m, Message::ClearQueue);
    m.add_paths(vec![found("/a/3.csv")]);
    assert_eq!(m.files[0].id, 3);
}

#[test]
fn menus_and_banner() {
    let menus = header_start();
    assert_eq!(menus[0].title, "File");
    assert_eq!(menus[0].items.len(), 5);
    assert!(matches!(menus[0].items[2], MenuItem::Divider));
    assert!(matches!(menus[1].items[0], MenuItem::Entry("Select all", MenuAction::SelectAll)));
    let mut m = model();
    assert!(m.dialog().is_none());
    send(&mut m, Message::DialogError("no picker".to_string()));
    assert_eq!(m.dialog().unwrap().text, "no picker");
}
