use gmod_wstool::steam::download::{
    copied_file_name, copy_outcome, decompress_if_lzma, finish_result, first_gma, parse_id,
    start_download, CopyReport, DownloadFinishJob, DownloadState, FileHead, FinishResult,
    PollResult, GMOD_APP_ID,
};
use gmod_wstool::steam::items::{Visibility, WorkshopItem, VIS_UNLISTED};
use gmod_wstool::tabs::download::{
    dot_color, kind, workshop_url, Download, DotColor, DownloadPanel, FrameEvents, StateKind,
};
use gmod_wstool::tabs::my_workshop::{
    choose_addon_type, choose_visibility, fields_from_item, on_leave_event, set_tag, update_request,
    LeaveEvent, TagSelection,
};
use std::cell::Cell;
use std::sync::mpsc;

#[test]
fn ids_read_back_from_text_and_workshop_url() {
    for n in [0u64, 1, 9, 10, 42, 3461237860, u64::MAX] {
        assert_eq!(parse_id(&n.to_string()), Some(n));
        assert_eq!(parse_id(&workshop_url(n)), Some(n));
    }
}

fn packed(raw: &[u8]) -> Vec<u8> {
    let mut out = Vec::new();
    {
        let opts = lzma_rust2::LzmaOptions::with_preset(6);
        let mut w =
            lzma_rust2::LzmaWriter::new_use_header(&mut out, &opts, Some(raw.len() as u64)).unwrap();
        std::io::Write::write_all(&mut w, raw).unwrap();
        w.finish().unwrap();
    }
    out
}

#[test]
fn lzma_errors_name_the_failed_step() {
    let e = decompress_if_lzma(vec![0x5d, 1, 2]).err().unwrap();
    assert!(e.starts_with("LZMA init failed: "), "{e}");
    let raw: Vec<u8> = (0..4000u32).map(|i| (i * 7919 % 251) as u8).collect();
    let mut p = packed(&raw);
    p.truncate(p.len() / 2);
    let e = decompress_if_lzma(p).err().unwrap();
    assert!(e.starts_with("LZMA decompress failed: "), "{e}");
}

#[test]
fn installed_item_is_not_downloaded_again() {
    let asked = Cell::new(false);
    let mut job = start_download(
        true,
        false,
        || Some("/steam/7".to_string()),
        || {
            asked.set(true);
            true
        },
        || panic!("no job"),
    )
    .unwrap();
    assert!(!asked.get());
    assert!(matches!(job.poll(), Some(FinishResult::Installed(f)) if f == "/steam/7"));
    let err = start_download(true, false, || None, || false, || panic!("no job")).err().unwrap();
    assert_eq!(err, "Steam refused the download (item may not exist or isn't accessible)");
}

#[test]
fn finish_events_for_the_watched_item_only() {
    assert!(finish_result(4001, 5, 5, None, || panic!("not asked")).is_none());
    assert!(finish_result(GMOD_APP_ID, 6, 5, None, || panic!("not asked")).is_none());
    assert!(matches!(
        finish_result(GMOD_APP_ID, 5, 5, Some("Timeout".into()), || panic!("not asked")),
        Some(FinishResult::Failed(m)) if m == "Steam download error: Timeout"
    ));
    assert!(matches!(
        finish_result(GMOD_APP_ID, 5, 5, None, || Some("/steam/5".into())),
        Some(FinishResult::Installed(f)) if f == "/steam/5"
    ));
    assert!(matches!(
        finish_result(GMOD_APP_ID, 5, 5, None, || None),
        Some(FinishResult::Failed(m)) if m == "Download reported complete but no install info"
    ));
}

fn error_of(s: DownloadState) -> String {
    match s {
        DownloadState::Error(e) => e,
        _ => panic!("not an error"),
    }
}

#[test]
fn copy_outcomes() {
    assert_eq!(
        error_of(copy_outcome(CopyReport::NothingToCopy("/s".into()))),
        "Steam install path is empty or missing: /s"
    );
    assert_eq!(
        error_of(copy_outcome(CopyReport::SourceGone("/s".into()))),
        "Steam install path doesn't exist: /s"
    );
    assert_eq!(error_of(copy_outcome(CopyReport::CopyFailed("disk full".into()))), "Copy failed: disk full");
    assert_eq!(
        error_of(copy_outcome(CopyReport::Copied {
            addon_dir: "/d/5".into(),
            archive: Some(("/d/5/a.gma".into(), Err("bad".into()))),
        })),
        "Unpack failed: bad"
    );
    match copy_outcome(CopyReport::Copied { addon_dir: "/d/5".into(), archive: None }) {
        DownloadState::Done { gma, unpacked } => {
            assert_eq!(gma, "/d/5");
            assert_eq!(unpacked, Some("/d/5".to_string()));
        }
        _ => panic!("not done"),
    }
    match copy_outcome(CopyReport::Copied {
        addon_dir: "/d/5".into(),
        archive: Some(("/d/5/a.gma".into(), Ok("/d/5/unpacked".into()))),
    }) {
        DownloadState::Done { gma, unpacked } => {
            assert_eq!(gma, "/d/5/a.gma");
            assert_eq!(unpacked, Some("/d/5/unpacked".to_string()));
        }
        _ => panic!("not done"),
    }
    assert_eq!(copied_file_name(Some("x.bin".into()), 5), "x.bin");
    assert_eq!(copied_file_name(None, 3461237860), "3461237860.gma");
}

fn head(path: &str, is_file: bool, head: &[u8]) -> FileHead {
    FileHead { path: path.into(), is_file, head: head.to_vec() }
}

#[test]
fn first_archive_in_listed_order() {
    let listed = vec![
        head("a.txt", true, b"text"),
        head("dir", false, b""),
        head("short", true, b"GM"),
        head("b.gma", true, b"GMAD"),
        head("c.gma", true, &[0x5d, 0, 0, 0]),
    ];
    assert_eq!(first_gma(&listed), Some("b.gma".to_string()));
    let only_lzma = vec![head("c.gma", true, &[0x5d, 0, 0, 0])];
    assert_eq!(first_gma(&only_lzma), Some("c.gma".to_string()));
    let none = vec![head("a.txt", true, b"text"), head("dir", false, b""), head("short", true, b"GM")];
    assert_eq!(first_gma(&none), None);
    assert_eq!(first_gma(&vec![head("d", false, b"GMAD")]), None);
}

#[test]
fn dot_colours() {
    assert_eq!(dot_color(&DownloadState::Error("x".into())), DotColor::Red);
    assert_eq!(dot_color(&DownloadState::Done { gma: "g".into(), unpacked: None }), DotColor::Green);
    assert_eq!(dot_color(&DownloadState::Queued), DotColor::Grey);
    assert_eq!(dot_color(&DownloadState::Pending), DotColor::Yellow);
    assert_eq!(dot_color(&DownloadState::Downloading { downloaded: 1, total: 2 }), DotColor::Yellow);
}

#[test]
fn leaving_the_editor() {
    let mut asking = false;
    assert!(!on_leave_event(&mut asking, LeaveEvent::Back, true, false));
    assert!(asking);
    assert!(!on_leave_event(&mut asking, LeaveEvent::KeepEditing, true, false));
    assert!(!asking);
    assert!(!on_leave_event(&mut asking, LeaveEvent::Back, true, true));
    assert!(!asking);
    assert!(!on_leave_event(&mut asking, LeaveEvent::Back, true, false));
    assert!(on_leave_event(&mut asking, LeaveEvent::Discard, true, false));
    assert!(!asking);
    assert!(on_leave_event(&mut asking, LeaveEvent::Back, false, false));
}

#[test]
fn tags_stay_a_sorted_selection() {
    let item = WorkshopItem {
        id: 1,
        title: "t".into(),
        description: "d".into(),
        tags: vec!["Water".into(), "Fun".into(), "Fun".into(), "Nope".into()],
        file_size: 0,
        preview_url: None,
        num_upvotes: 0,
        num_downvotes: 0,
        subscriptions: None,
        visibility: 0,
    };
    let mut f = fields_from_item(&item, None);
    assert_eq!(*f.selected_tags.tags(), vec!["fun", "water"]);
    f.selected_tags =
        TagSelection::of(&vec!["zzz".into(), "water".into(), "fun".into(), "fun".into()]);
    assert_eq!(*f.selected_tags.tags(), vec!["fun", "water"]);
    assert!(TagSelection::empty().tags().is_empty());
    set_tag(&mut f, &"build".to_string(), true, false);
    assert_eq!(*f.selected_tags.tags(), vec!["build", "fun", "water"]);
    set_tag(&mut f, &"nope".to_string(), true, false);
    assert_eq!(*f.selected_tags.tags(), vec!["build", "fun", "water"]);
}

fn kinds(p: &DownloadPanel) -> Vec<StateKind> {
    p.downloads().iter().map(|d| kind(&d.state)).collect()
}

#[test]
fn frame_runs_the_steps_in_order() {
    let mut p = DownloadPanel::new("/dl".into(), vec![]);
    for id in 1..=4 {
        p.queue_one(id);
    }
    let no_scan = || -> Vec<Download> { panic!("no rescan while busy") };
    let start = |_id: u64| -> Result<DownloadFinishJob, String> {
        let (_tx, rx) = mpsc::channel();
        Ok(DownloadFinishJob::waiting(rx))
    };
    let events = FrameEvents { refresh: true, submit: false, cancel_all: false };
    let r = p.frame(
        events,
        &no_scan,
        |_| panic!("no submit"),
        &|_, _, _| panic!("no copy"),
        &|_| PollResult::Pending,
        &start,
    );
    assert!(!r.resolving);
    assert!(!r.jobs_running);
    assert!(r.layout_changed);
    assert_eq!(
        kinds(&p),
        vec![StateKind::Pending, StateKind::Pending, StateKind::Pending, StateKind::Queued]
    );
    let scan = || vec![Download::new(9, DownloadState::Error("old".into()))];
    let events = FrameEvents { refresh: false, submit: false, cancel_all: true };
    let r = p.frame(
        events,
        &scan,
        |_| panic!("no submit"),
        &|_, _, _| panic!("no copy"),
        &|_| PollResult::Pending,
        &start,
    );
    assert!(!r.jobs_running);
    assert_eq!(p.downloads().len(), 1);
    assert_eq!(p.downloads()[0].id, 9);
}

fn editor_fields() -> gmod_wstool::tabs::my_workshop::Fields {
    let item = WorkshopItem {
        id: 77,
        title: "Addon".into(),
        description: "About".into(),
        tags: vec!["Weapon".into(), "Fun".into()],
        file_size: 0,
        preview_url: None,
        num_upvotes: 0,
        num_downvotes: 0,
        subscriptions: None,
        visibility: 1,
    };
    fields_from_item(&item, None)
}

fn no_pack(_: String) -> Result<String, String> {
    panic!("nothing to pack")
}

fn no_resize(_: String) -> Result<String, String> {
    panic!("nothing to resize")
}

fn no_dims(_: String) -> Result<(u32, u32), String> {
    panic!("no size to read")
}

#[test]
fn update_request_checks_in_order() {
    let mut f = editor_fields();
    f.change_note = "note".into();
    let u = update_request(77, &f, false, no_pack, false, no_resize, no_dims).ok().unwrap();
    assert_eq!(u.id, 77);
    assert_eq!(u.title, "Addon");
    assert_eq!(u.visibility, 1);
    assert_eq!(u.tags, vec!["weapon", "fun"]);
    assert_eq!(u.content, None);
    assert_eq!(u.preview, None);
    assert_eq!(u.change_note, "note");

    f.content_path = "  /src/addon ".into();
    f.preview_path = " /img.png".into();
    assert_eq!(
        update_request(77, &f, false, no_pack, false, no_resize, no_dims).err().unwrap(),
        "Content path must be an existing folder."
    );
    // a failed pack is reported before anything about the preview
    assert_eq!(
        update_request(77, &f, true, |p| Err(format!("Pack failed for {p}")), false, no_resize, no_dims)
            .err()
            .unwrap(),
        "Pack failed for /src/addon"
    );
    let pack = |p: String| -> Result<String, String> {
        assert_eq!(p, "/src/addon");
        Ok("/tmp/packed".to_string())
    };
    assert_eq!(
        update_request(77, &f, true, pack, false, no_resize, no_dims).err().unwrap(),
        "Preview path must be an existing file."
    );
    assert_eq!(
        update_request(77, &f, true, pack, true, no_resize, |_| Err("bad header".into())).err().unwrap(),
        "Open image failed: bad header"
    );
    assert_eq!(
        update_request(77, &f, true, pack, true, no_resize, |_| Ok((100, 512))).err().unwrap(),
        "Preview must be 512x512 (this is 100x512). Tick \"Resize image to fit 512x512\" to fix it automatically."
    );
    let u = update_request(77, &f, true, pack, true, no_resize, |p| {
        assert_eq!(p, "/img.png");
        Ok((512, 512))
    })
    .ok()
    .unwrap();
    assert_eq!(u.content, Some("/tmp/packed".to_string()));
    assert_eq!(u.preview, Some("/img.png".to_string()));
    f.fix_size = true;
    let u = update_request(77, &f, true, pack, true, |p| Ok(format!("{p}.512.png")), no_dims)
        .ok()
        .unwrap();
    assert_eq!(u.preview, Some("/img.png.512.png".to_string()));
    assert_eq!(
        update_request(77, &f, true, pack, true, |_| Err("Save preview failed: full".into()), no_dims)
            .err()
            .unwrap(),
        "Save preview failed: full"
    );
}

#[test]
fn choices_follow_the_known_values_and_wait_for_uploads() {
    let mut f = editor_fields();
    choose_visibility(&mut f, Visibility::Unlisted, false);
    assert_eq!(f.visibility, VIS_UNLISTED);
    choose_visibility(&mut f, Visibility::Public, true);
    assert_eq!(f.visibility, VIS_UNLISTED);
    assert!(choose_addon_type(&mut f, &"map".to_string(), false));
    assert_eq!(f.addon_type, "map");
    assert!(!choose_addon_type(&mut f, &"vehicle".to_string(), true));
    assert!(!choose_addon_type(&mut f, &"Map".to_string(), false));
    assert_eq!(f.addon_type, "map");
    set_tag(&mut f, &"build".to_string(), true, true);
    assert_eq!(*f.selected_tags.tags(), vec!["fun"]);
}
