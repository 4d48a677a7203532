use gmod_wstool::steam::download::{
    start_download, collection_children, CollectionResolveJob, CopyUnpackJob, DownloadFinishJob,
    DownloadState, FinishResult, PollResult,
};
use gmod_wstool::steam::items::WorkshopItem;
use gmod_wstool::tabs::download::{
    scan_items, status_line, workshop_url, Download, DownloadPanel, StateKind, MAX_ACTIVE,
};
use gmod_wstool::tabs::my_workshop::{
    fields_from_item, is_dirty, mark_submitted, preview_note, preview_source, request_tags,
    set_tag,
};
use std::sync::mpsc;

fn ids(p: &DownloadPanel) -> Vec<u64> {
    p.downloads().iter().map(|d| d.id).collect()
}

fn states(p: &DownloadPanel) -> Vec<StateKind> {
    p.downloads().iter().map(|d| gmod_wstool::tabs::download::kind(&d.state)).collect()
}

#[test]
fn queue_one_adds_in_front_once() {
    let mut p = DownloadPanel::new("/dl".into(), vec![]);
    assert!(p.queue_one(1));
    assert!(p.queue_one(2));
    assert!(!p.queue_one(1));
    assert_eq!(ids(&p), vec![2, 1]);
    assert!(matches!(p.downloads()[0].state, DownloadState::Queued));
}

#[test]
fn submit_parses_and_reports() {
    let mut p = DownloadPanel::new("/dl".into(), vec![]);
    p.set_input("not an id".into());
    p.submit(|_id| panic!("no job for bad input"));
    assert_eq!(p.error().as_deref(), Some("Couldn't find a valid ID in that input."));
    assert_eq!(p.input(), "not an id");
    assert!(!p.is_resolving());
    let (_tx, rx) = mpsc::channel();
    p.set_input("https://steamcommunity.com/sharedfiles/filedetails/?id=99".into());
    p.submit(move |id| CollectionResolveJob::waiting(id, rx));
    assert_eq!(p.error(), &None);
    assert_eq!(p.input(), "");
    assert!(p.is_resolving());
    assert!(p.busy());
}

#[test]
fn resolved_collection_queues_root_then_children() {
    let mut p = DownloadPanel::new("/dl".into(), vec![]);
    let (tx, rx) = mpsc::channel();
    p.set_input("10".into());
    p.submit(move |id| CollectionResolveJob::waiting(id, rx));
    assert!(p.poll_collection());
    tx.send(Ok(vec![11, 12, 13])).unwrap();
    assert!(!p.poll_collection());
    assert!(!p.is_resolving());
    assert_eq!(ids(&p), vec![11, 12, 13, 10]);
    assert!(!p.poll_collection());
}

#[test]
fn failed_collection_shows_error() {
    let mut p = DownloadPanel::new("/dl".into(), vec![]);
    let (tx, rx) = mpsc::channel();
    p.set_input("10".into());
    p.submit(move |id| CollectionResolveJob::waiting(id, rx));
    tx.send(Err("no such item".into())).unwrap();
    assert!(!p.poll_collection());
    assert_eq!(p.error().as_deref(), Some("no such item"));
    assert!(p.downloads().is_empty());
}

#[test]
fn pump_starts_at_most_max_active() {
    let mut p = DownloadPanel::new("/dl".into(), vec![]);
    for id in 1..=5 {
        p.queue_one(id);
    }
    let start = |id: u64| -> Result<DownloadFinishJob, String> {
        if id == 4 {
            Err("refused".into())
        } else {
            let (_tx, rx) = mpsc::channel();
            Ok(DownloadFinishJob::waiting(rx))
        }
    };
    p.pump_queue(&start);
    assert_eq!(ids(&p), vec![5, 4, 3, 2, 1]);
    assert_eq!(
        states(&p),
        vec![StateKind::Pending, StateKind::Error, StateKind::Pending, StateKind::Pending, StateKind::Queued]
    );
    let active = states(&p).iter().filter(|k| matches!(k, StateKind::Pending | StateKind::Downloading)).count();
    assert_eq!(active, MAX_ACTIVE);
    p.pump_queue(&start);
    assert_eq!(states(&p)[4], StateKind::Queued);
}

#[test]
fn jobs_move_downloads_to_done() {
    let mut p = DownloadPanel::new("/dl".into(), vec![]);
    p.queue_one(7);
    let start = |_id: u64| -> Result<DownloadFinishJob, String> {
        Ok(DownloadFinishJob::already_done("/steam/7".into()))
    };
    p.pump_queue(&start);
    let (copy_tx, copy_rx) = mpsc::channel();
    let copy_rx = std::cell::RefCell::new(Some(copy_rx));
    let started = std::cell::RefCell::new(Vec::new());
    let start_copy = |src: String, id: u64, dest: String| -> CopyUnpackJob {
        started.borrow_mut().push((src, id, dest));
        CopyUnpackJob::waiting(copy_rx.borrow_mut().take().unwrap())
    };
    let progress = |_id: u64| PollResult::Pending;
    assert!(p.advance_jobs(&start_copy, &progress));
    assert_eq!(started.borrow().clone(), vec![("/steam/7".to_string(), 7, "/dl".to_string())]);
    assert!(matches!(p.downloads()[0].state, DownloadState::Pending));
    assert!(p.advance_jobs(&start_copy, &progress));
    copy_tx
        .send(DownloadState::Done { gma: "/dl/7/a.gma".into(), unpacked: Some("/dl/7/unpacked".into()) })
        .unwrap();
    assert!(p.advance_jobs(&start_copy, &progress));
    assert!(matches!(&p.downloads()[0].state, DownloadState::Done { gma, .. } if gma == "/dl/7/a.gma"));
    assert!(p.refresh_layout());
    assert!(!p.refresh_layout());
    assert!(!p.advance_jobs(&start_copy, &progress));
    assert!(!p.busy());
}

#[test]
fn waiting_download_shows_progress_or_failure() {
    let (tx, rx) = mpsc::channel();
    let rx = std::cell::RefCell::new(Some(rx));
    let mut p = DownloadPanel::new("/dl".into(), vec![]);
    p.queue_one(3);
    let start = |_id: u64| -> Result<DownloadFinishJob, String> {
        Ok(DownloadFinishJob::waiting(rx.borrow_mut().take().unwrap()))
    };
    p.pump_queue(&start);
    let start_copy = |_s: String, _i: u64, _d: String| -> CopyUnpackJob { panic!("no copy") };
    let progress = |_id: u64| PollResult::Downloading(DownloadState::Downloading { downloaded: 5, total: 9 });
    assert!(p.advance_jobs(&start_copy, &progress));
    assert!(matches!(p.downloads()[0].state, DownloadState::Downloading { downloaded: 5, total: 9 }));
    tx.send(FinishResult::Failed("Steam download error: Timeout".into())).unwrap();
    assert!(p.advance_jobs(&start_copy, &progress));
    assert!(matches!(&p.downloads()[0].state, DownloadState::Error(e) if e == "Steam download error: Timeout"));
}

#[test]
fn scan_items_builds_finished_entries() {
    let found = vec![(5, DownloadState::Done { gma: "/d/5".into(), unpacked: Some("/d/5".into()) })];
    let items: Vec<Download> = scan_items(found);
    assert_eq!(items.len(), 1);
    assert_eq!(items[0].id, 5);
    assert!(items[0].finish_job.is_none() && items[0].copy_job.is_none());
    assert_eq!(items[0].state_disc, StateKind::Done);
    let mut p = DownloadPanel::new("/d".into(), items);
    assert_eq!(p.dest_path(), "/d");
    p.set_dest_input("/e".into());
    assert_eq!(p.dest_path(), "/e");
    assert_eq!(p.dest_input(), "/e");
    p.replace_downloads(vec![]);
    assert!(p.downloads().is_empty());
}

#[test]
fn start_download_paths() {
    let done = start_download(true, false, || Some("/steam/1".to_string()), || panic!("no request"), || panic!("no job")).unwrap();
    let mut done = done;
    assert!(matches!(done.poll(), Some(FinishResult::Installed(f)) if f == "/steam/1"));
    let (_tx, rx) = mpsc::channel();
    let mut waiting = start_download(true, true, || panic!("not consulted"), || true, move || DownloadFinishJob::waiting(rx)).unwrap();
    assert!(waiting.poll().is_none());
    let err = start_download(false, false, || None, || false, || panic!("no job")).err().unwrap();
    assert_eq!(err, "Steam refused the download (item may not exist or isn't accessible)");
}

#[test]
fn collection_children_only_for_collections() {
    assert_eq!(collection_children(true, Some(vec![1, 2])), vec![1, 2]);
    assert_eq!(collection_children(true, None), Vec::<u64>::new());
    assert_eq!(collection_children(false, Some(vec![1, 2])), Vec::<u64>::new());
}

fn item(tags: &[&str]) -> WorkshopItem {
    WorkshopItem {
        id: 9,
        title: "My addon".into(),
        description: "desc".into(),
        tags: tags.iter().map(|t| t.to_string()).collect(),
        file_size: 1,
        preview_url: None,
        num_upvotes: 1,
        num_downvotes: 2,
        subscriptions: None,
        visibility: 2,
    }
}

#[test]
fn editor_fields_from_item_tags() {
    let f = fields_from_item(&item(&["Addon", "Fun", "Weapon", "Map", "WATER", "Build"]), Some("/src".into()));
    assert_eq!(f.title, "My addon");
    assert_eq!(f.visibility, 2);
    assert_eq!(f.addon_type, "weapon");
    assert_eq!(*f.selected_tags.tags(), vec!["build", "fun", "water"]);
    assert_eq!(f.content_path, "/src");
    assert!(f.preview_path.is_empty() && f.change_note.is_empty() && !f.fix_size);
    assert_eq!(request_tags(&f), vec!["weapon", "build", "fun", "water"]);
    let none = fields_from_item(&item(&["Addon"]), None);
    assert_eq!(none.addon_type, "");
    assert!(none.selected_tags.tags().is_empty());
    assert!(request_tags(&none).is_empty());
}

#[test]
fn editor_dirty_tracking_and_tags() {
    let saved = fields_from_item(&item(&["Fun"]), None);
    let mut cur = fields_from_item(&item(&["Fun"]), None);
    assert!(!is_dirty(&cur, &saved));
    set_tag(&mut cur, &"scenic".to_string(), true, false);
    assert_eq!(*cur.selected_tags.tags(), vec!["fun", "scenic"]);
    assert!(is_dirty(&cur, &saved));
    set_tag(&mut cur, &"scenic".to_string(), false, false);
    assert!(!is_dirty(&cur, &saved));
    cur.title.push('!');
    assert!(is_dirty(&cur, &saved));
}

#[test]
fn workshop_url_of_item() {
    assert_eq!(
        workshop_url(3461237860),
        "https://steamcommunity.com/sharedfiles/filedetails/?id=3461237860"
    );
    assert_eq!(workshop_url(0), "https://steamcommunity.com/sharedfiles/filedetails/?id=0");
}

#[test]
fn status_lines_per_state() {
    assert_eq!(status_line(&DownloadState::Queued), Some("Waiting in queue...".to_string()));
    assert_eq!(status_line(&DownloadState::Pending), Some("Queued...".to_string()));
    assert_eq!(status_line(&DownloadState::Downloading { downloaded: 1, total: 2 }), None);
    assert_eq!(
        status_line(&DownloadState::Done { gma: "a/x.gma".into(), unpacked: Some("a/unpacked".into()) }),
        Some("a/unpacked".to_string())
    );
    assert_eq!(
        status_line(&DownloadState::Done { gma: "a/x.gma".into(), unpacked: None }),
        Some("a/x.gma".to_string())
    );
    assert_eq!(status_line(&DownloadState::Error("boom".into())), Some("boom".to_string()));
}

#[test]
fn submitted_update_leaves_nothing_unsaved() {
    let mut saved = fields_from_item(&item(&["Fun"]), Some("/src".into()));
    let mut cur = saved.clone();
    assert!(!is_dirty(&cur, &saved));
    cur.title = "New title".into();
    cur.preview_path = "/img.png".into();
    cur.change_note = "fixes".into();
    set_tag(&mut cur, &"build".to_string(), true, false);
    assert!(is_dirty(&cur, &saved));
    mark_submitted(&mut cur, &mut saved);
    assert!(!is_dirty(&cur, &saved));
    assert_eq!(cur.title, "New title");
    assert_eq!(saved.title, "New title");
    assert!(cur.content_path.is_empty() && cur.preview_path.is_empty() && cur.change_note.is_empty());
    assert_eq!(*saved.selected_tags.tags(), vec!["build", "fun"]);
}

#[test]
fn preview_built_from_trimmed_path() {
    let mut f = fields_from_item(&item(&[]), None);
    assert_eq!(preview_source(&f), None);
    f.preview_path = "  /pics/a.png ".into();
    f.fix_size = true;
    assert_eq!(preview_source(&f), Some(("/pics/a.png".to_string(), true)));
    assert_eq!(preview_note(true, 100, 50), None);
    assert_eq!(preview_note(false, 512, 512), None);
    assert_eq!(
        preview_note(false, 1024, 768),
        Some("This image is 1024x768, not 512x512. Tick the box above to resize it.".to_string())
    );
}
