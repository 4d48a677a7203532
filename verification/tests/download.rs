use gmod_wstool::steam::download::{
    decode_gma, decompress_if_lzma, done_state, is_gma_header, parse_id, progress_from_info,
    scan_existing, CollectionResolveJob, CopyUnpackJob, DownloadFinishJob, DownloadState,
    FinishResult, PollResult, ScannedEntry,
};
use std::sync::mpsc;

#[test]
fn parse_id_bare_number() {
    assert_eq!(parse_id("123"), Some(123));
    assert_eq!(parse_id("  456\t\n"), Some(456));
    assert_eq!(parse_id("+7"), Some(7));
    assert_eq!(parse_id("18446744073709551615"), Some(u64::MAX));
}

#[test]
fn parse_id_from_workshop_url() {
    assert_eq!(
        parse_id("https://steamcommunity.com/sharedfiles/filedetails/?id=2912816023"),
        Some(2912816023)
    );
    assert_eq!(
        parse_id("https://steamcommunity.com/sharedfiles/filedetails/?l=en&id=42&searchtext="),
        Some(42)
    );
    assert_eq!(parse_id(" id=5 "), Some(5));
}

#[test]
fn parse_id_rejects_other_text() {
    assert_eq!(parse_id(""), None);
    assert_eq!(parse_id("abc"), None);
    assert_eq!(parse_id("-5"), None);
    assert_eq!(parse_id("18446744073709551616"), None);
    assert_eq!(parse_id("https://example.com/?idx=4"), None);
}

#[test]
fn parse_id_uses_only_first_id_parameter() {
    assert_eq!(parse_id("?id=x&id=5"), None);
    assert_eq!(parse_id("?id=6&id=5"), Some(6));
    assert_eq!(parse_id("?a=1&id= 9"), None);
}

#[test]
fn progress_only_while_partly_downloaded() {
    assert!(matches!(progress_from_info(None), PollResult::Pending));
    assert!(matches!(progress_from_info(Some((0, 0))), PollResult::Pending));
    assert!(matches!(progress_from_info(Some((10, 10))), PollResult::Pending));
    match progress_from_info(Some((3, 10))) {
        PollResult::Downloading(DownloadState::Downloading { downloaded, total }) => {
            assert_eq!((downloaded, total), (3, 10));
        }
        _ => panic!("expected progress"),
    }
}

#[test]
fn done_state_falls_back_to_folder() {
    match done_state("/d/1".into(), None, "/d/1/unpacked".into(), false) {
        DownloadState::Done { gma, unpacked } => {
            assert_eq!(gma, "/d/1");
            assert_eq!(unpacked.as_deref(), Some("/d/1"));
        }
        _ => panic!(),
    }
    match done_state("/d/1".into(), Some("/d/1/a.gma".into()), "/d/1/unpacked".into(), true) {
        DownloadState::Done { gma, unpacked } => {
            assert_eq!(gma, "/d/1/a.gma");
            assert_eq!(unpacked.as_deref(), Some("/d/1/unpacked"));
        }
        _ => panic!(),
    }
}

fn entry(name: &str, is_dir: bool, has_entries: bool, created: i128) -> ScannedEntry {
    ScannedEntry { name: name.to_string(), is_dir, has_entries, created }
}

#[test]
fn scan_existing_newest_first_and_stable() {
    let entries = vec![
        entry("10", true, true, 5),
        entry("notes", true, true, 9),
        entry("11", true, false, 9),
        entry("12", false, true, 9),
        entry("13", true, true, 7),
        entry("14", true, true, 5),
        entry("15", true, true, 100),
        entry("16", true, true, -3),
    ];
    assert_eq!(scan_existing(&entries), vec![15, 13, 10, 14, 16]);
    assert_eq!(scan_existing(&vec![]), Vec::<u64>::new());
}

#[test]
fn gma_header_magic() {
    assert!(is_gma_header(b"GMAD\x03"));
    assert!(is_gma_header(&[0x5d, 0, 0, 0]));
    assert!(!is_gma_header(b"GMA"));
    assert!(!is_gma_header(b"PK\x03\x04"));
}

fn sample_gma() -> Vec<u8> {
    let mut b = gma_lite::Builder::new("Test", 76561197960287930);
    b.file_from_string("lua/autorun/a.lua", "print(1)");
    b.file_from_bytes("materials/x.vmt", vec![1, 2, 3]);
    let mut out = Vec::new();
    b.write_to(&mut out).unwrap();
    out
}

#[test]
fn decode_plain_gma() {
    let entries = decode_gma(sample_gma()).unwrap();
    assert_eq!(entries.len(), 2);
    assert_eq!(entries[0].name, "lua/autorun/a.lua");
    assert_eq!(entries[0].content, b"print(1)".to_vec());
    assert_eq!(entries[1].name, "materials/x.vmt");
    assert_eq!(entries[1].content, vec![1, 2, 3]);
}

#[test]
fn decode_lzma_gma() {
    let raw = sample_gma();
    let mut packed = Vec::new();
    {
        let opts = lzma_rust2::LzmaOptions::with_preset(6);
        let mut w = lzma_rust2::LzmaWriter::new_use_header(&mut packed, &opts, Some(raw.len() as u64)).unwrap();
        std::io::Write::write_all(&mut w, &raw).unwrap();
        w.finish().unwrap();
    }
    assert_eq!(packed[0], 0x5d);
    assert_eq!(decompress_if_lzma(packed.clone()).unwrap(), raw);
    let entries = decode_gma(packed).unwrap();
    assert_eq!(entries.len(), 2);
    assert_eq!(entries[1].name, "materials/x.vmt");
}

#[test]
fn decode_reports_bad_archives() {
    let e = decode_gma(b"NOPE-not-a-gma".to_vec()).err().unwrap();
    assert!(e.starts_with("Parse failed: "), "{e}");
    let e = decode_gma(vec![0x5d, 1, 2]).err().unwrap();
    assert!(e.starts_with("LZMA"), "{e}");
    assert_eq!(decompress_if_lzma(vec![1, 2, 3]).unwrap(), vec![1, 2, 3]);
}

#[test]
fn finish_job_keeps_first_outcome() {
    let (tx, rx) = mpsc::channel();
    let mut job = DownloadFinishJob::waiting(rx);
    assert!(job.poll().is_none());
    tx.send(FinishResult::Failed("x".into())).unwrap();
    tx.send(FinishResult::Installed("y".into())).unwrap();
    assert!(matches!(job.poll(), Some(FinishResult::Failed(m)) if m == "x"));
    assert!(matches!(job.poll(), Some(FinishResult::Failed(m)) if m == "x"));
    let mut done = DownloadFinishJob::already_done("/steam/123".into());
    assert!(matches!(done.poll(), Some(FinishResult::Installed(p)) if p == "/steam/123"));
}

#[test]
fn collection_and_copy_jobs_report_once_ready() {
    let (tx, rx) = mpsc::channel();
    let mut job = CollectionResolveJob::waiting(77, rx);
    assert_eq!(job.id(), 77);
    assert!(job.poll().is_none());
    tx.send(Ok(vec![1, 2])).unwrap();
    assert_eq!(job.poll(), Some(&Ok(vec![1, 2])));
    let (tx, rx) = mpsc::channel();
    let mut copy = CopyUnpackJob::waiting(rx);
    assert!(copy.poll().is_none());
    tx.send(DownloadState::Error("disk full".into())).unwrap();
    assert!(matches!(copy.poll(), Some(DownloadState::Error(e)) if e == "disk full"));
}
