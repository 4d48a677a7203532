use gmod_wstool::steam::items::{
    page_count, query_result, visibility_code, Visibility, WorkshopItem, VIS_FRIENDS, VIS_PRIVATE,
    VIS_PUBLIC, VIS_UNLISTED,
};
use gmod_wstool::steam::state::{get_state, on_state_event, set_state, State, StateEvent, SteamStatus};
use gmod_wstool::tabs::my_workshop::{
    check_preview_size, fmt_size, is_empty_listing, items_label, page_label, path_field, Pager,
};

fn float_fmt_size(bytes: u32) -> String {
    if bytes == 0 {
        return "0 B".into();
    }
    let i = ((bytes as f64).log2() / 10.0) as usize;
    format!(
        "{:.1} {}",
        bytes as f64 / (1u64 << (i * 10)) as f64,
        ["B", "KB", "MB", "GB"][i.min(3)]
    )
}

#[test]
fn fmt_size_examples() {
    assert_eq!(fmt_size(0), "0 B");
    assert_eq!(fmt_size(1), "1.0 B");
    assert_eq!(fmt_size(1023), "1023.0 B");
    assert_eq!(fmt_size(1024), "1.0 KB");
    assert_eq!(fmt_size(1536), "1.5 KB");
    assert_eq!(fmt_size(1048576), "1.0 MB");
    assert_eq!(fmt_size(u32::MAX), "4.0 GB");
}

#[test]
fn fmt_size_agrees_with_float_formatting() {
    let mut b: u64 = 0;
    while b < 3_000_000 {
        assert_eq!(fmt_size(b as u32), float_fmt_size(b as u32), "{b}");
        b += 1;
    }
    let mut x: u64 = 1;
    while x <= u32::MAX as u64 {
        for d in [0i64, -1, 1, -512, 512, 51, -51, 52429, -52429] {
            let v = x as i64 + d;
            if v >= 0 && v <= u32::MAX as i64 {
                assert_eq!(fmt_size(v as u32), float_fmt_size(v as u32), "{v}");
            }
        }
        x = x * 3 + 7;
    }
}

#[test]
fn fmt_size_ties_round_to_even() {
    assert_eq!(fmt_size(1280), float_fmt_size(1280));
    assert_eq!(fmt_size(1280 + 1024), float_fmt_size(1280 + 1024));
    assert_eq!(fmt_size(1048576 + 52428 * 1 + 262144), float_fmt_size(1048576 + 52428 + 262144));
}

#[test]
fn page_count_examples() {
    assert_eq!(page_count(0, 0), 1);
    assert_eq!(page_count(0, 10), 1);
    assert_eq!(page_count(25, 10), 3);
    assert_eq!(page_count(30, 10), 3);
    assert_eq!(page_count(11, 0), 11);
    assert_eq!(page_count(u32::MAX, 2), 2147483648);
}

#[test]
fn query_result_carries_totals() {
    let item = WorkshopItem {
        id: 1,
        title: "t".into(),
        description: String::new(),
        tags: vec![],
        file_size: 10,
        preview_url: None,
        num_upvotes: 0,
        num_downvotes: 0,
        subscriptions: Some(3),
        visibility: VIS_PUBLIC,
    };
    let r = query_result(vec![item], 2, 45, 20);
    assert_eq!(r.items.len(), 1);
    assert_eq!(r.page, 2);
    assert_eq!(r.total_results, 45);
    assert_eq!(r.total_pages, 3);
}

#[test]
fn visibility_codes_are_distinct() {
    assert_eq!(visibility_code(Visibility::Public), VIS_PUBLIC);
    assert_eq!(visibility_code(Visibility::FriendsOnly), VIS_FRIENDS);
    assert_eq!(visibility_code(Visibility::Private), VIS_PRIVATE);
    assert_eq!(visibility_code(Visibility::Unlisted), VIS_UNLISTED);
    let all = [VIS_PUBLIC, VIS_FRIENDS, VIS_PRIVATE, VIS_UNLISTED];
    for i in 0..4 {
        for j in 0..4 {
            assert_eq!(i == j, all[i] == all[j]);
        }
    }
}

#[test]
fn state_follows_events() {
    let mut s = SteamStatus::new();
    assert!(get_state(&s) == State::DISCONNECTED);
    assert_eq!(State::DISCONNECTED.message(&s), "");
    on_state_event(&mut s, StateEvent::Initial { logged_on: false });
    assert!(get_state(&s) == State::DISCONNECTED);
    assert_eq!(get_state(&s).message(&s), "Disconnected from Steam servers");
    on_state_event(&mut s, StateEvent::Initial { logged_on: true });
    assert!(get_state(&s) == State::CONNECTED);
    assert_eq!(get_state(&s).message(&s), "Connected");
    on_state_event(&mut s, StateEvent::ConnectFailure("timeout".into()));
    assert!(get_state(&s) == State::FAILURE);
    assert_eq!(get_state(&s).message(&s), "timeout");
    on_state_event(&mut s, StateEvent::ServersDisconnected("no route".into()));
    assert!(get_state(&s) == State::DISCONNECTED);
    assert_eq!(get_state(&s).message(&s), "no route");
    on_state_event(&mut s, StateEvent::ServersConnected);
    assert!(get_state(&s) == State::CONNECTED);
    set_state(&mut s, State::FAILURE, "manual".into());
    assert!(get_state(&s) == State::FAILURE);
    assert_eq!(State::CONNECTED.message(&s), "manual");
}

#[test]
fn path_field_trims_and_drops_blank() {
    assert_eq!(path_field("  C:/addons/my addon \t"), Some("C:/addons/my addon".to_string()));
    assert_eq!(path_field("C:/a"), Some("C:/a".to_string()));
    assert_eq!(path_field("   \n"), None);
    assert_eq!(path_field(""), None);
}

#[test]
fn preview_must_be_512_square() {
    assert_eq!(check_preview_size(512, 512), Ok(()));
    assert_eq!(
        check_preview_size(640, 480),
        Err("Preview must be 512x512 (this is 640x480). Tick \"Resize image to fit 512x512\" to fix it automatically.".to_string())
    );
    assert!(check_preview_size(512, 511).is_err());
}

#[test]
fn list_labels() {
    assert_eq!(items_label(1), "1 item");
    assert_eq!(items_label(0), "0 items");
    assert_eq!(items_label(42), "42 items");
    assert_eq!(page_label(2, 5), "Page 2 of 5");
}

#[test]
fn pager_stays_within_pages() {
    let mut p = Pager::new();
    assert_eq!(p.page(), 1);
    assert!(!p.can_prev(false));
    assert!(!p.prev(false));
    assert_eq!(p.page(), 1);
    assert!(p.can_next(3, false));
    assert!(!p.can_next(3, true));
    assert!(!p.next(3, true));
    assert!(p.next(3, false));
    assert!(p.next(3, false));
    assert_eq!(p.page(), 3);
    assert!(!p.next(3, false));
    assert_eq!(p.page(), 3);
    assert!(p.prev(false));
    assert_eq!(p.page(), 2);
}

#[test]
fn empty_listing_only_on_first_page() {
    let first = query_result(vec![], 1, 0, 0);
    assert!(is_empty_listing(&first));
    let later = query_result(vec![], 2, 0, 0);
    assert!(!is_empty_listing(&later));
}
