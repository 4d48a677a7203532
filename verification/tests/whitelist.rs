use gmod_wstool::whitelist::{
    fallback_patterns, is_allowed, parse_header, refresh_with, seed, to_storage_string, Whitelist,
};

fn header(patterns: &[&str]) -> String {
    let mut s = String::from("#pragma once\n// comment with \"quotes\"\nstatic const char* Wildcard[] =\n{\n");
    for p in patterns {
        s.push_str(&format!("\t\"{}\", // some note\n", p));
    }
    s.push_str("\tNULL\n};\n\"after/*\"\n");
    s
}

fn many(n: usize) -> Vec<String> {
    (0..n).map(|i| format!("dir{}/*.txt", i)).collect()
}

#[test]
fn fallback_allows_lua_and_maps() {
    let wl = Whitelist::new();
    assert!(is_allowed(&wl, "lua/autorun/init.lua"));
    assert!(is_allowed(&wl, "maps/gm_flat.bsp"));
    assert!(is_allowed(&wl, "materials/foo/bar.vmt"));
    assert!(!is_allowed(&wl, "readme.txt"));
    assert!(!is_allowed(&wl, "lua/autorun/init.luac"));
}

#[test]
fn fallback_negations_win_when_last() {
    let wl = Whitelist::new();
    assert!(is_allowed(&wl, "models/props/box.vtx"));
    assert!(!is_allowed(&wl, "models/props/box.sw.vtx"));
    assert!(!is_allowed(&wl, "models/props/box.xbox.vtx"));
    assert!(is_allowed(&wl, "gamemodes/sandbox/sandbox.txt"));
    assert!(!is_allowed(&wl, "gamemodes/sandbox/extra/info.txt"));
}

#[test]
fn fallback_list_has_all_entries() {
    let v = fallback_patterns();
    assert_eq!(v.len(), 73);
    assert_eq!(v[0], "lua/*.lua");
    assert_eq!(v[72], "shaders/fxc/*.vcs");
    assert!(v.contains(&"!models/*.sw.vtx".to_string()));
}

#[test]
fn wildcard_question_mark_matches_one_char() {
    let mut wl = Whitelist::new();
    seed(&mut wl, Some("[\"a?c\"]".to_string()));
    assert!(is_allowed(&wl, "abc"));
    assert!(!is_allowed(&wl, "ac"));
    assert!(!is_allowed(&wl, "abbc"));
}

#[test]
fn storage_round_trip_restores_patterns() {
    let mut a = Whitelist::new();
    seed(&mut a, Some("[\"x/*\",\"!x/y*\",\"quote\\\"d\"]".to_string()));
    let saved = to_storage_string(&a);
    let mut b = Whitelist::new();
    seed(&mut b, Some(saved.clone()));
    assert_eq!(to_storage_string(&b), saved);
    assert!(is_allowed(&b, "x/a"));
    assert!(!is_allowed(&b, "x/yz"));
    assert!(!is_allowed(&b, "lua/a.lua"));
}

#[test]
fn seed_keeps_fallback_on_missing_corrupt_or_empty() {
    let fallback = to_storage_string(&Whitelist::new());
    let mut wl = Whitelist::new();
    seed(&mut wl, None);
    assert_eq!(to_storage_string(&wl), fallback);
    seed(&mut wl, Some("not json".to_string()));
    assert_eq!(to_storage_string(&wl), fallback);
    seed(&mut wl, Some("{\"a\": 1}".to_string()));
    assert_eq!(to_storage_string(&wl), fallback);
    seed(&mut wl, Some("[]".to_string()));
    assert_eq!(to_storage_string(&wl), fallback);
    assert!(is_allowed(&wl, "lua/a.lua"));
}

#[test]
fn storage_string_is_json_list() {
    let mut wl = Whitelist::new();
    seed(&mut wl, Some("[\"a/*\", \"b/*\"]".to_string()));
    assert_eq!(to_storage_string(&wl), "[\"a/*\",\"b/*\"]");
}

#[test]
fn parse_header_reads_quoted_patterns() {
    let pats = many(20);
    let refs: Vec<&str> = pats.iter().map(|s| s.as_str()).collect();
    let got = parse_header(&header(&refs)).expect("20 patterns");
    assert_eq!(got, pats);
}

#[test]
fn parse_header_needs_twenty_patterns() {
    let pats = many(19);
    let refs: Vec<&str> = pats.iter().map(|s| s.as_str()).collect();
    assert_eq!(parse_header(&header(&refs)), None);
}

#[test]
fn parse_header_without_marker_or_brace() {
    let pats = many(25);
    let refs: Vec<&str> = pats.iter().map(|s| s.as_str()).collect();
    let text = header(&refs);
    assert_eq!(parse_header(&text.replace("Wildcard[] =", "Other[] =")), None);
    assert_eq!(parse_header(&text.replace('{', "(")), None);
}

#[test]
fn parse_header_skips_comments_and_stops_at_null() {
    let mut text = String::from("x Wildcard[] = {\r\n");
    for i in 0..20 {
        text.push_str(&format!("  \"p{}/*\",\r\n", i));
        text.push_str("  // \"commented/*\",\r\n");
        text.push_str("  \"\",\r\n");
    }
    text.push_str("  NULL, \"late/*\"\r\n  \"later/*\",\r\n");
    let got = parse_header(&text).expect("list");
    assert_eq!(got.len(), 40);
    assert_eq!(got[0], "p0/*");
    assert_eq!(got[1], "");
    assert_eq!(got[38], "p19/*");
    assert!(!got.iter().any(|p| p.contains("commented") || p.contains("late")));
}

#[test]
fn parse_header_takes_first_to_last_quote() {
    let mut text = String::from("Wildcard[] =\n{\n");
    for _ in 0..20 {
        text.push_str("\"a\" \"b\"\n");
    }
    text.push_str("one \" quote only\n");
    let got = parse_header(&text).unwrap();
    assert_eq!(got.len(), 20);
    assert_eq!(got[0], "a\" \"b");
}

#[test]
fn refresh_with_replaces_only_on_valid_header() {
    let mut wl = Whitelist::new();
    assert!(!refresh_with(&mut wl, "<html>not found</html>"));
    assert!(is_allowed(&wl, "lua/a.lua"));
    let pats = many(20);
    let refs: Vec<&str> = pats.iter().map(|s| s.as_str()).collect();
    assert!(refresh_with(&mut wl, &header(&refs)));
    assert!(is_allowed(&wl, "dir3/readme.txt"));
    assert!(!is_allowed(&wl, "lua/a.lua"));
}
