use rashamon::adblock::AdblockEngine;
use rashamon::framebuffer::{Framebuffer, Pixel};
use rashamon::permissions::{DecisionSource, PermissionKind};
use rashamon::renderer::{
    adblock_block_reason, cursor_from_js, decision_source_label, derive_title,
    download_candidate_name, download_destination_for_test, fill_content_bg, js_string_literal,
    next_cell_generation, origin_key, permission_kinds, safe_download_filename, CursorKind,
    tabs_to_suspend, BlockSource, EnginePerfStats, LiveTab, OriginBlockCounts, OriginBlockTable,
};

#[test]
fn safe_download_filename_sanitises() {
    assert_eq!(safe_download_filename("../etc/passwd"), "passwd");
    assert_eq!(safe_download_filename("  my report (final).pdf "), "my_report_final.pdf");
    assert_eq!(safe_download_filename("..."), "download");
    assert_eq!(safe_download_filename("dir/"), "download");
    assert_eq!(safe_download_filename("na\u{ef}ve.txt"), "nave.txt");
}

#[test]
fn download_candidates_number_the_stem() {
    assert_eq!(download_candidate_name("report.pdf", 1), "report (1).pdf");
    assert_eq!(download_candidate_name("archive.tar.gz", 2), "archive.tar (2).gz");
    assert_eq!(download_candidate_name("README", 3), "README (3)");
    assert_eq!(download_candidate_name(".bashrc", 4), ".bashrc (4)");
    assert_eq!(download_candidate_name("", 5), "download (5)");
    assert_eq!(download_destination_for_test("x.bin"), "x.bin");
}

#[test]
fn js_string_literal_escapes() {
    assert_eq!(js_string_literal("it's"), "'it\\'s'");
    assert_eq!(js_string_literal("a\\b\nc\td\re"), "'a\\\\b\\nc\\td\\re'");
    assert_eq!(js_string_literal("\u{1}"), "'\\u0001'");
    assert_eq!(js_string_literal(""), "''");
}

#[test]
fn cursor_names_are_read_with_quotes_stripped() {
    assert_eq!(cursor_from_js("\"pointer\""), CursorKind::Pointer);
    assert_eq!(cursor_from_js("'text'"), CursorKind::Text);
    assert_eq!(cursor_from_js("wait"), CursorKind::Wait);
    assert_eq!(cursor_from_js("crosshair"), CursorKind::Default);
}

#[test]
fn labels_and_kinds() {
    assert_eq!(decision_source_label(DecisionSource::Persisted), "persisted");
    assert_eq!(decision_source_label(DecisionSource::Session), "session");
    assert_eq!(decision_source_label(DecisionSource::Default), "default");
    assert_eq!(
        permission_kinds(),
        [
            PermissionKind::Notifications,
            PermissionKind::Geolocation,
            PermissionKind::Camera,
            PermissionKind::Microphone,
            PermissionKind::Clipboard,
        ]
    );
}

#[test]
fn origin_key_falls_back_to_input() {
    assert_eq!(origin_key("https://Ex.com/a/b"), "https://ex.com");
    assert_eq!(origin_key("not a url"), "not a url");
}

#[test]
fn cell_generation_skips_zero() {
    let mut c = 0u64;
    assert_eq!(next_cell_generation(&mut c), 1);
    assert_eq!(c, 1);
    let mut m = u64::MAX;
    assert_eq!(next_cell_generation(&mut m), 1);
}

#[test]
fn block_counts_saturate() {
    let c = OriginBlockCounts { in_process_policy: 1, in_process_subresource: 2, webextension_hard: 3 };
    assert_eq!(c.total(), 6);
    let big = OriginBlockCounts { in_process_policy: u64::MAX, in_process_subresource: 2, webextension_hard: 0 };
    assert_eq!(big.total(), u64::MAX);
    let s = EnginePerfStats::default();
    assert_eq!(s.live_webviews, 0);
}

#[test]
fn block_reason_comes_from_engine() {
    let mut e = AdblockEngine::new();
    assert_eq!(
        adblock_block_reason(&mut e, "https://ad.doubleclick.net/x", "", false).as_deref(),
        Some("doubleclick.net")
    );
    assert_eq!(adblock_block_reason(&mut e, "https://example.com/", "", false), None);
}

#[test]
fn engine_title_is_host() {
    assert_eq!(derive_title("https://www.example.com/page"), "example.com");
    assert_eq!(derive_title(""), "");
}

#[test]
fn content_background_is_white() {
    let mut fb = Framebuffer::new(4, 4);
    fill_content_bg(&mut fb, 1, 2);
    assert_eq!(fb.get_pixel(0, 0), Pixel::black());
    assert_eq!(fb.get_pixel(3, 1), Pixel::white());
    assert_eq!(fb.get_pixel(3, 2), Pixel::white());
    assert_eq!(fb.get_pixel(3, 3), Pixel::black());
}

#[test]
fn block_counts_are_kept_per_origin() {
    let mut t = OriginBlockTable::new();
    t.increment_origin_block_count("https://News.example/a", BlockSource::InProcessPolicy);
    t.increment_origin_block_count("https://news.example/b", BlockSource::InProcessPolicy);
    t.increment_origin_block_count("https://news.example", BlockSource::WebExtensionHard);
    t.increment_origin_block_count("", BlockSource::InProcessSubresource);
    t.increment_origin_block_count("odd key", BlockSource::InProcessSubresource);
    let c = t.get("https://news.example");
    assert_eq!((c.in_process_policy, c.in_process_subresource, c.webextension_hard), (2, 0, 1));
    assert_eq!(c.total(), 3);
    assert_eq!(t.get("odd key").in_process_subresource, 1);
    assert_eq!(t.get("").total(), 0);
    assert_eq!(t.get("https://other.example").total(), 0);
}

fn live(id: u64, has_url: bool, idle_ns: u128) -> LiveTab {
    LiveTab { id, has_url, idle_ns }
}

#[test]
fn idle_tabs_with_a_url_are_suspended_except_the_active_one() {
    let tabs = [live(1, true, 900), live(2, true, 100), live(3, false, 900), live(4, true, 500)];
    assert_eq!(tabs_to_suspend(false, false, 0, 1, &tabs, 500), vec![4]);
    assert_eq!(tabs_to_suspend(false, false, 0, 2, &tabs, 500), vec![1, 4]);
    // Forcing ignores idleness, but never takes the active tab or one without a URL.
    assert_eq!(tabs_to_suspend(false, true, 0, 1, &tabs, 500), vec![2, 4]);
}

#[test]
fn suspension_waits_for_downloads_and_respects_disabling() {
    let tabs = [live(1, true, 900), live(2, true, 900)];
    assert_eq!(tabs_to_suspend(false, false, 1, 1, &tabs, 0), Vec::<u64>::new());
    assert_eq!(tabs_to_suspend(true, true, 1, 1, &tabs, 0), Vec::<u64>::new());
    assert_eq!(tabs_to_suspend(true, false, 0, 1, &tabs, 0), Vec::<u64>::new());
    assert_eq!(tabs_to_suspend(true, true, 0, 1, &tabs, 0), vec![2]);
}
