//! Text fitting, word wrapping, colour-file parsing, clock arithmetic and
//! the drag-outline geometry.

use tullashell::{
    clockfields, loadcolours, minutedigits, outlinerects, squishtext, twelvehour, updateclock,
    wraptext, Theme,
};

#[test]
fn squishtext_keeps_a_fitting_title() {
    // 98 / 6 = 16 characters fit; eleven are needed.
    let out = squishtext(&b"Hello World".to_vec(), 100, 6);
    assert_eq!(out, b"Hello World".to_vec());
}

#[test]
fn squishtext_truncates_with_ellipsis() {
    // (40 - 2) / 6 = 6 characters: three kept, three dots.
    let out = squishtext(&b"A very long window title".to_vec(), 40, 6);
    assert_eq!(out, b"A v...".to_vec());
}

#[test]
fn squishtext_bare_prefix_when_tiny() {
    // (20 - 2) / 6 = 3 characters: no room for dots.
    let out = squishtext(&b"A very long window title".to_vec(), 20, 6);
    assert_eq!(out, b"A v".to_vec());
}

#[test]
fn squishtext_empty_when_no_room() {
    let out = squishtext(&b"anything".to_vec(), 7, 6);
    assert!(out.is_empty());
}

#[test]
fn wraptext_packs_words_greedily() {
    // 60 / 6 = 10 characters per line.
    let lines = wraptext(&b"the quick brown fox".to_vec(), 60, 6);
    assert_eq!(lines, vec![b"the quick".to_vec(), b"brown fox".to_vec()]);
}

#[test]
fn wraptext_chunks_an_oversized_word() {
    let lines = wraptext(&b"abcdefghijklmno".to_vec(), 60, 6);
    assert_eq!(lines, vec![b"abcdefghij".to_vec(), b"klmno".to_vec()]);
}

#[test]
fn wraptext_collapses_whitespace_runs() {
    let lines = wraptext(&b"  a\t\tb \n c  ".to_vec(), 60, 6);
    assert_eq!(lines, vec![b"a b c".to_vec()]);
}

#[test]
fn wraptext_empty_input_gives_no_lines() {
    let lines = wraptext(&b"   ".to_vec(), 60, 6);
    assert!(lines.is_empty());
}

#[test]
fn loadcolours_reads_values_in_order() {
    let t = loadcolours(&b"123456\n0xABCDEF\n\n  0x00FF00  \n".to_vec());
    assert_eq!(t.highbackground, 0x123456);
    assert_eq!(t.lowbackground, 0xABCDEF);
    // The blank line is skipped, not counted as a slot.
    assert_eq!(t.highlight, 0x00FF00);
    // The file is short: the remaining slots keep their defaults.
    assert_eq!(t.lowlight, 0x000000);
    assert_eq!(t.wallpaper, 0x008080);
    assert_eq!(t.titlebar, 0x0000A8);
}

#[test]
fn loadcolours_bad_line_falls_back_per_slot() {
    let t = loadcolours(&b"purple\n123\n".to_vec());
    assert_eq!(t.highbackground, 0xBBBBBB);
    assert_eq!(t.lowbackground, 0x123);
}

#[test]
fn loadcolours_overflow_falls_back() {
    let t = loadcolours(&b"123456789AB\n".to_vec());
    assert_eq!(t.highbackground, 0xBBBBBB);
}

#[test]
fn loadcolours_empty_matches_defaults() {
    let t = loadcolours(&Vec::new());
    let d = Theme::defaults();
    assert_eq!(t, d);
}

#[test]
fn clockfields_reads_utc_hours_and_minutes() {
    // 3661 seconds past midnight: 01:01.
    assert_eq!(clockfields(3661), (1, 1));
    assert_eq!(clockfields(0), (0, 0));
    // 23:59.
    assert_eq!(clockfields(86340), (23, 59));
}

#[test]
fn twelvehour_display() {
    assert_eq!(twelvehour(0), (12, false));
    assert_eq!(twelvehour(9), (9, false));
    assert_eq!(twelvehour(12), (12, true));
    assert_eq!(twelvehour(13), (1, true));
    assert_eq!(twelvehour(23), (11, true));
}

#[test]
fn minutedigits_zero_pads() {
    assert_eq!(minutedigits(4), (0, 4));
    assert_eq!(minutedigits(59), (5, 9));
}

#[test]
fn updateclock_redraws_on_minute_change() {
    // Same minute: nothing to redraw.
    assert_eq!(updateclock(10, 30, 30), (10, 30, false));
    // New minute: redraw, hour kept.
    assert_eq!(updateclock(10, 30, 31), (10, 31, true));
    // Minute rolls over to zero: the displayed hour advances.
    assert_eq!(updateclock(10, 59, 0), (11, 0, true));
    assert_eq!(updateclock(24, 59, 0), (0, 0, true));
}

#[test]
fn outline_ring_far_from_panel() {
    let r = outlinerects(10, 10, 100, 50, 1000);
    assert_eq!(r.len(), 4);
    // Top edge, bottom edge, then the two sides.
    assert_eq!((r[0].x, r[0].y, r[0].width, r[0].height), (10, 10, 100, 4));
    assert_eq!((r[1].x, r[1].y, r[1].width, r[1].height), (10, 56, 100, 4));
    assert_eq!((r[2].x, r[2].y, r[2].width, r[2].height), (10, 14, 4, 42));
    assert_eq!((r[3].x, r[3].y, r[3].width, r[3].height), (106, 14, 4, 42));
}

#[test]
fn outline_ring_clipped_by_panel_band() {
    // The panel band starts at y 30: the bottom edge disappears and the
    // sides shorten; nothing reaches past the band.
    let r = outlinerects(10, 10, 100, 50, 30);
    for rect in r.iter() {
        assert!(rect.y + rect.height <= 30);
    }
    assert_eq!(r.len(), 3);
    assert_eq!((r[0].x, r[0].y, r[0].width, r[0].height), (10, 10, 100, 4));
    assert_eq!((r[1].x, r[1].y, r[1].width, r[1].height), (10, 14, 4, 16));
    assert_eq!((r[2].x, r[2].y, r[2].width, r[2].height), (106, 14, 4, 16));
}
