//! Panel slot-table behaviour: construction, icon and button insertion with
//! the shifting and width-rebalance rules, removal, capacity hardening and
//! hit-testing.

use tullashell::{addpanelicon, IconTable, PanelError, PanelTable, RegionKind, SlotKind, SubState};

fn wide_panel() -> PanelTable {
    // A comfortably wide screen: the tray sits at 1024 - 60 - 3 = 961.
    PanelTable::new(1024, 60)
}

fn button_client_of(k: SlotKind) -> Option<u32> {
    match k {
        SlotKind::WindowButton(w, _) => Some(w),
        _ => None,
    }
}

#[test]
fn fresh_panel_has_start_button_and_tray() {
    let t = wide_panel();
    assert_eq!(t.slots.len(), 2);
    assert!(matches!(t.slots[0].kind, SlotKind::StartButton(SubState::Ready)));
    assert_eq!((t.slots[0].x, t.slots[0].width), (2, 54));
    assert!(matches!(t.slots[1].kind, SlotKind::NotificationTray));
    assert_eq!((t.slots[1].x, t.slots[1].width), (961, 60));
}

#[test]
fn icons_pack_from_their_base() {
    let mut t = wide_panel();
    assert_eq!(t.insertpanelicon(7), Ok(1));
    assert_eq!(t.insertpanelicon(8), Ok(2));
    assert_eq!((t.slots[1].x, t.slots[1].width), (60, 23));
    assert_eq!((t.slots[2].x, t.slots[2].width), (83, 23));
    assert!(matches!(t.slots[1].kind, SlotKind::QuickLaunchIcon(7, SubState::Ready)));
    assert!(matches!(t.slots[2].kind, SlotKind::QuickLaunchIcon(8, SubState::Ready)));
}

#[test]
fn first_button_takes_preferred_width() {
    let mut t = wide_panel();
    let idx = t.insertpanelwindow(41).expect("room for a button");
    assert_eq!(idx, 1);
    assert_eq!(t.slots[1].width, 160);
    // One spacing behind the start button's end: 2 + 54 + 3.
    assert_eq!(t.slots[1].x, 59);
    assert!(matches!(t.slots[1].kind, SlotKind::WindowButton(41, SubState::Ready)));
}

#[test]
fn buttons_space_out_and_tray_stays_rightmost() {
    let mut t = wide_panel();
    for w in [41u32, 42, 43] {
        t.insertpanelwindow(w).expect("room");
    }
    // 961 - 59 = 902 of space: three buttons at 160 + 3 still fit.
    assert_eq!(t.slots[1].x, 59);
    assert_eq!(t.slots[2].x, 59 + 163);
    assert_eq!(t.slots[3].x, 59 + 326);
    for i in 1..=3 {
        assert_eq!(t.slots[i].width, 160);
        assert!(t.slots[i].x + t.slots[i].width <= t.slots[4].x);
    }
    assert!(matches!(t.slots[4].kind, SlotKind::NotificationTray));
}

#[test]
fn overflow_rebalances_every_button() {
    // A narrow screen: tray at 300 - 60 - 3 = 237, region start 59,
    // 178 pixels of space.  One button fits preferred; the second forces
    // floor(178 / 2) - 3 = 86 on both.
    let mut t = PanelTable::new(300, 60);
    t.insertpanelwindow(41).expect("room");
    assert_eq!(t.slots[1].width, 160);
    t.insertpanelwindow(42).expect("room");
    assert_eq!(t.slots[1].width, 86);
    assert_eq!(t.slots[2].width, 86);
    assert_eq!(t.slots[1].x, 59);
    assert_eq!(t.slots[2].x, 59 + 89);
    // Still short of the tray.
    assert!(t.slots[2].x + t.slots[2].width <= t.slots[3].x);
}

#[test]
fn insertion_beyond_capacity_is_rejected() {
    let mut t = PanelTable::new(0x4000, 60);
    for i in 0..126u32 {
        t.insertpanelicon(i).expect("under capacity");
    }
    assert_eq!(t.slots.len(), 128);
    assert_eq!(t.insertpanelicon(999), Err(PanelError::SlotTableFull));
    assert_eq!(t.insertpanelwindow(999), Err(PanelError::SlotTableFull));
    assert_eq!(t.slots.len(), 128);
}

#[test]
fn crowded_region_rejects_a_widthless_button() {
    // 130-wide screen, tray at 67: 8 pixels of button space.  Two buttons
    // still split it (5, then 1 and 1), but a third cannot get a positive
    // width and the insertion is refused.
    let mut t = PanelTable::new(130, 60);
    t.insertpanelwindow(41).expect("one slim button fits");
    assert_eq!(t.slots[1].width, 5);
    t.insertpanelwindow(42).expect("two one-pixel buttons still fit");
    assert_eq!(t.slots[1].width, 1);
    assert_eq!(t.slots[2].width, 1);
    assert_eq!(t.insertpanelwindow(43), Err(PanelError::SlotTableFull));
}

#[test]
fn icon_insert_shifts_buttons_and_tray_right() {
    // Two window buttons first, then a quick-launch icon: both buttons move
    // one table index and exactly one icon width (23px) to the right.
    let mut t = wide_panel();
    t.insertpanelwindow(41).expect("room");
    t.insertpanelwindow(42).expect("room");
    let xs: Vec<i64> = t.slots.iter().map(|s| s.x).collect();
    let tray_before = t.slots[3].x;
    let idx = t.insertpanelicon(7).expect("room");
    assert_eq!(idx, 1);
    assert!(matches!(t.slots[1].kind, SlotKind::QuickLaunchIcon(7, _)));
    assert_eq!(button_client_of(t.slots[2].kind), Some(41));
    assert_eq!(button_client_of(t.slots[3].kind), Some(42));
    assert_eq!(t.slots[2].x, xs[1] + 23);
    assert_eq!(t.slots[3].x, xs[2] + 23);
    assert_eq!(t.slots[4].x, tray_before + 23);
    assert!(matches!(t.slots[4].kind, SlotKind::NotificationTray));
}

#[test]
fn button_removal_is_the_inverse_of_insertion() {
    let mut t = wide_panel();
    t.insertpanelwindow(41).expect("room");
    t.insertpanelwindow(42).expect("room");
    t.insertpanelwindow(43).expect("room");
    let removed = t.removepanelwindow(42);
    assert_eq!(removed, Some(2));
    assert_eq!(button_client_of(t.slots[1].kind), Some(41));
    assert_eq!(button_client_of(t.slots[2].kind), Some(43));
    assert_eq!(t.slots[1].width, 160);
    assert_eq!(t.slots[2].width, 160);
    assert!(matches!(t.slots[3].kind, SlotKind::NotificationTray));
    assert_eq!(t.removepanelwindow(42), None);
}

#[test]
fn removal_rebalances_back_to_preferred() {
    let mut t = PanelTable::new(300, 60);
    t.insertpanelwindow(41).expect("room");
    t.insertpanelwindow(42).expect("room");
    assert_eq!(t.slots[1].width, 86);
    t.removepanelwindow(42).expect("present");
    assert_eq!(t.slots[1].width, 160);
}

#[test]
fn icon_removal_pulls_everything_back() {
    let mut t = wide_panel();
    t.insertpanelicon(7).expect("room");
    t.insertpanelwindow(41).expect("room");
    let bx = t.slots[2].x;
    let tx = t.slots[3].x;
    assert!(t.removepanelicon(1));
    assert_eq!(button_client_of(t.slots[1].kind), Some(41));
    assert_eq!(t.slots[1].x, bx - 23);
    assert_eq!(t.slots[2].x, tx - 23);
    assert!(!t.removepanelicon(5));
}

#[test]
fn hit_test_round_trip_on_icons() {
    let mut t = wide_panel();
    t.insertpanelicon(7).expect("room");
    t.insertpanelicon(8).expect("room");
    // Icon slot 1 spans [60, 83): a hit in its middle resolves to it.
    assert_eq!(t.checkelement(60 + 11, 10), Some((1, RegionKind::QuickLaunch)));
    // Icon slot 2 spans [83, 106).
    assert_eq!(t.checkelement(83 + 11, 10), Some((2, RegionKind::QuickLaunch)));
    // One pixel left of the region start: no hit.
    assert_eq!(t.checkelement(59, 10), None);
    // The top two pixel rows never hit.
    assert_eq!(t.checkelement(70, 2), None);
}

#[test]
fn hit_test_round_trip_on_buttons() {
    let mut t = wide_panel();
    t.insertpanelwindow(41).expect("room");
    t.insertpanelwindow(42).expect("room");
    let first = t.slots[1].x;
    assert_eq!(t.checkelement(first + 80, 10), Some((1, RegionKind::WindowButtons)));
    assert_eq!(t.checkelement(t.slots[2].x + 80, 10), Some((2, RegionKind::WindowButtons)));
    // Beyond the region span, short of the tray: no hit.
    assert_eq!(t.checkelement(t.slots[2].x + 300, 10), None);
    // On or past the tray: no hit.
    assert_eq!(t.checkelement(t.slots[3].x, 10), None);
}

#[test]
fn icon_links_fill_first_free_slot() {
    let mut links = IconTable::new();
    let a = links.addlink(
        Vec::new(),
        b"Files".to_vec(),
        b"Browse files".to_vec(),
        b"computer.png".to_vec(),
    );
    assert_eq!(a, Some(0));
    let b = links.addlink(Vec::new(), b"Web".to_vec(), b"Browse".to_vec(), b"net.png".to_vec());
    assert_eq!(b, Some(1));
    assert_eq!(links.entries[0].label, b"Files".to_vec());
    assert_eq!(links.entries[1].image, b"net.png".to_vec());
}

#[test]
fn notification_links_fill_from_the_far_end() {
    let mut links = IconTable::new();
    let a = links.addnotificationicon(
        b"Sound".to_vec(),
        b"Muted".to_vec(),
        b"audio.png".to_vec(),
    );
    assert_eq!(a, Some(31));
    let b = links.addnotificationicon(
        b"Network".to_vec(),
        b"Offline".to_vec(),
        b"net.png".to_vec(),
    );
    assert_eq!(b, Some(30));
    assert_eq!(links.entries[31].label, b"Sound".to_vec());
    assert_eq!(links.entries[30].label, b"Network".to_vec());
}

#[test]
fn addpanelicon_binds_link_and_slot_together() {
    let mut links = IconTable::new();
    let mut t = wide_panel();
    let slot = addpanelicon(
        &mut links,
        &mut t,
        Vec::new(),
        b"Launcher".to_vec(),
        b"Open".to_vec(),
        b"computer.png".to_vec(),
    );
    assert_eq!(slot, Some(1));
    assert!(matches!(t.slots[1].kind, SlotKind::QuickLaunchIcon(0, _)));
    assert_eq!(links.entries[0].image, b"computer.png".to_vec());
}
