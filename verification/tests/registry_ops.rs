//! Registry behaviour: registration, lookups, focus exclusivity, the
//! frame back-references, removal and order compaction.

use tullashell::{ManagedWindow, Visibility, WindowManager};

fn sample_registry() -> WindowManager {
    let mut wm = WindowManager::new();
    wm.installexternalwindow(1, 101, b"alpha".to_vec(), 10, 20, 300, 200, 0);
    wm.installexternalwindow(2, 102, b"beta".to_vec(), 30, 40, 400, 250, 0);
    wm.installexternalwindow(3, 103, b"alpha".to_vec(), 50, 60, 500, 300, 0);
    wm
}

#[test]
fn register_and_lookup() {
    let wm = sample_registry();
    let m = wm.getwindow(2).expect("client 2 is registered");
    assert_eq!(m.frame, 102);
    assert_eq!(m.title, b"beta".to_vec());
    assert_eq!((m.x, m.y, m.width, m.height), (30, 40, 400, 250));
    assert!(wm.getwindow(9).is_none());
}

#[test]
fn lookup_by_frame_resolves_back_reference() {
    let wm = sample_registry();
    // Every frame key resolves to the record carrying that frame.
    for f in [101u32, 102, 103] {
        let m = wm.getframe(f).expect("frame is linked");
        assert_eq!(m.frame, f);
    }
    assert!(wm.getframe(999).is_none());
}

#[test]
fn registration_defaults_to_unfocused() {
    let wm = sample_registry();
    assert_eq!(wm.getwindow(1).unwrap().vis, Visibility::VisibleUnfocused);
    assert_eq!(wm.getwindow(2).unwrap().vis, Visibility::VisibleUnfocused);
    assert_eq!(wm.getwindow(3).unwrap().vis, Visibility::VisibleUnfocused);
}

#[test]
fn explicit_focus_at_creation_takes_the_focus() {
    let mut wm = WindowManager::new();
    wm.installexternalwindow(1, 101, b"a".to_vec(), 0, 0, 10, 10, 0);
    assert!(wm.focus(101));
    // A record inserted focused at creation displaces the focus holder.
    wm.insertwindow(ManagedWindow {
        window: 2,
        frame: 102,
        title: b"b".to_vec(),
        x: 0,
        y: 0,
        width: 10,
        height: 10,
        vis: Visibility::VisibleFocused,
        order: 0,
    });
    assert_eq!(wm.getwindow(1).unwrap().vis, Visibility::VisibleUnfocused);
    assert_eq!(wm.getwindow(2).unwrap().vis, Visibility::VisibleFocused);
}

#[test]
fn focus_moves_exclusively() {
    let mut wm = sample_registry();
    assert!(wm.focus(103));
    assert!(wm.focus(101));
    assert_eq!(wm.getwindow(1).unwrap().vis, Visibility::VisibleFocused);
    assert_eq!(wm.getwindow(3).unwrap().vis, Visibility::VisibleUnfocused);
    let focused = wm.windows.iter().filter(|m| m.vis == Visibility::VisibleFocused).count();
    assert_eq!(focused, 1);
}

#[test]
fn focus_on_unknown_frame_changes_nothing() {
    let mut wm = sample_registry();
    assert!(wm.focus(103));
    assert!(!wm.focus(999));
    assert_eq!(wm.getwindow(3).unwrap().vis, Visibility::VisibleFocused);
}

#[test]
fn focus_is_idempotent() {
    let mut wm = sample_registry();
    assert!(wm.focus(102));
    let before: Vec<Visibility> = wm.windows.iter().map(|m| m.vis).collect();
    assert!(wm.focus(102));
    let after: Vec<Visibility> = wm.windows.iter().map(|m| m.vis).collect();
    assert_eq!(before, after);
}

#[test]
fn findwindow_returns_every_match_in_order() {
    let wm = sample_registry();
    let hits = wm.findwindow(&b"alpha".to_vec());
    assert_eq!(hits, vec![0, 2]);
    let none = wm.findwindow(&b"gamma".to_vec());
    assert!(none.is_empty());
}

#[test]
fn removewindow_drops_record_and_link() {
    let mut wm = sample_registry();
    wm.removewindow(2);
    assert!(wm.getwindow(2).is_none());
    assert!(wm.getframe(102).is_none());
    assert_eq!(wm.windows.len(), 2);
    assert_eq!(wm.frames.len(), 2);
    // Removing an unknown client is treated as already gone.
    wm.removewindow(2);
    assert_eq!(wm.windows.len(), 2);
}

#[test]
fn relinkframe_moves_record_and_link_together() {
    let mut wm = sample_registry();
    wm.relinkframe(1, 201);
    assert_eq!(wm.getwindow(1).unwrap().frame, 201);
    let m = wm.getframe(201).expect("new frame is linked");
    assert_eq!(m.window, 1);
    assert!(wm.getframe(101).is_none());
}

#[test]
fn fillblanks_assigns_next_integers_in_order() {
    let mut wm = WindowManager::new();
    wm.installexternalwindow(1, 101, b"a".to_vec(), 0, 0, 10, 10, 1);
    wm.installexternalwindow(2, 102, b"b".to_vec(), 0, 0, 10, 10, 0);
    wm.installexternalwindow(3, 103, b"c".to_vec(), 0, 0, 10, 10, 2);
    wm.installexternalwindow(4, 104, b"d".to_vec(), 0, 0, 10, 10, 0);
    wm.fillblanks();
    let orders: Vec<u8> = wm.windows.iter().map(|m| m.order).collect();
    assert_eq!(orders, vec![1, 3, 2, 4]);
}

#[test]
fn fillblanks_makes_a_permutation() {
    // A mix of zero and positive orders (the positives being exactly 1..=2)
    // compacts to a permutation of 1..=count.
    let mut wm = WindowManager::new();
    wm.installexternalwindow(1, 101, b"a".to_vec(), 0, 0, 10, 10, 2);
    wm.installexternalwindow(2, 102, b"b".to_vec(), 0, 0, 10, 10, 0);
    wm.installexternalwindow(3, 103, b"c".to_vec(), 0, 0, 10, 10, 1);
    wm.installexternalwindow(4, 104, b"d".to_vec(), 0, 0, 10, 10, 0);
    wm.fillblanks();
    let mut orders: Vec<u8> = wm.windows.iter().map(|m| m.order).collect();
    orders.sort();
    assert_eq!(orders, vec![1, 2, 3, 4]);
}

#[test]
fn movewindow_commits_position_by_frame() {
    let mut wm = sample_registry();
    assert!(wm.movewindow(102, 77, 88));
    let m = wm.getwindow(2).unwrap();
    assert_eq!((m.x, m.y), (77, 88));
    assert!(!wm.movewindow(999, 0, 0));
}

#[test]
fn hidewindow_marks_hidden_taskbar() {
    let mut wm = sample_registry();
    assert!(wm.hidewindow(3));
    assert_eq!(wm.getwindow(3).unwrap().vis, Visibility::HiddenTaskbar);
    assert!(!wm.hidewindow(9));
}
