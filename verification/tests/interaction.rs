//! The interaction machine through the shell: hover/press/release feedback
//! with its radio-group resets, the focus scenarios, the outline drag, the
//! minimize path and the window lifecycle.

use tullashell::{
    framegeometry, Command, PanelTable, RedrawSignal, RegionKind, Shell, SlotKind, SubState,
    Visibility,
};

fn substate_at(t: &PanelTable, i: usize) -> Option<SubState> {
    match t.slots[i].kind {
        SlotKind::StartButton(s) => Some(s),
        SlotKind::QuickLaunchIcon(_, s) => Some(s),
        SlotKind::WindowButton(_, s) => Some(s),
        SlotKind::NotificationTray => None,
    }
}

fn shell_with_two_windows() -> Shell {
    // Screen 1024x768, no tray icons, title bar 18, border 4, outline drag.
    let mut s = Shell::new(1024, 768, 0, 18, 4, true);
    let c1 = s.handlemaprequest(1, false, 50, 50, 200, 100, b"alpha".to_vec());
    assert_eq!(c1, vec![Command::CreateFrame { window: 1 }]);
    s.handleframecreated(1, 101);
    let c2 = s.handlemaprequest(2, false, 300, 80, 250, 150, b"beta".to_vec());
    assert_eq!(c2, vec![Command::CreateFrame { window: 2 }]);
    s.handleframecreated(2, 102);
    // Mapping does not grab the focus: both start merely visible.
    assert_eq!(s.wm.getwindow(1).unwrap().vis, Visibility::VisibleUnfocused);
    assert_eq!(s.wm.getwindow(2).unwrap().vis, Visibility::VisibleUnfocused);
    s
}

#[test]
fn hover_sets_and_resets_with_mutual_exclusion() {
    let mut s = Shell::new(1024, 768, 0, 18, 4, true);
    s.panel.insertpanelicon(7).expect("room");
    s.panel.insertpanelicon(8).expect("room");
    // Hover the first icon.
    s.panelmotion(71, 10);
    assert_eq!(substate_at(&s.panel, 1), Some(SubState::Hovered));
    // Hover the second: the first drops back to ready.
    s.panelmotion(94, 10);
    assert_eq!(substate_at(&s.panel, 1), Some(SubState::Ready));
    assert_eq!(substate_at(&s.panel, 2), Some(SubState::Hovered));
    // Leave the panel region: everything ready again.
    s.panelmotion(500, 10);
    assert_eq!(substate_at(&s.panel, 2), Some(SubState::Ready));
}

#[test]
fn release_fires_only_the_pressed_slot() {
    let mut s = Shell::new(1024, 768, 0, 18, 4, true);
    s.panel.insertpanelicon(7).expect("room");
    s.panel.insertpanelicon(8).expect("room");
    // Press icon 1, release over icon 2: nothing fires.
    s.panelpress(71, 10);
    assert_eq!(substate_at(&s.panel, 1), Some(SubState::Pressed));
    let cmds = s.panelrelease(94, 10);
    assert!(cmds.is_empty());
    // Press icon 2 and release on it: its action fires.
    s.panelpress(94, 10);
    let cmds = s.panelrelease(94, 10);
    assert_eq!(cmds, vec![Command::LaunchIcon { icon: 8 }]);
}

#[test]
fn focus_scenario_restacks_beneath_panel() {
    // Two managed windows A (frame 101) and B (frame 102), both merely
    // visible; focusing A then B leaves only B focused and asks for a
    // stacking command for frame 102.
    let mut s = shell_with_two_windows();
    let c1 = s.focuswindow(1);
    assert_eq!(
        c1,
        vec![Command::Restack { frame: 101 }, Command::RedrawBorders]
    );
    assert_eq!(s.wm.getwindow(1).unwrap().vis, Visibility::VisibleFocused);
    assert_eq!(s.wm.getwindow(2).unwrap().vis, Visibility::VisibleUnfocused);
    let c2 = s.focuswindow(2);
    assert_eq!(
        c2,
        vec![Command::Restack { frame: 102 }, Command::RedrawBorders]
    );
    assert_eq!(s.wm.getwindow(1).unwrap().vis, Visibility::VisibleUnfocused);
    assert_eq!(s.wm.getwindow(2).unwrap().vis, Visibility::VisibleFocused);
}

#[test]
fn window_button_release_focuses_its_window() {
    let mut s = shell_with_two_windows();
    // Window 1's taskbar button sits first in the button region.
    let bx = s.panel.slots[s.panel.regions.wb_start].x;
    let cmds = s.panelrelease(bx + 80, 10);
    assert_eq!(
        cmds,
        vec![Command::Restack { frame: 101 }, Command::RedrawBorders]
    );
    assert_eq!(s.wm.getwindow(1).unwrap().vis, Visibility::VisibleFocused);
}

#[test]
fn outline_drag_commits_once_on_release() {
    // Press on frame 101's title bar at (100,100) while the window origin
    // is (50,50); two motions draw outlines but never move the window; the
    // release at (140,120) commits exactly one move to (90,70).
    let mut s = shell_with_two_windows();
    let pcmds = s.pressframe(101, 5, 100, 100);
    assert_eq!(
        pcmds,
        vec![Command::Restack { frame: 101 }, Command::RedrawBorders]
    );
    assert!(s.drag.is_some());

    let m1 = s.dragmotion(130, 115);
    assert!(m1.iter().all(|c| !matches!(c, Command::MoveWindow { .. })));
    // The first motion draws the outline at origin + delta, frame-sized.
    assert_eq!(
        m1,
        vec![Command::DrawOutline { x: 80, y: 65, width: 208, height: 126 }]
    );
    let m2 = s.dragmotion(135, 118);
    assert!(m2.iter().all(|c| !matches!(c, Command::MoveWindow { .. })));
    assert_eq!(m2.len(), 2); // erase the old outline, draw the new one

    let rcmds = s.dragrelease(140, 120);
    let moves: Vec<&Command> = rcmds
        .iter()
        .filter(|c| matches!(c, Command::MoveWindow { .. }))
        .collect();
    assert_eq!(moves.len(), 1);
    assert_eq!(*moves[0], Command::MoveWindow { frame: 101, x: 90, y: 70 });
    // The registry record follows the commit.
    let m = s.wm.getwindow(1).unwrap();
    assert_eq!((m.x, m.y), (90, 70));
    assert!(s.drag.is_none());
    assert!(s.outline.is_none());
}

#[test]
fn direct_drag_moves_on_every_motion() {
    let mut s = Shell::new(1024, 768, 0, 18, 4, false);
    s.handlemaprequest(1, false, 50, 50, 200, 100, b"alpha".to_vec());
    s.pressframe(1, 5, 100, 100);
    let m1 = s.dragmotion(110, 105);
    assert_eq!(m1, vec![Command::MoveWindow { frame: 1, x: 60, y: 55 }]);
}

#[test]
fn press_below_title_bar_starts_no_drag() {
    let mut s = shell_with_two_windows();
    s.pressframe(101, 30, 100, 100);
    assert!(s.drag.is_none());
}

#[test]
fn minimize_hides_and_rescues_a_neighbour() {
    let mut s = shell_with_two_windows();
    // Make window 2 merely visible, window 1 focused.
    s.focuswindow(1);
    // Window 1's frame is 200 wide plus borders: its hide zone spans
    // x in [208 - 54, 208 - 38) at y in 7..=21.
    let cmds = s.framerelease(101, 160, 10, 0, 0);
    assert_eq!(s.wm.getwindow(1).unwrap().vis, Visibility::HiddenTaskbar);
    // Window 2 was the taskbar neighbour and takes over.
    assert_eq!(s.wm.getwindow(2).unwrap().vis, Visibility::VisibleFocused);
    assert!(cmds.contains(&Command::UnmapWindow { id: 101 }));
    assert!(cmds.contains(&Command::UnmapWindow { id: 1 }));
    assert!(cmds.contains(&Command::Restack { frame: 102 }));
}

#[test]
fn destroy_removes_everywhere_and_frees_the_frame() {
    let mut s = shell_with_two_windows();
    let cmds = s.handledestroy(1);
    assert_eq!(cmds, vec![Command::DestroyFrame { frame: 101 }]);
    assert!(s.wm.getwindow(1).is_none());
    assert!(s.wm.getframe(101).is_none());
    // Its taskbar button is gone too; window 2's button remains.
    let buttons: Vec<u32> = s
        .panel
        .slots
        .iter()
        .filter_map(|sl| match sl.kind {
            SlotKind::WindowButton(w, _) => Some(w),
            _ => None,
        })
        .collect();
    assert_eq!(buttons, vec![2]);
    // Destroying again is already gone.
    let cmds = s.handledestroy(1);
    assert!(cmds.is_empty());
}

#[test]
fn map_request_skips_managed_and_override_redirect() {
    let mut s = shell_with_two_windows();
    assert!(s.handlemaprequest(1, false, 0, 0, 10, 10, b"again".to_vec()).is_empty());
    assert!(s.handlemaprequest(5, true, 0, 0, 10, 10, b"own".to_vec()).is_empty());
    assert_eq!(s.wm.windows.len(), 2);
}

#[test]
fn redraw_signal_is_taken_once() {
    let mut s = Shell::new(1024, 768, 0, 18, 4, true);
    // A fresh shell wants one full repaint.
    assert_eq!(s.takeredraw(), RedrawSignal::Full);
    assert_eq!(s.takeredraw(), RedrawSignal::Quiet);
    s.panel.insertpanelicon(7).expect("room");
    s.panelpress(71, 10);
    assert_eq!(s.takeredraw(), RedrawSignal::Region(RegionKind::QuickLaunch));
    assert_eq!(s.takeredraw(), RedrawSignal::Quiet);
}

#[test]
fn assignorders_numbers_the_registry() {
    let mut s = shell_with_two_windows();
    assert!(s.assignorders());
    let mut orders: Vec<u8> = s.wm.windows.iter().map(|m| m.order).collect();
    orders.sort();
    assert_eq!(orders, vec![1, 2]);
}

#[test]
fn framegeometry_wraps_and_clamps() {
    // A window at (50,50), 200x100, border 4, title bar 18.
    let (fx, fy, fw, fh) = framegeometry(50, 50, 200, 100, 1024, 768, 4, 18);
    assert_eq!((fw, fh), (208, 126));
    assert_eq!((fx, fy), (46, 36));
    // A window hugging the origin clamps to the screen edge.
    let (fx, fy, _, _) = framegeometry(0, 0, 200, 100, 1024, 768, 4, 18);
    assert_eq!((fx, fy), (0, 0));
    // A window past the right edge is pulled back on screen.
    let (fx, _, fw, _) = framegeometry(1000, 50, 200, 100, 1024, 768, 4, 18);
    assert_eq!(fx, 1024 - fw);
}

#[test]
fn framerelease_outside_hide_zone_commits_drag() {
    let mut s = shell_with_two_windows();
    s.pressframe(101, 5, 100, 100);
    assert!(s.drag.is_some());
    // The release lands outside the hide zone (y below the band), so the
    // drag is committed and nothing is minimized.
    let cmds = s.framerelease(101, 90, 70, 140, 120);
    assert!(s.drag.is_none());
    assert!(cmds.contains(&Command::MoveWindow { frame: 101, x: 90, y: 70 }));
    assert!(!cmds.iter().any(|c| matches!(c, Command::UnmapWindow { .. })));
    assert_eq!(s.wm.getwindow(1).unwrap().vis, Visibility::VisibleFocused);
}

#[test]
fn minimize_without_neighbour_only_hides() {
    let mut s = Shell::new(1024, 768, 0, 18, 4, true);
    s.handlemaprequest(1, false, 50, 50, 200, 100, b"alpha".to_vec());
    s.handleframecreated(1, 101);
    let cmds = s.minimizewindow(1);
    assert_eq!(
        cmds,
        vec![Command::UnmapWindow { id: 101 }, Command::UnmapWindow { id: 1 }]
    );
    assert_eq!(s.wm.getwindow(1).unwrap().vis, Visibility::HiddenTaskbar);
}
