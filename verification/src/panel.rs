//! The panel slot table: a capacity-bounded ordered sequence of widget
//! slots, partitioned into four contiguous regions — the start button, the
//! quick-launch icons, the window buttons and the notification tray — each
//! slot carrying its screen x-offset and width.
//!
//! Well-formedness pins the whole layout down: the start button sits at a
//! fixed place, icons are packed at a fixed width from a fixed base, window
//! buttons share one width and are spaced evenly behind the icons, and the
//! tray hangs off the right edge, moving right as icons are inserted.

use vstd::prelude::*;

verus! {

/// Hard bound on the number of slots the table may hold.
pub const CAPACITY: usize = 128;

/// Fixed width of a quick-launch icon slot, in pixels.
pub const ICON_WIDTH: i64 = 23;

/// Preferred width of a window button, in pixels.
pub const BUTTON_PREFERRED: i64 = 160;

/// Horizontal spacing between window buttons, and before the tray.
pub const SPACING: i64 = 3;

/// Screen x of the start button.
pub const START_X: i64 = 2;

/// Width of the start button.
pub const START_WIDTH: i64 = 54;

/// Screen x where the quick-launch region begins.
pub const QL_BASE: i64 = 60;

/// Visual sub-state of an interactive slot.
#[derive(Clone, Copy, PartialEq, Eq, Structural, Debug)]
pub enum SubState {
    /// Idle, drawn flat.
    Ready,
    /// The pointer rests on the slot.
    Hovered,
    /// A button is held down on the slot.
    Pressed,
    /// The slot's window holds the focus.
    Engaged,
}

/// What a slot is: its kind, its payload and its interactive sub-state.
#[derive(Clone, Copy, PartialEq, Eq, Structural, Debug)]
pub enum SlotKind {
    /// The start button.
    StartButton(SubState),
    /// A quick-launch icon; the payload names the icon entry it launches.
    QuickLaunchIcon(u32, SubState),
    /// A taskbar button; the payload is the client window it represents.
    WindowButton(u32, SubState),
    /// The notification tray.
    NotificationTray,
}

/// One slot of the panel: kind plus its (x, width) span.
#[derive(Clone, Copy, PartialEq, Eq, Structural, Debug)]
pub struct PanelSlot {
    /// Kind, payload and sub-state.
    pub kind: SlotKind,
    /// Screen x-offset of the slot.
    pub x: i64,
    /// Width of the slot in pixels.
    pub width: i64,
}

/// The five region boundaries of the table: where the quick-launch icons
/// start and end, where the window buttons start and end, and the tray's
/// index.  Regions are contiguous and never overlap.
#[derive(Clone, Copy, PartialEq, Eq, Structural, Debug)]
pub struct Regions {
    /// First quick-launch index.
    pub ql_start: usize,
    /// One past the last quick-launch index.
    pub ql_end: usize,
    /// First window-button index.
    pub wb_start: usize,
    /// One past the last window-button index.
    pub wb_end: usize,
    /// Index of the tray slot, always the last slot.
    pub tray: usize,
}

/// The kind of region a panel hit lands in.
#[derive(Clone, Copy, PartialEq, Eq, Structural, Debug)]
pub enum RegionKind {
    /// The quick-launch icon strip.
    QuickLaunch,
    /// The window-button strip.
    WindowButtons,
}

/// The panel slot table.
pub struct PanelTable {
    /// The slots, in screen order; the first is the start button, the last
    /// the tray.
    pub slots: Vec<PanelSlot>,
    /// The region boundaries.
    pub regions: Regions,
    /// The screen width the panel was laid out for; every slot stays left of
    /// it (give or take the tray drift as icons come and go).
    pub limit: i64,
}

impl PanelTable {
    /// Number of quick-launch icons.
    pub open spec fn icon_count(self) -> int {
        self.regions.ql_end - self.regions.ql_start
    }

    /// Number of window buttons.
    pub open spec fn wb_count(self) -> int {
        self.regions.wb_end - self.regions.wb_start
    }

    /// The uniform window-button width; the preferred width while the region
    /// is empty.
    pub open spec fn wbw(self) -> int {
        if self.wb_count() > 0 {
            self.slots@[self.regions.wb_start as int].width as int
        } else {
            BUTTON_PREFERRED as int
        }
    }

    /// Where a first window button would go: one spacing after the end of
    /// the slot before the region (the last icon, or the start button).
    pub open spec fn wb_base(self) -> int {
        self.slots@[self.regions.wb_start - 1].x + self.slots@[self.regions.wb_start - 1].width
            + SPACING
    }

    /// Where the window-button region starts: at its first button once it
    /// has one, else where a first button would go.
    pub open spec fn wb_first(self) -> int {
        if self.wb_count() > 0 {
            self.slots@[self.regions.wb_start as int].x as int
        } else {
            self.wb_base()
        }
    }

    /// The tray slot's x.
    pub open spec fn tray_x(self) -> int {
        self.slots@[self.regions.tray as int].x as int
    }

    /// The tray slot's width.
    pub open spec fn tray_width(self) -> int {
        self.slots@[self.regions.tray as int].width as int
    }

    /// The space available to the window-button region, from its start to
    /// the tray.
    pub open spec fn avail(self) -> int {
        self.tray_x() - self.wb_first()
    }

    /// Whether `c` window buttons at the preferred width, with their
    /// spacing, still fit in the space available before the tray.
    pub open spec fn wb_fit(self, c: int) -> bool {
        (BUTTON_PREFERRED + SPACING) * c <= self.avail()
    }

    /// The equal width every button receives when the region overflows:
    /// the available span split over the buttons, less the spacing.
    pub open spec fn rebalanced_width(self, c: int) -> int {
        self.avail() / c - SPACING
    }

    /// Region boundaries are monotone, contiguous, and the tray is last.
    pub open spec fn wf_regions(self) -> bool {
        let n = self.slots@.len();
        &&& 2 <= n <= CAPACITY
        &&& self.regions.ql_start == 1
        &&& self.regions.ql_start <= self.regions.ql_end
        &&& self.regions.ql_end == self.regions.wb_start
        &&& self.regions.wb_start <= self.regions.wb_end
        &&& self.regions.wb_end == self.regions.tray
        &&& self.regions.tray == n - 1
    }

    /// Each region holds slots of its own kind only.
    pub open spec fn wf_kinds(self) -> bool {
        &&& self.slots@[0].kind is StartButton
        &&& forall|i: int|
            self.regions.ql_start <= i < self.regions.ql_end ==> (
            #[trigger] self.slots@[i]).kind is QuickLaunchIcon
        &&& forall|i: int|
            self.regions.wb_start <= i < self.regions.wb_end ==> (
            #[trigger] self.slots@[i]).kind is WindowButton
        &&& self.slots@[self.regions.tray as int].kind is NotificationTray
    }

    /// The geometry of every slot, pinned down exactly: the start button is
    /// fixed; icons are packed 23 pixels wide from x 60; window buttons share
    /// one width of at least 1 and sit one spacing apart behind the icons;
    /// the tray hangs off the right edge, drifting right 23 pixels per icon;
    /// and the button region ends at or before the tray.
    pub open spec fn wf_geom(self) -> bool {
        &&& self.slots@[0].x == START_X && self.slots@[0].width == START_WIDTH
        &&& forall|i: int|
            self.regions.ql_start <= i < self.regions.ql_end ==> (#[trigger] self.slots@[i]).width
                == ICON_WIDTH && self.slots@[i].x == QL_BASE + ICON_WIDTH * (i
                - self.regions.ql_start)
        &&& forall|i: int|
            self.regions.wb_start <= i < self.regions.wb_end ==> (#[trigger] self.slots@[i]).width
                == self.wbw() && self.slots@[i].x == self.wb_first() + (self.wbw() + SPACING) * (i
                - self.regions.wb_start)
        &&& self.wbw() >= 1
        &&& self.wbw() <= 0x10000
        &&& 0 <= self.tray_width() <= 0x8000
        &&& QL_BASE + self.tray_width() + SPACING <= self.limit <= 0x8000
        &&& self.tray_x() == self.limit - self.tray_width() - SPACING + ICON_WIDTH
            * self.icon_count()
        &&& self.wb_count() >= 1 ==> QL_BASE - 1 + ICON_WIDTH * self.icon_count()
            <= self.wb_first() <= QL_BASE + SPACING + ICON_WIDTH * self.icon_count()
        &&& self.wb_count() >= 1 ==> self.wb_first() + (self.wbw() + SPACING) * self.wb_count()
            - SPACING <= self.tray_x()
        &&& self.wb_count() >= 1 && self.wb_fit(self.wb_count()) ==> self.wbw()
            == BUTTON_PREFERRED
    }

    /// Well-formedness of the whole table.
    pub open spec fn wf(self) -> bool {
        &&& self.wf_regions()
        &&& self.wf_kinds()
        &&& self.wf_geom()
    }

    /// A fresh panel for a screen `limit` pixels wide, holding the start
    /// button and a tray `trayw` pixels wide; both icon and button regions
    /// start out empty.
    pub fn new(limit: i64, trayw: i64) -> (t: Self)
        requires
            0 <= trayw <= 0x8000,
            QL_BASE + trayw + SPACING <= limit <= 0x8000,
        ensures
            t.wf(),
            t.icon_count() == 0,
            t.wb_count() == 0,
            t.limit == limit,
            t.tray_width() == trayw,
            t.slots@.len() == 2,
    {
        let mut slots: Vec<PanelSlot> = Vec::new();
        slots.push(
            PanelSlot { kind: SlotKind::StartButton(SubState::Ready), x: START_X, width: START_WIDTH },
        );
        slots.push(
            PanelSlot { kind: SlotKind::NotificationTray, x: limit - trayw - SPACING, width: trayw },
        );
        let regions = Regions { ql_start: 1, ql_end: 1, wb_start: 1, wb_end: 1, tray: 1 };
        PanelTable { slots, regions, limit }
    }

    /// Where a pixel position lands: the slot index and region of a
    /// quick-launch or window-button hit, or nothing.  The top two pixel rows
    /// belong to the panel's edge and never hit; within a region, the offset
    /// from the region's start is divided by the region's slot width plus
    /// one.
    pub open spec fn hit_spec(self, x: int, y: int) -> Option<(int, RegionKind)> {
        if y <= 2 {
            None
        } else if self.icon_count() > 0 && QL_BASE < x && x <= QL_BASE + ICON_WIDTH
            * self.icon_count() {
            Some(
                (
                    self.regions.ql_start + (x - QL_BASE) / (ICON_WIDTH + 1),
                    RegionKind::QuickLaunch,
                ),
            )
        } else if self.wb_count() > 0 && self.wb_first() < x && x < self.tray_x() && (x
            - self.wb_first()) / (self.wbw() + 1) < self.wb_count() {
            Some(
                (
                    self.regions.wb_start + (x - self.wb_first()) / (self.wbw() + 1),
                    RegionKind::WindowButtons,
                ),
            )
        } else {
            None
        }
    }

    /// Classifies a pointer position on the panel into the slot it hits.
    pub fn checkelement(&self, x: i64, y: i64) -> (r: Option<(usize, RegionKind)>)
        requires
            self.wf(),
        ensures
            match r {
                Some((idx, region)) => self.hit_spec(x as int, y as int) == Some(
                    (idx as int, region),
                ) && idx < self.slots@.len() && (match region {
                    RegionKind::QuickLaunch => self.regions.ql_start <= idx
                        < self.regions.ql_end,
                    RegionKind::WindowButtons => self.regions.wb_start <= idx
                        < self.regions.wb_end,
                }),
                None => self.hit_spec(x as int, y as int) is None,
            },
    {
        if y <= 2 {
            return None;
        }
        let rg = self.regions;
        if rg.ql_end > rg.ql_start {
            let linkstart = self.slots[rg.ql_start].x;
            let last = self.slots[rg.ql_end - 1];
            let linkend = last.x + last.width;
            proof {
                assert(linkstart == QL_BASE);
                assert(linkend == QL_BASE + ICON_WIDTH * self.icon_count()) by {
                    assert(self.slots@[rg.ql_end - 1].x == QL_BASE + ICON_WIDTH * (rg.ql_end - 1
                        - rg.ql_start));
                }
            }
            if linkstart < x && x <= linkend {
                let k = (x - linkstart) / (ICON_WIDTH + 1);
                proof {
                    let off = x - linkstart;
                    let c = self.icon_count();
                    assert(0 < off <= ICON_WIDTH * c);
                    assert(k == off / 24);
                    assert(off / 24 < c) by (nonlinear_arith)
                        requires
                            0 < off <= 23 * c,
                    ;
                    assert(0 <= k < c);
                }
                return Some((rg.ql_start + k as usize, RegionKind::QuickLaunch));
            }
        }
        if rg.wb_end > rg.wb_start {
            let windowx = self.slots[rg.wb_start].x;
            let notificationx = self.slots[rg.tray].x;
            let wbw = self.slots[rg.wb_start].width;
            proof {
                assert(windowx == self.wb_first());
                assert(notificationx == self.tray_x());
                assert(wbw == self.wbw());
            }
            if windowx < x && x < notificationx {
                let k = (x - windowx) / (wbw + 1);
                proof {
                    assert(0 <= k) by (nonlinear_arith)
                        requires
                            0 < x - windowx,
                            wbw >= 1,
                            k == (x - windowx) / (wbw + 1),
                    ;
                }
                if k < (rg.wb_end - rg.wb_start) as i64 {
                    return Some((rg.wb_start + k as usize, RegionKind::WindowButtons));
                } else {
                    return None;
                }
            }
        }
        proof {
            assert(self.hit_spec(x as int, y as int) is None);
        }
        None
    }
}

/// The width of the notification tray that holds `icons` tray icons: twenty
/// pixels per icon beside a fixed sixty-pixel block for the clock.
pub fn traywidth(icons: u8) -> (w: i64)
    ensures
        w == 20 * icons + 60,
{
    20 * (icons as i64) + 60
}

} // verus!
