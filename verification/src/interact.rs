//! Per-slot interaction state: the Ready/Hovered/Pressed/Engaged sub-state
//! machine of the quick-launch and window-button regions.  Setting one
//! slot's sub-state resets every other slot of the same region back to
//! Ready, as in a radio-button group, and reports which region needs a
//! redraw.

use vstd::prelude::*;
use crate::panel::{PanelSlot, PanelTable, RegionKind, SlotKind, SubState};

verus! {

/// The interactive sub-state a slot carries, if it has one.
pub open spec fn substate_of(k: SlotKind) -> Option<SubState> {
    match k {
        SlotKind::StartButton(s) => Some(s),
        SlotKind::QuickLaunchIcon(_, s) => Some(s),
        SlotKind::WindowButton(_, s) => Some(s),
        SlotKind::NotificationTray => None,
    }
}

/// The slot kind with its sub-state replaced, payload kept.
pub open spec fn with_substate(k: SlotKind, s: SubState) -> SlotKind {
    match k {
        SlotKind::StartButton(_) => SlotKind::StartButton(s),
        SlotKind::QuickLaunchIcon(icon, _) => SlotKind::QuickLaunchIcon(icon, s),
        SlotKind::WindowButton(w, _) => SlotKind::WindowButton(w, s),
        SlotKind::NotificationTray => SlotKind::NotificationTray,
    }
}

/// What requesting sub-state `new` for slot `target` of `region` does to
/// the table: nothing if the slot is already there; otherwise every other
/// slot of the region drops to Ready, the target takes `new`, and no slot's
/// place, width, payload or kind otherwise changes.
pub open spec fn element_updated(
    pre: PanelTable,
    post: PanelTable,
    target: int,
    region: RegionKind,
    new: SubState,
) -> bool {
    if substate_of(pre.slots@[target].kind) == Some(new) {
        post == pre
    } else {
        &&& post.regions == pre.regions
        &&& post.limit == pre.limit
        &&& post.slots@.len() == pre.slots@.len()
        &&& forall|i: int|
            0 <= i < pre.slots@.len() && !(pre.region_start(region) <= i < pre.region_end(region))
                ==> post.slots@[i] == pre.slots@[i]
        &&& forall|i: int|
            pre.region_start(region) <= i < pre.region_end(region) ==> (
            #[trigger] post.slots@[i]) == (PanelSlot {
                kind: with_substate(
                    pre.slots@[i].kind,
                    if i == target {
                        new
                    } else {
                        SubState::Ready
                    },
                ),
                ..pre.slots@[i]
            })
    }
}

impl PanelTable {
    /// First index of the given region.
    pub open spec fn region_start(self, region: RegionKind) -> int {
        match region {
            RegionKind::QuickLaunch => self.regions.ql_start as int,
            RegionKind::WindowButtons => self.regions.wb_start as int,
        }
    }

    /// One past the last index of the given region.
    pub open spec fn region_end(self, region: RegionKind) -> int {
        match region {
            RegionKind::QuickLaunch => self.regions.ql_end as int,
            RegionKind::WindowButtons => self.regions.wb_end as int,
        }
    }

    /// Requests sub-state `new` for the slot at `target` in `region`.  If
    /// the slot is already there, nothing happens.  Otherwise every other
    /// slot of the region drops back to Ready, the target takes the
    /// requested sub-state, and the changed region is reported so that one
    /// redraw can follow.
    pub fn updateelement(&mut self, target: usize, region: RegionKind, new: SubState) -> (r:
        Option<RegionKind>)
        requires
            old(self).wf(),
            old(self).region_start(region) <= target < old(self).region_end(region),
        ensures
            final(self).wf(),
            final(self).regions == old(self).regions,
            final(self).limit == old(self).limit,
            final(self).slots@.len() == old(self).slots@.len(),
            element_updated(*old(self), *final(self), target as int, region, new),
            r is None <==> substate_of(old(self).slots@[target as int].kind) == Some(new),
            match r {
                None => *final(self) == *old(self),
                Some(rr) => rr == region,
            },
    {
        let ghost pre = *self;
        let (start, end) = match region {
            RegionKind::QuickLaunch => (self.regions.ql_start, self.regions.ql_end),
            RegionKind::WindowButtons => (self.regions.wb_start, self.regions.wb_end),
        };
        let current = match self.slots[target].kind {
            SlotKind::StartButton(s) => Some(s),
            SlotKind::QuickLaunchIcon(_, s) => Some(s),
            SlotKind::WindowButton(_, s) => Some(s),
            SlotKind::NotificationTray => None,
        };
        if current == Some(new) {
            return None;
        }
        let mut i: usize = start;
        while i < end
            invariant
                pre.wf(),
                start == pre.region_start(region),
                end == pre.region_end(region),
                start <= i <= end,
                end <= pre.slots@.len(),
                self.regions == pre.regions,
                self.limit == pre.limit,
                self.slots@.len() == pre.slots@.len(),
                start <= target < end,
                forall|j: int|
                    0 <= j < pre.slots@.len() && !(start <= j < i) ==> self.slots@[j]
                        == pre.slots@[j],
                forall|j: int|
                    start <= j < i ==> (#[trigger] self.slots@[j]) == (PanelSlot {
                        kind: with_substate(
                            pre.slots@[j].kind,
                            if j == target {
                                new
                            } else {
                                SubState::Ready
                            },
                        ),
                        ..pre.slots@[j]
                    }),
            decreases end - i,
        {
            let want = if i == target {
                new
            } else {
                SubState::Ready
            };
            let mut s = self.slots[i];
            s.kind = match s.kind {
                SlotKind::StartButton(_) => SlotKind::StartButton(want),
                SlotKind::QuickLaunchIcon(icon, _) => SlotKind::QuickLaunchIcon(icon, want),
                SlotKind::WindowButton(w, _) => SlotKind::WindowButton(w, want),
                SlotKind::NotificationTray => SlotKind::NotificationTray,
            };
            self.slots.set(i, s);
            i = i + 1;
        }
        proof {
            assert(self.wf()) by {
                assert(self.wf_regions());
                assert(self.icon_count() == pre.icon_count());
                assert(self.wb_count() == pre.wb_count());
                assert forall|j: int| 0 <= j < self.slots@.len() implies (#[trigger] self
                    .slots@[j]).x == pre.slots@[j].x && self.slots@[j].width
                    == pre.slots@[j].width by {}
                assert(self.slots@[0].kind is StartButton) by {
                    if start <= 0 < end {
                    } else {
                        assert(self.slots@[0] == pre.slots@[0]);
                    }
                }
                assert forall|j: int|
                    self.regions.ql_start <= j < self.regions.ql_end implies (
                #[trigger] self.slots@[j]).kind is QuickLaunchIcon by {
                    if !(start <= j < end) {
                        assert(self.slots@[j] == pre.slots@[j]);
                    }
                }
                assert forall|j: int|
                    self.regions.wb_start <= j < self.regions.wb_end implies (
                #[trigger] self.slots@[j]).kind is WindowButton by {
                    if !(start <= j < end) {
                        assert(self.slots@[j] == pre.slots@[j]);
                    }
                }
                assert(self.slots@[self.regions.tray as int].kind is NotificationTray) by {
                    if !(start <= self.regions.tray < end) {
                        assert(self.slots@[self.regions.tray as int]
                            == pre.slots@[self.regions.tray as int]);
                    }
                }
                assert(self.tray_x() == pre.tray_x());
                assert(self.tray_width() == pre.tray_width());
                if self.wb_count() > 0 {
                    assert(self.wbw() == pre.wbw());
                    assert(self.wb_first() == pre.wb_first());
                }
                assert(self.wb_base() == pre.wb_base());
                assert(self.wf_geom());
            }
        }
        Some(region)
    }
}

} // verus!
