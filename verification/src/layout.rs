//! Insertion and removal of panel slots: quick-launch icons enter at the end
//! of their region and push everything to their right one index over and one
//! icon-width further; window buttons enter at the end of theirs and either
//! take the preferred width or force the whole region onto an equal share of
//! the space left before the tray.  Removal is the structural inverse.

use vstd::prelude::*;
use crate::panel::{
    PanelSlot, PanelTable, RegionKind, Regions, SlotKind, SubState, BUTTON_PREFERRED, CAPACITY, ICON_WIDTH,
    QL_BASE, SPACING, START_WIDTH, START_X,
};

verus! {

/// Why a panel insertion was refused.
#[derive(Clone, Copy, PartialEq, Eq, Structural, Debug)]
pub enum PanelError {
    /// The table cannot take another slot: it is at capacity, or the window
    /// buttons can no longer all receive a positive width.
    SlotTableFull,
}

/// A slot moved one icon-width to the right.
pub open spec fn shifted(s: PanelSlot) -> PanelSlot {
    PanelSlot { x: (s.x + ICON_WIDTH) as i64, ..s }
}

impl PanelTable {
    /// Every slot of a well-formed table sits at a nonnegative x and ends
    /// well below 2^24.
    pub proof fn lemma_slot_bounds(self)
        requires
            self.wf(),
        ensures
            forall|i: int|
                0 <= i < self.slots@.len() ==> 0 <= (#[trigger] self.slots@[i]).x
                    && self.slots@[i].x + self.slots@[i].width <= 0x100_0000,
    {
        let rg = self.regions;
        assert forall|i: int| 0 <= i < self.slots@.len() implies 0 <= (
        #[trigger] self.slots@[i]).x && self.slots@[i].x + self.slots@[i].width
            <= 0x100_0000 by {
            if i == 0 {
            } else if rg.ql_start <= i < rg.ql_end {
                assert(self.slots@[i].x == QL_BASE + ICON_WIDTH * (i - rg.ql_start));
                assert(0 <= ICON_WIDTH * (i - rg.ql_start) <= ICON_WIDTH * CAPACITY)
                    by (nonlinear_arith)
                    requires
                        0 <= i - rg.ql_start <= CAPACITY,
                ;
            } else if rg.wb_start <= i < rg.wb_end {
                assert(self.slots@[i].x == self.wb_first() + (self.wbw() + SPACING) * (i
                    - rg.wb_start));
                assert(0 <= (self.wbw() + SPACING) * (i - rg.wb_start) <= (self.wbw() + SPACING)
                    * CAPACITY) by (nonlinear_arith)
                    requires
                        0 <= i - rg.wb_start <= CAPACITY,
                        1 <= self.wbw() <= 0x10000,
                ;
                assert((self.wbw() + SPACING) * CAPACITY <= (0x10000 + SPACING) * CAPACITY)
                    by (nonlinear_arith)
                    requires
                        1 <= self.wbw() <= 0x10000,
                ;
            } else {
                assert(i == rg.tray);
                assert(0 <= ICON_WIDTH * self.icon_count() <= ICON_WIDTH * CAPACITY)
                    by (nonlinear_arith)
                    requires
                        0 <= self.icon_count() <= CAPACITY,
                ;
            }
        }
    }

    /// What appending the quick-launch icon `icon` does to the table: the
    /// new slot enters at the old end of the icon region, and every slot at
    /// or after that point — the window buttons and the tray — moves one
    /// table index to the right and one icon-width (23 pixels) further
    /// right on screen.
    pub open spec fn icon_inserted(pre: PanelTable, post: PanelTable, icon: u32, idx: int) -> bool {
        &&& idx == pre.regions.ql_end
        &&& post.regions == (Regions {
            ql_start: pre.regions.ql_start,
            ql_end: (pre.regions.ql_end + 1) as usize,
            wb_start: (pre.regions.wb_start + 1) as usize,
            wb_end: (pre.regions.wb_end + 1) as usize,
            tray: (pre.regions.tray + 1) as usize,
        })
        &&& post.slots@.len() == pre.slots@.len() + 1
        &&& post.limit == pre.limit
        &&& forall|j: int| 0 <= j < idx ==> post.slots@[j] == pre.slots@[j]
        &&& post.slots@[idx] == (PanelSlot {
            kind: SlotKind::QuickLaunchIcon(icon, SubState::Ready),
            x: (QL_BASE + ICON_WIDTH * pre.icon_count()) as i64,
            width: ICON_WIDTH,
        })
        &&& forall|j: int|
            idx < j < post.slots@.len() ==> post.slots@[j] == shifted(pre.slots@[j - 1])
    }

    /// Appends a quick-launch icon at the end of the icon region.  Every slot
    /// at or after the insertion point — the window buttons and the tray —
    /// moves one table index to the right and one icon-width (23 pixels)
    /// further right on screen.  A full table refuses the insertion and
    /// changes nothing.
    pub fn insertpanelicon(&mut self, icon: u32) -> (r: Result<usize, PanelError>)
        requires
            old(self).wf(),
        ensures
            final(self).wf(),
            final(self).limit == old(self).limit,
            match r {
                Err(e) => {
                    &&& e == PanelError::SlotTableFull
                    &&& old(self).slots@.len() == CAPACITY
                    &&& *final(self) == *old(self)
                },
                Ok(idx) => {
                    &&& old(self).slots@.len() < CAPACITY
                    &&& PanelTable::icon_inserted(*old(self), *final(self), icon, idx as int)
                },
            },
    {
        let ghost pre = *self;
        let n = self.slots.len();
        if n >= CAPACITY {
            return Err(PanelError::SlotTableFull);
        }
        proof {
            pre.lemma_slot_bounds();
        }
        let rg = self.regions;
        let count: i64 = (rg.ql_end - rg.ql_start) as i64;
        let newx: i64 = QL_BASE + ICON_WIDTH * count;
        let idx = rg.ql_end;
        self.slots.insert(
            idx,
            PanelSlot { kind: SlotKind::QuickLaunchIcon(icon, SubState::Ready), x: newx, width: ICON_WIDTH },
        );
        let mut j: usize = idx + 1;
        while j < self.slots.len()
            invariant
                pre.wf(),
                forall|i: int|
                    0 <= i < pre.slots@.len() ==> 0 <= (#[trigger] pre.slots@[i]).x
                        && pre.slots@[i].x + pre.slots@[i].width <= 0x100_0000,
                self.regions == pre.regions,
                self.limit == pre.limit,
                idx == pre.regions.ql_end,
                idx < j <= self.slots@.len(),
                self.slots@.len() == pre.slots@.len() + 1,
                forall|i: int| 0 <= i < idx ==> self.slots@[i] == pre.slots@[i],
                self.slots@[idx as int] == (PanelSlot {
                    kind: SlotKind::QuickLaunchIcon(icon, SubState::Ready),
                    x: (QL_BASE + ICON_WIDTH * pre.icon_count()) as i64,
                    width: ICON_WIDTH,
                }),
                forall|i: int| idx < i < j ==> self.slots@[i] == shifted(pre.slots@[i - 1]),
                forall|i: int|
                    j <= i < self.slots@.len() ==> self.slots@[i] == pre.slots@[i - 1],
            decreases self.slots@.len() - j,
        {
            let mut s = self.slots[j];
            s.x = s.x + ICON_WIDTH;
            self.slots.set(j, s);
            j = j + 1;
        }
        let newregions = Regions {
            ql_start: rg.ql_start,
            ql_end: rg.ql_end + 1,
            wb_start: rg.wb_start + 1,
            wb_end: rg.wb_end + 1,
            tray: rg.tray + 1,
        };
        self.regions = newregions;
        proof {
            self.lemma_wf_after_icon_insert(pre, icon);
        }
        Ok(idx)
    }

    /// A table that results from appending one icon and shifting what
    /// follows is well-formed again.
    proof fn lemma_wf_after_icon_insert(self, pre: PanelTable, icon: u32)
        requires
            pre.wf(),
            pre.slots@.len() < CAPACITY,
            self.limit == pre.limit,
            self.regions == (Regions {
                ql_start: pre.regions.ql_start,
                ql_end: (pre.regions.ql_end + 1) as usize,
                wb_start: (pre.regions.wb_start + 1) as usize,
                wb_end: (pre.regions.wb_end + 1) as usize,
                tray: (pre.regions.tray + 1) as usize,
            }),
            self.slots@.len() == pre.slots@.len() + 1,
            forall|j: int| 0 <= j < pre.regions.ql_end ==> self.slots@[j] == pre.slots@[j],
            self.slots@[pre.regions.ql_end as int] == (PanelSlot {
                kind: SlotKind::QuickLaunchIcon(icon, SubState::Ready),
                x: (QL_BASE + ICON_WIDTH * pre.icon_count()) as i64,
                width: ICON_WIDTH,
            }),
            forall|j: int|
                pre.regions.ql_end < j < self.slots@.len() ==> self.slots@[j] == shifted(
                    pre.slots@[j - 1],
                ),
        ensures
            self.wf(),
    {
        let idx = pre.regions.ql_end as int;
        pre.lemma_slot_bounds();
        assert(self.wf_regions());
        assert(self.wf_kinds());
        assert(self.icon_count() == pre.icon_count() + 1);
        assert(self.wb_count() == pre.wb_count());
        assert(self.tray_x() == pre.tray_x() + ICON_WIDTH);
        assert(self.tray_width() == pre.tray_width());
        if pre.wb_count() > 0 {
            assert(self.slots@[self.regions.wb_start as int] == shifted(
                pre.slots@[pre.regions.wb_start as int],
            ));
            assert(self.wbw() == pre.wbw());
            assert(self.wb_first() == pre.wb_first() + ICON_WIDTH);
        }
        assert forall|i: int|
            self.regions.ql_start <= i < self.regions.ql_end implies (
        #[trigger] self.slots@[i]).width == ICON_WIDTH && self.slots@[i].x == QL_BASE
            + ICON_WIDTH * (i - self.regions.ql_start) by {
            if i < idx {
                assert(self.slots@[i] == pre.slots@[i]);
            }
        }
        assert forall|i: int|
            self.regions.wb_start <= i < self.regions.wb_end implies (
        #[trigger] self.slots@[i]).width == self.wbw() && self.slots@[i].x == self.wb_first() + (
        self.wbw() + SPACING) * (i - self.regions.wb_start) by {
            assert(self.slots@[i] == shifted(pre.slots@[i - 1]));
            assert(pre.slots@[i - 1].x == pre.wb_first() + (pre.wbw() + SPACING) * (i - 1
                - pre.regions.wb_start));
            assert(i - 1 - pre.regions.wb_start == i - self.regions.wb_start);
        }
        assert(self.wf_geom());
    }
}

impl PanelTable {
    /// What appending a window button for `window` does to the table: the
    /// new slot enters at the old end of the button region with the tray
    /// shifted one index (its place on screen kept), the earlier buttons
    /// keep their kinds in order, and the whole region carries the width
    /// the fit-or-rebalance rule assigns.
    pub open spec fn button_inserted(pre: PanelTable, post: PanelTable, window: u32, idx: int) -> bool {
        &&& idx == pre.regions.wb_end
        &&& post.regions == (Regions {
            ql_start: pre.regions.ql_start,
            ql_end: pre.regions.ql_end,
            wb_start: pre.regions.wb_start,
            wb_end: (pre.regions.wb_end + 1) as usize,
            tray: (pre.regions.tray + 1) as usize,
        })
        &&& post.slots@.len() == pre.slots@.len() + 1
        &&& post.limit == pre.limit
        &&& forall|j: int| 0 <= j < pre.regions.wb_start ==> post.slots@[j] == pre.slots@[j]
        &&& forall|j: int|
            pre.regions.wb_start <= j < pre.regions.wb_end ==> (#[trigger] post.slots@[j]).kind
                == pre.slots@[j].kind
        &&& post.slots@[idx].kind == SlotKind::WindowButton(window, SubState::Ready)
        &&& post.slots@[post.regions.tray as int] == pre.slots@[pre.regions.tray as int]
        &&& post.wb_first() == pre.wb_first()
        &&& post.wbw() == (if pre.wb_fit(pre.wb_count() + 1) {
            BUTTON_PREFERRED as int
        } else {
            pre.rebalanced_width(pre.wb_count() + 1)
        })
    }

    /// Appends a window button for `window` at the end of the button region.
    /// If the region, from its start to the tray, still fits every button at
    /// the preferred width with its spacing, the new button takes the
    /// preferred width; otherwise the whole region is re-laid from its start
    /// with every button on an equal share, `floor(space / count) - 3`.  The
    /// insertion is refused when the table is at capacity or when that share
    /// would leave no positive width.
    pub fn insertpanelwindow(&mut self, window: u32) -> (r: Result<usize, PanelError>)
        requires
            old(self).wf(),
        ensures
            final(self).wf(),
            final(self).limit == old(self).limit,
            match r {
                Err(e) => {
                    &&& e == PanelError::SlotTableFull
                    &&& (old(self).slots@.len() == CAPACITY || (!old(self).wb_fit(
                        old(self).wb_count() + 1,
                    ) && old(self).avail() < 4 * (old(self).wb_count() + 1)))
                    &&& *final(self) == *old(self)
                },
                Ok(idx) => {
                    &&& old(self).slots@.len() < CAPACITY
                    &&& (old(self).wb_fit(old(self).wb_count() + 1) || old(self).avail() >= 4 * (
                    old(self).wb_count() + 1))
                    &&& PanelTable::button_inserted(*old(self), *final(self), window, idx as int)
                },
            },
    {
        let ghost pre = *self;
        let n = self.slots.len();
        if n >= CAPACITY {
            return Err(PanelError::SlotTableFull);
        }
        proof {
            pre.lemma_slot_bounds();
        }
        let rg = self.regions;
        let ghost c = pre.wb_count() + 1;
        proof {
            assert(rg.wb_start <= rg.wb_end <= CAPACITY);
        }
        let cnew: i64 = (rg.wb_end - rg.wb_start) as i64 + 1;
        proof {
            assert(1 <= cnew <= 129);
        }
        let first: i64 = if rg.wb_end > rg.wb_start {
            self.slots[rg.wb_start].x
        } else {
            let prev = self.slots[rg.wb_start - 1];
            prev.x + prev.width + SPACING
        };
        let trayx = self.slots[rg.tray].x;
        let avail: i64 = trayx - first;
        proof {
            assert(first == pre.wb_first());
            assert(avail == pre.avail());
        }
        proof {
            assert(0 <= (BUTTON_PREFERRED + SPACING) * cnew <= 163 * 129) by (nonlinear_arith)
                requires
                    1 <= cnew <= 129,
            ;
        }
        let neww: i64;
        if (BUTTON_PREFERRED + SPACING) * cnew <= avail {
            neww = BUTTON_PREFERRED;
            proof {
                assert(pre.wb_fit(c));
            }
        } else if avail >= 4 * cnew {
            let q = avail / cnew;
            proof {
                assert(q == avail as int / c) by {
                    assert(avail >= 0);
                }
                assert(q >= 4) by (nonlinear_arith)
                    requires
                        avail >= 4 * c,
                        c >= 1,
                        q == avail as int / c,
                ;
                assert(q <= avail) by (nonlinear_arith)
                    requires
                        avail >= 0,
                        c >= 1,
                        q == avail as int / c,
                ;
                assert(avail <= 0x10000) by {
                    assert(pre.tray_x() <= pre.limit - pre.tray_width() - SPACING + ICON_WIDTH
                        * CAPACITY);
                    assert(ICON_WIDTH * pre.icon_count() <= ICON_WIDTH * CAPACITY);
                    assert(pre.wb_first() >= 0) by {
                        if pre.wb_count() > 0 {
                        } else {
                            assert(0 <= pre.slots@[pre.regions.wb_start - 1].x);
                        }
                    }
                }
            }
            neww = q - SPACING;
            proof {
                assert(neww == pre.rebalanced_width(c));
                assert(!pre.wb_fit(c));
                assert(1 <= neww <= 0x10000);
            }
        } else {
            proof {
                assert(!pre.wb_fit(c));
            }
            return Err(PanelError::SlotTableFull);
        }
        let idx = rg.wb_end;
        self.slots.insert(
            idx,
            PanelSlot { kind: SlotKind::WindowButton(window, SubState::Ready), x: 0, width: neww },
        );
        let mut xcur: i64 = first;
        let mut j: usize = rg.wb_start;
        proof {
            assert(xcur == first + (neww + SPACING) * (j - pre.regions.wb_start))
                by (nonlinear_arith)
                requires
                    xcur == first,
                    j == pre.regions.wb_start,
            ;
        }
        while j < idx + 1
            invariant
                pre.wf(),
                forall|i: int|
                    0 <= i < pre.slots@.len() ==> 0 <= (#[trigger] pre.slots@[i]).x
                        && pre.slots@[i].x + pre.slots@[i].width <= 0x100_0000,
                self.regions == pre.regions,
                self.limit == pre.limit,
                idx == pre.regions.wb_end,
                rg == pre.regions,
                pre.regions.wb_start <= j <= idx + 1 <= self.slots@.len(),
                self.slots@.len() == pre.slots@.len() + 1,
                first == pre.wb_first(),
                0 <= first <= 0x100_0000,
                1 <= neww <= 0x10000,
                xcur == first + (neww + SPACING) * (j - pre.regions.wb_start),
                forall|i: int| 0 <= i < pre.regions.wb_start ==> self.slots@[i] == pre.slots@[i],
                forall|i: int|
                    pre.regions.wb_start <= i < j ==> (#[trigger] self.slots@[i]).kind == (if i
                        < idx {
                        pre.slots@[i].kind
                    } else {
                        SlotKind::WindowButton(window, SubState::Ready)
                    }) && self.slots@[i].x == first + (neww + SPACING) * (i
                        - pre.regions.wb_start) && self.slots@[i].width == neww,
                forall|i: int|
                    j <= i < idx ==> (#[trigger] self.slots@[i]) == pre.slots@[i],
                j <= idx ==> (#[trigger] self.slots@[idx as int]).kind == SlotKind::WindowButton(
                    window,
                    SubState::Ready,
                ) && self.slots@[idx as int].width == neww,
                forall|i: int|
                    idx < i < self.slots@.len() ==> (#[trigger] self.slots@[i])
                        == pre.slots@[i - 1],
            decreases idx + 1 - j,
        {
            proof {
                assert((neww + SPACING) * (j - pre.regions.wb_start) <= (0x10000 + SPACING)
                    * CAPACITY) by (nonlinear_arith)
                    requires
                        1 <= neww <= 0x10000,
                        0 <= j - pre.regions.wb_start <= CAPACITY,
                ;
                assert((neww + SPACING) * (j + 1 - pre.regions.wb_start) == (neww + SPACING) * (j
                    - pre.regions.wb_start) + (neww + SPACING)) by (nonlinear_arith)
                ;
            }
            let mut s = self.slots[j];
            s.x = xcur;
            s.width = neww;
            self.slots.set(j, s);
            xcur = xcur + neww + SPACING;
            j = j + 1;
        }
        self.regions = Regions {
            ql_start: rg.ql_start,
            ql_end: rg.ql_end,
            wb_start: rg.wb_start,
            wb_end: rg.wb_end + 1,
            tray: rg.tray + 1,
        };
        proof {
            self.lemma_wf_after_button_insert(pre, window, neww as int);
        }
        Ok(idx)
    }

    /// A table that results from appending one button and re-laying the
    /// button region at width `neww` is well-formed again.
    proof fn lemma_wf_after_button_insert(self, pre: PanelTable, window: u32, neww: int)
        requires
            pre.wf(),
            pre.slots@.len() < CAPACITY,
            self.limit == pre.limit,
            self.regions == (Regions {
                ql_start: pre.regions.ql_start,
                ql_end: pre.regions.ql_end,
                wb_start: pre.regions.wb_start,
                wb_end: (pre.regions.wb_end + 1) as usize,
                tray: (pre.regions.tray + 1) as usize,
            }),
            self.slots@.len() == pre.slots@.len() + 1,
            1 <= neww <= 0x10000,
            neww == (if pre.wb_fit(pre.wb_count() + 1) {
                BUTTON_PREFERRED as int
            } else {
                pre.rebalanced_width(pre.wb_count() + 1)
            }),
            pre.wb_fit(pre.wb_count() + 1) || pre.avail() >= 4 * (pre.wb_count() + 1),
            forall|i: int| 0 <= i < pre.regions.wb_start ==> self.slots@[i] == pre.slots@[i],
            forall|i: int|
                pre.regions.wb_start <= i <= pre.regions.wb_end ==> (
                #[trigger] self.slots@[i]).kind == (if i < pre.regions.wb_end {
                    pre.slots@[i].kind
                } else {
                    SlotKind::WindowButton(window, SubState::Ready)
                }) && self.slots@[i].x == pre.wb_first() + (neww + SPACING) * (i
                    - pre.regions.wb_start) && self.slots@[i].width == neww,
            forall|i: int|
                pre.regions.wb_end < i < self.slots@.len() ==> (#[trigger] self.slots@[i])
                    == pre.slots@[i - 1],
        ensures
            self.wf(),
            self.wb_first() == pre.wb_first(),
            self.wbw() == neww,
            self.slots@[self.regions.tray as int] == pre.slots@[pre.regions.tray as int],
    {
        let c = pre.wb_count() + 1;
        let ws = pre.regions.wb_start as int;
        pre.lemma_slot_bounds();
        assert(self.wf_regions());
        assert(self.slots@[self.regions.tray as int] == pre.slots@[pre.regions.tray as int]);
        assert(self.icon_count() == pre.icon_count());
        assert(self.wb_count() == c);
        assert(self.tray_x() == pre.tray_x());
        assert(self.tray_width() == pre.tray_width());
        assert(self.slots@[ws].width == neww);
        assert(self.wbw() == neww);
        assert(self.slots@[ws].x == pre.wb_first() + (neww + SPACING) * 0);
        assert(self.wb_first() == pre.wb_first());
        assert(self.wf_kinds()) by {
            assert(self.slots@[0].kind is StartButton) by {
                if ws == 0 {
                } else {
                    assert(self.slots@[0] == pre.slots@[0]);
                }
            }
        }
        assert(pre.wb_first() >= 0) by {
            if pre.wb_count() > 0 {
            } else {
                assert(0 <= pre.slots@[ws - 1].x);
            }
        }
        assert(self.wb_count() >= 1 ==> QL_BASE - 1 + ICON_WIDTH * self.icon_count()
            <= self.wb_first() <= QL_BASE + SPACING + ICON_WIDTH * self.icon_count()) by {
            if pre.wb_count() == 0 {
                if pre.icon_count() > 0 {
                    assert(pre.slots@[ws - 1].x == QL_BASE + ICON_WIDTH * (ws - 1
                        - pre.regions.ql_start));
                    assert(pre.slots@[ws - 1].width == ICON_WIDTH);
                } else {
                    assert(ws == 1);
                    assert(pre.slots@[0].x == START_X && pre.slots@[0].width == START_WIDTH);
                }
            }
        }
        assert(self.wb_first() + (self.wbw() + SPACING) * self.wb_count() - SPACING
            <= self.tray_x()) by {
            if pre.wb_fit(c) {
                assert((BUTTON_PREFERRED + SPACING) * c <= pre.avail());
            } else {
                assert(neww + SPACING == pre.avail() / c);
                assert((pre.avail() / c) * c <= pre.avail()) by (nonlinear_arith)
                    requires
                        pre.avail() >= 0,
                        c >= 1,
                ;
            }
        }
        assert(self.wb_count() >= 1 && self.wb_fit(self.wb_count()) ==> self.wbw()
            == BUTTON_PREFERRED) by {
            assert(self.avail() == pre.avail());
        }
        assert(self.wf_geom());
    }
}

/// The client a window-button slot stands for, if the slot is one.
pub open spec fn button_client(k: SlotKind) -> Option<u32> {
    match k {
        SlotKind::WindowButton(w, _) => Some(w),
        _ => None,
    }
}

/// A slot moved one icon-width back to the left.
pub open spec fn unshifted(s: PanelSlot) -> PanelSlot {
    PanelSlot { x: (s.x - ICON_WIDTH) as i64, ..s }
}

impl PanelTable {
    /// True when some window button stands for `window`.
    pub open spec fn has_button(self, window: u32) -> bool {
        exists|i: int|
            self.regions.wb_start <= i < self.regions.wb_end && button_client(
                (#[trigger] self.slots@[i]).kind,
            ) == Some(window)
    }

    /// Removes the quick-launch icon at table index `idx`: every later slot
    /// moves one index left and one icon-width (23 pixels) back, the tray
    /// with it.  An index outside the icon region changes nothing.
    pub fn removepanelicon(&mut self, idx: usize) -> (ok: bool)
        requires
            old(self).wf(),
        ensures
            final(self).wf(),
            final(self).limit == old(self).limit,
            ok == (old(self).regions.ql_start <= idx < old(self).regions.ql_end),
            !ok ==> *final(self) == *old(self),
            ok ==> {
                &&& final(self).regions == (Regions {
                    ql_start: old(self).regions.ql_start,
                    ql_end: (old(self).regions.ql_end - 1) as usize,
                    wb_start: (old(self).regions.wb_start - 1) as usize,
                    wb_end: (old(self).regions.wb_end - 1) as usize,
                    tray: (old(self).regions.tray - 1) as usize,
                })
                &&& final(self).slots@.len() == old(self).slots@.len() - 1
                &&& forall|j: int| 0 <= j < idx ==> final(self).slots@[j] == old(self).slots@[j]
                &&& forall|j: int|
                    idx <= j < final(self).slots@.len() ==> final(self).slots@[j] == unshifted(
                        old(self).slots@[j + 1],
                    )
            },
    {
        let ghost pre = *self;
        let rg = self.regions;
        if !(rg.ql_start <= idx && idx < rg.ql_end) {
            return false;
        }
        proof {
            pre.lemma_slot_bounds();
        }
        self.slots.remove(idx);
        let mut j: usize = idx;
        while j < self.slots.len()
            invariant
                pre.wf(),
                forall|i: int|
                    0 <= i < pre.slots@.len() ==> 0 <= (#[trigger] pre.slots@[i]).x
                        && pre.slots@[i].x + pre.slots@[i].width <= 0x100_0000,
                self.regions == pre.regions,
                self.limit == pre.limit,
                pre.regions.ql_start <= idx < pre.regions.ql_end,
                idx <= j <= self.slots@.len(),
                self.slots@.len() == pre.slots@.len() - 1,
                forall|i: int| 0 <= i < idx ==> self.slots@[i] == pre.slots@[i],
                forall|i: int| idx <= i < j ==> self.slots@[i] == unshifted(pre.slots@[i + 1]),
                forall|i: int|
                    j <= i < self.slots@.len() ==> self.slots@[i] == pre.slots@[i + 1],
            decreases self.slots@.len() - j,
        {
            let mut s = self.slots[j];
            s.x = s.x - ICON_WIDTH;
            self.slots.set(j, s);
            j = j + 1;
        }
        self.regions = Regions {
            ql_start: rg.ql_start,
            ql_end: rg.ql_end - 1,
            wb_start: rg.wb_start - 1,
            wb_end: rg.wb_end - 1,
            tray: rg.tray - 1,
        };
        proof {
            self.lemma_wf_after_icon_remove(pre, idx as int);
        }
        true
    }

    /// A table that results from dropping one icon and pulling what followed
    /// back is well-formed again.
    proof fn lemma_wf_after_icon_remove(self, pre: PanelTable, idx: int)
        requires
            pre.wf(),
            pre.regions.ql_start <= idx < pre.regions.ql_end,
            self.limit == pre.limit,
            self.regions == (Regions {
                ql_start: pre.regions.ql_start,
                ql_end: (pre.regions.ql_end - 1) as usize,
                wb_start: (pre.regions.wb_start - 1) as usize,
                wb_end: (pre.regions.wb_end - 1) as usize,
                tray: (pre.regions.tray - 1) as usize,
            }),
            self.slots@.len() == pre.slots@.len() - 1,
            forall|j: int| 0 <= j < idx ==> self.slots@[j] == pre.slots@[j],
            forall|j: int|
                idx <= j < self.slots@.len() ==> self.slots@[j] == unshifted(pre.slots@[j + 1]),
        ensures
            self.wf(),
    {
        pre.lemma_slot_bounds();
        assert(self.wf_regions());
        assert(self.icon_count() == pre.icon_count() - 1);
        assert(self.wb_count() == pre.wb_count());
        assert(self.tray_x() == pre.tray_x() - ICON_WIDTH);
        assert(self.tray_width() == pre.tray_width());
        if pre.wb_count() > 0 {
            assert(self.slots@[self.regions.wb_start as int] == unshifted(
                pre.slots@[pre.regions.wb_start as int],
            ));
            assert(self.wbw() == pre.wbw());
            assert(self.wb_first() == pre.wb_first() - ICON_WIDTH);
        }
        assert(self.wf_kinds()) by {
            assert(self.slots@[0] == pre.slots@[0]);
        }
        assert forall|i: int|
            self.regions.ql_start <= i < self.regions.ql_end implies (
        #[trigger] self.slots@[i]).width == ICON_WIDTH && self.slots@[i].x == QL_BASE
            + ICON_WIDTH * (i - self.regions.ql_start) by {
            if i < idx {
                assert(self.slots@[i] == pre.slots@[i]);
            } else {
                assert(self.slots@[i] == unshifted(pre.slots@[i + 1]));
                assert(pre.slots@[i + 1].x == QL_BASE + ICON_WIDTH * (i + 1
                    - pre.regions.ql_start));
            }
        }
        assert forall|i: int|
            self.regions.wb_start <= i < self.regions.wb_end implies (
        #[trigger] self.slots@[i]).width == self.wbw() && self.slots@[i].x == self.wb_first() + (
        self.wbw() + SPACING) * (i - self.regions.wb_start) by {
            assert(self.slots@[i] == unshifted(pre.slots@[i + 1]));
            assert(pre.slots@[i + 1].x == pre.wb_first() + (pre.wbw() + SPACING) * (i + 1
                - pre.regions.wb_start));
            assert(i + 1 - pre.regions.wb_start == i - self.regions.wb_start);
        }
        assert(self.wf_geom());
    }

    /// What removing the window button for `window` at table index `bi`
    /// (the leftmost button naming it) leaves behind: every later slot one
    /// index left, the kinds of the remaining buttons kept in order, the
    /// tray slot unmoved, and the width-rebalance rule re-run over the
    /// remaining count.
    pub open spec fn button_removed(pre: PanelTable, post: PanelTable, window: u32, bi: int) -> bool {
        &&& pre.regions.wb_start <= bi < pre.regions.wb_end
        &&& button_client(pre.slots@[bi].kind) == Some(window)
        &&& forall|i: int|
            pre.regions.wb_start <= i < bi ==> button_client(
                (#[trigger] pre.slots@[i]).kind,
            ) != Some(window)
        &&& post.regions == (Regions {
            ql_start: pre.regions.ql_start,
            ql_end: pre.regions.ql_end,
            wb_start: pre.regions.wb_start,
            wb_end: (pre.regions.wb_end - 1) as usize,
            tray: (pre.regions.tray - 1) as usize,
        })
        &&& post.slots@.len() == pre.slots@.len() - 1
        &&& post.limit == pre.limit
        &&& forall|j: int| 0 <= j < pre.regions.wb_start ==> post.slots@[j] == pre.slots@[j]
        &&& forall|j: int|
            pre.regions.wb_start <= j < pre.regions.wb_end - 1 ==> (
            #[trigger] post.slots@[j]).kind == pre.slots@[(if j < bi {
                j
            } else {
                j + 1
            })].kind
        &&& post.slots@[post.regions.tray as int] == pre.slots@[pre.regions.tray as int]
        &&& post.wb_count() == pre.wb_count() - 1
        &&& post.wb_count() >= 1 ==> post.wb_first() == pre.wb_first()
        &&& post.wb_count() >= 1 ==> post.wbw() == (if pre.wb_fit(pre.wb_count() - 1) {
            BUTTON_PREFERRED as int
        } else {
            pre.rebalanced_width(pre.wb_count() - 1)
        })
    }

    /// Removes the window button standing for `window` (the leftmost, if
    /// several) and hands back its old table index: later slots move one
    /// index left, the button region is re-laid from its start, and the
    /// width-rebalance rule is re-run for the remaining count.  An unknown
    /// window changes nothing.
    pub fn removepanelwindow(&mut self, window: u32) -> (r: Option<usize>)
        requires
            old(self).wf(),
        ensures
            final(self).wf(),
            final(self).limit == old(self).limit,
            r is Some <==> old(self).has_button(window),
            r is None ==> *final(self) == *old(self),
            match r {
                None => true,
                Some(bi) => PanelTable::button_removed(*old(self), *final(self), window, bi as int),
            },
    {
        let ghost pre = *self;
        let rg = self.regions;
        let mut bi_found: Option<usize> = None;
        let mut i: usize = rg.wb_start;
        while i < rg.wb_end
            invariant
                *self == pre,
                pre.wf(),
                rg == pre.regions,
                rg.wb_start <= i <= rg.wb_end,
                match bi_found {
                    Some(bi) => rg.wb_start <= bi && bi < i && button_client(
                        pre.slots@[bi as int].kind,
                    ) == Some(window) && forall|l: int|
                        rg.wb_start <= l < bi ==> button_client(
                            (#[trigger] pre.slots@[l]).kind,
                        ) != Some(window),
                    None => forall|l: int|
                        rg.wb_start <= l < i ==> button_client((#[trigger] pre.slots@[l]).kind)
                            != Some(window),
                },
            decreases rg.wb_end - i,
        {
            if bi_found.is_none() {
                match self.slots[i].kind {
                    SlotKind::WindowButton(w, _) => {
                        if w == window {
                            bi_found = Some(i);
                        }
                    },
                    _ => {},
                }
            }
            i = i + 1;
        }
        match bi_found {
            None => {
                proof {
                    assert(!pre.has_button(window));
                }
                None
            },
            Some(bi) => {
                proof {
                    pre.lemma_slot_bounds();
                    assert(pre.has_button(window));
                }
                let first = self.slots[rg.wb_start].x;
                let trayx = self.slots[rg.tray].x;
                proof {
                    assert(first == pre.wb_first());
                    assert(trayx == pre.tray_x());
                }
                self.slots.remove(bi);
                let ghost mid = self.slots@;
                proof {
                    assert(rg.wb_end <= CAPACITY);
                    assert(rg.wb_start >= 1);
                }
                let cnew: i64 = (rg.wb_end - rg.wb_start) as i64 - 1;
                let ghost c = pre.wb_count() - 1;
                let newregions = Regions {
                    ql_start: rg.ql_start,
                    ql_end: rg.ql_end,
                    wb_start: rg.wb_start,
                    wb_end: rg.wb_end - 1,
                    tray: rg.tray - 1,
                };
                if cnew > 0 {
                    let avail: i64 = trayx - first;
                    proof {
                        assert(avail == pre.avail());
                    }
                    proof {
                        assert(0 <= (BUTTON_PREFERRED + SPACING) * cnew <= 163 * 129)
                            by (nonlinear_arith)
                            requires
                                1 <= cnew <= 129,
                        ;
                    }
                    let neww: i64;
                    if (BUTTON_PREFERRED + SPACING) * cnew <= avail {
                        neww = BUTTON_PREFERRED;
                        proof {
                            assert(pre.wb_fit(c));
                        }
                    } else {
                        proof {
                            assert(pre.wb_first() + (pre.wbw() + SPACING) * pre.wb_count()
                                - SPACING <= pre.tray_x());
                            assert((pre.wbw() + SPACING) * pre.wb_count() >= 4 * pre.wb_count())
                                by (nonlinear_arith)
                                requires
                                    pre.wbw() >= 1,
                                    pre.wb_count() >= 0,
                            ;
                            assert(avail >= 4 * c + 1);
                        }
                        let q = avail / cnew;
                        proof {
                            assert(q == avail as int / c) by {
                                assert(avail >= 0);
                            }
                            assert(q >= 4) by (nonlinear_arith)
                                requires
                                    avail >= 4 * c,
                                    c >= 1,
                                    q == avail as int / c,
                            ;
                            assert(q <= avail) by (nonlinear_arith)
                                requires
                                    avail >= 0,
                                    c >= 1,
                                    q == avail as int / c,
                            ;
                            assert(avail <= 0x10000) by {
                                assert(ICON_WIDTH * pre.icon_count() <= ICON_WIDTH * CAPACITY);
                                assert(pre.wb_first() >= 0);
                            }
                            assert(!pre.wb_fit(c));
                        }
                        neww = q - SPACING;
                    }
                    let mut xcur: i64 = first;
                    let mut j: usize = rg.wb_start;
                    proof {
                        assert(xcur == first + (neww + SPACING) * (j - rg.wb_start))
                            by (nonlinear_arith)
                            requires
                                xcur == first,
                                j == rg.wb_start,
                        ;
                    }
                    while j < rg.wb_end - 1
                        invariant
                            pre.wf(),
                            forall|i2: int|
                                0 <= i2 < pre.slots@.len() ==> 0 <= (
                                #[trigger] pre.slots@[i2]).x && pre.slots@[i2].x
                                    + pre.slots@[i2].width <= 0x100_0000,
                            self.regions == pre.regions,
                            self.limit == pre.limit,
                            rg == pre.regions,
                            rg.wb_start <= bi < rg.wb_end,
                            rg.wb_start <= j <= rg.wb_end - 1,
                            self.slots@.len() == pre.slots@.len() - 1,
                            first == pre.wb_first(),
                            0 <= first <= 0x100_0000,
                            1 <= neww <= 0x10000,
                            xcur == first + (neww + SPACING) * (j - rg.wb_start),
                            forall|i2: int|
                                0 <= i2 < rg.wb_start ==> self.slots@[i2] == pre.slots@[i2],
                            forall|i2: int|
                                rg.wb_start <= i2 < j ==> (#[trigger] self.slots@[i2]).kind == (
                                pre.slots@[(if i2 < bi {
                                    i2
                                } else {
                                    i2 + 1
                                })].kind) && self.slots@[i2].x == first + (neww + SPACING) * (i2
                                    - rg.wb_start) && self.slots@[i2].width == neww,
                            forall|i2: int|
                                j <= i2 < self.slots@.len() ==> (#[trigger] self.slots@[i2])
                                    == pre.slots@[(if i2 < bi {
                                    i2
                                } else {
                                    i2 + 1
                                })],
                        decreases rg.wb_end - 1 - j,
                    {
                        proof {
                            assert((neww + SPACING) * (j - rg.wb_start) <= (0x10000 + SPACING)
                                * CAPACITY) by (nonlinear_arith)
                                requires
                                    1 <= neww <= 0x10000,
                                    0 <= j - rg.wb_start <= CAPACITY,
                            ;
                            assert((neww + SPACING) * (j + 1 - rg.wb_start) == (neww + SPACING) * (
                            j - rg.wb_start) + (neww + SPACING)) by (nonlinear_arith);
                        }
                        let mut s = self.slots[j];
                        s.x = xcur;
                        s.width = neww;
                        self.slots.set(j, s);
                        xcur = xcur + neww + SPACING;
                        j = j + 1;
                    }
                    self.regions = newregions;
                    proof {
                        self.lemma_wf_after_button_remove(pre, bi as int, neww as int);
                    }
                } else {
                    self.regions = newregions;
                    proof {
                        self.lemma_wf_after_last_button_remove(pre, bi as int);
                    }
                }
                Some(bi)
            },
        }
    }

    /// A table that results from dropping one button and re-laying the rest
    /// of the region at width `neww` is well-formed again.
    proof fn lemma_wf_after_button_remove(self, pre: PanelTable, bi: int, neww: int)
        requires
            pre.wf(),
            pre.regions.wb_start <= bi < pre.regions.wb_end,
            pre.wb_count() >= 2,
            self.limit == pre.limit,
            self.regions == (Regions {
                ql_start: pre.regions.ql_start,
                ql_end: pre.regions.ql_end,
                wb_start: pre.regions.wb_start,
                wb_end: (pre.regions.wb_end - 1) as usize,
                tray: (pre.regions.tray - 1) as usize,
            }),
            self.slots@.len() == pre.slots@.len() - 1,
            1 <= neww <= 0x10000,
            neww == (if pre.wb_fit(pre.wb_count() - 1) {
                BUTTON_PREFERRED as int
            } else {
                pre.rebalanced_width(pre.wb_count() - 1)
            }),
            pre.wb_fit(pre.wb_count() - 1) || pre.avail() >= 4 * (pre.wb_count() - 1),
            forall|j: int| 0 <= j < pre.regions.wb_start ==> self.slots@[j] == pre.slots@[j],
            forall|j: int|
                pre.regions.wb_start <= j < pre.regions.wb_end - 1 ==> (
                #[trigger] self.slots@[j]).kind == (pre.slots@[(if j < bi {
                    j
                } else {
                    j + 1
                })].kind) && self.slots@[j].x == pre.wb_first() + (neww + SPACING) * (j
                    - pre.regions.wb_start) && self.slots@[j].width == neww,
            forall|j: int|
                pre.regions.wb_end - 1 <= j < self.slots@.len() ==> (#[trigger] self.slots@[j])
                    == pre.slots@[(if j < bi {
                    j
                } else {
                    j + 1
                })],
        ensures
            self.wf(),
    {
        let c = pre.wb_count() - 1;
        let ws = pre.regions.wb_start as int;
        pre.lemma_slot_bounds();
        assert(self.wf_regions());
        assert(self.slots@[self.regions.tray as int] == pre.slots@[pre.regions.tray as int]);
        assert(self.icon_count() == pre.icon_count());
        assert(self.wb_count() == c);
        assert(self.tray_x() == pre.tray_x());
        assert(self.tray_width() == pre.tray_width());
        assert(self.slots@[ws].width == neww);
        assert(self.wbw() == neww);
        assert(self.slots@[ws].x == pre.wb_first() + (neww + SPACING) * 0);
        assert(self.wb_first() == pre.wb_first());
        assert(self.wf_kinds()) by {
            assert(self.slots@[0] == pre.slots@[0]);
        }
        assert(self.wb_first() + (self.wbw() + SPACING) * self.wb_count() - SPACING
            <= self.tray_x()) by {
            if pre.wb_fit(c) {
                assert((BUTTON_PREFERRED + SPACING) * c <= pre.avail());
            } else {
                assert(neww + SPACING == pre.avail() / c);
                assert((pre.avail() / c) * c <= pre.avail()) by (nonlinear_arith)
                    requires
                        pre.avail() >= 0,
                        c >= 1,
                ;
            }
        }
        assert(self.wb_count() >= 1 && self.wb_fit(self.wb_count()) ==> self.wbw()
            == BUTTON_PREFERRED) by {
            assert(self.avail() == pre.avail());
        }
        assert(self.wf_geom());
    }

    /// A table that results from dropping its only button is well-formed
    /// again.
    proof fn lemma_wf_after_last_button_remove(self, pre: PanelTable, bi: int)
        requires
            pre.wf(),
            pre.regions.wb_start <= bi < pre.regions.wb_end,
            pre.wb_count() == 1,
            self.limit == pre.limit,
            self.regions == (Regions {
                ql_start: pre.regions.ql_start,
                ql_end: pre.regions.ql_end,
                wb_start: pre.regions.wb_start,
                wb_end: (pre.regions.wb_end - 1) as usize,
                tray: (pre.regions.tray - 1) as usize,
            }),
            self.slots@.len() == pre.slots@.len() - 1,
            forall|j: int| 0 <= j < bi ==> self.slots@[j] == pre.slots@[j],
            forall|j: int|
                bi <= j < self.slots@.len() ==> (#[trigger] self.slots@[j]) == pre.slots@[j + 1],
        ensures
            self.wf(),
    {
        assert(self.wf_regions());
        assert(bi == pre.regions.wb_start);
        assert(self.slots@[self.regions.tray as int] == pre.slots@[pre.regions.tray as int]);
        assert(self.icon_count() == pre.icon_count());
        assert(self.wb_count() == 0);
        assert(self.wf_kinds()) by {
            assert(self.slots@[0] == pre.slots@[0]);
        }
        assert forall|i: int|
            self.regions.ql_start <= i < self.regions.ql_end implies (
        #[trigger] self.slots@[i]).width == ICON_WIDTH && self.slots@[i].x == QL_BASE
            + ICON_WIDTH * (i - self.regions.ql_start) by {
            assert(self.slots@[i] == pre.slots@[i]);
        }
        assert(self.wf_geom());
    }
}

impl PanelTable {
    /// Law: in any well-formed table the window buttons occupy strictly
    /// increasing, non-overlapping x-spans, and the tray is the rightmost
    /// slot: every other slot ends at or before the tray's x.
    pub proof fn lemma_button_spans(self)
        requires
            self.wf(),
        ensures
            forall|i: int, j: int|
                self.regions.wb_start <= i < j < self.regions.wb_end ==> (
                #[trigger] self.slots@[i]).x + self.slots@[i].width < (
                #[trigger] self.slots@[j]).x + self.slots@[j].width && self.slots@[i].x
                    + self.slots@[i].width <= self.slots@[j].x,
            forall|i: int|
                0 <= i < self.regions.tray ==> (#[trigger] self.slots@[i]).x
                    + self.slots@[i].width <= self.tray_x(),
    {
        let w = self.wbw();
        let ws = self.regions.wb_start as int;
        let c = self.wb_count();
        assert forall|i: int, j: int|
            self.regions.wb_start <= i < j < self.regions.wb_end implies (
        #[trigger] self.slots@[i]).x + self.slots@[i].width < (#[trigger] self.slots@[j]).x
            + self.slots@[j].width && self.slots@[i].x + self.slots@[i].width
            <= self.slots@[j].x by {
            assert(self.slots@[i].x == self.wb_first() + (w + SPACING) * (i - ws));
            assert(self.slots@[j].x == self.wb_first() + (w + SPACING) * (j - ws));
            assert((w + SPACING) * (j - ws) >= (w + SPACING) * (i - ws) + (w + SPACING))
                by (nonlinear_arith)
                requires
                    w >= 1,
                    i < j,
            ;
        }
        assert forall|i: int| 0 <= i < self.regions.tray implies (#[trigger] self.slots@[i]).x
            + self.slots@[i].width <= self.tray_x() by {
            if i == 0 {
                assert(ICON_WIDTH * self.icon_count() >= 0);
            } else if self.regions.ql_start <= i < self.regions.ql_end {
                assert(self.slots@[i].x == QL_BASE + ICON_WIDTH * (i - self.regions.ql_start));
                assert(ICON_WIDTH * (i - self.regions.ql_start) + ICON_WIDTH <= ICON_WIDTH
                    * self.icon_count()) by (nonlinear_arith)
                    requires
                        i - self.regions.ql_start < self.icon_count(),
                ;
            } else {
                assert(self.regions.wb_start <= i < self.regions.wb_end);
                assert(self.slots@[i].x == self.wb_first() + (w + SPACING) * (i - ws));
                assert((w + SPACING) * (i - ws) + w + SPACING <= (w + SPACING) * c)
                    by (nonlinear_arith)
                    requires
                        i - ws < c,
                        w >= 1,
                ;
                assert(self.wb_first() + (w + SPACING) * c - SPACING <= self.tray_x());
            }
        }
    }

    /// Law (hit-test round trip, quick-launch region): a hit in the middle
    /// of one of the first twelve icons resolves to that icon's slot, and a
    /// hit one pixel left of the region's first slot resolves to no hit.
    /// Farther down the strip the off-by-one of the dividing rule drifts the
    /// resolved index.
    pub proof fn lemma_hit_roundtrip_icon(self, k: int)
        requires
            self.wf(),
            self.regions.ql_start <= k < self.regions.ql_end,
            k - self.regions.ql_start <= 11,
        ensures
            self.hit_spec(self.slots@[k].x + self.slots@[k].width / 2, 3) == Some(
                (k, RegionKind::QuickLaunch),
            ),
            self.hit_spec(self.slots@[self.regions.ql_start as int].x - 1, 3) is None,
    {
        let qs = self.regions.ql_start as int;
        let kk = k - qs;
        let c = self.icon_count();
        let x = self.slots@[k].x + self.slots@[k].width / 2;
        assert(self.slots@[k].x == QL_BASE + ICON_WIDTH * kk);
        assert(x == QL_BASE + ICON_WIDTH * kk + 11);
        assert(ICON_WIDTH * kk + 11 <= ICON_WIDTH * c) by (nonlinear_arith)
            requires
                kk < c,
        ;
        assert(ICON_WIDTH * kk >= 0) by (nonlinear_arith)
            requires
                kk >= 0,
        ;
        assert((x - QL_BASE) / (ICON_WIDTH + 1) == kk) by (nonlinear_arith)
            requires
                x - QL_BASE == 23 * kk + 11,
                0 <= kk <= 11,
        ;
        assert(self.slots@[qs].x == QL_BASE);
        assert(self.hit_spec(QL_BASE - 1, 3) is None) by {
            if self.wb_count() > 0 {
                assert(self.wb_first() >= QL_BASE - 1 + ICON_WIDTH * self.icon_count());
                assert(ICON_WIDTH * self.icon_count() >= ICON_WIDTH) by (nonlinear_arith)
                    requires
                        self.icon_count() >= 1,
                ;
            }
        }
    }

    /// Law (hit-test round trip, window-button region): with buttons at
    /// least four pixels wide, a hit in the middle of a button near the
    /// start of the region — while twice its rank stays within half the
    /// button width — resolves to that button's slot.
    pub proof fn lemma_hit_roundtrip_button(self, k: int)
        requires
            self.wf(),
            self.regions.wb_start <= k < self.regions.wb_end,
            self.wbw() >= 4,
            2 * (k - self.regions.wb_start) + self.wbw() / 2 <= self.wbw(),
        ensures
            self.hit_spec(self.slots@[k].x + self.slots@[k].width / 2, 3) == Some(
                (k, RegionKind::WindowButtons),
            ),
    {
        let ws = self.regions.wb_start as int;
        let kk = k - ws;
        let c = self.wb_count();
        let w = self.wbw();
        let first = self.wb_first();
        let x = self.slots@[k].x + self.slots@[k].width / 2;
        assert(self.slots@[k].x == first + (w + SPACING) * kk);
        assert(x == first + (w + SPACING) * kk + w / 2);
        assert((w + SPACING) * kk >= 0) by (nonlinear_arith)
            requires
                kk >= 0,
                w >= 1,
        ;
        assert(x > QL_BASE + ICON_WIDTH * self.icon_count()) by {
            assert(first >= QL_BASE - 1 + ICON_WIDTH * self.icon_count());
            assert((w + SPACING) * kk + w / 2 >= 2) by (nonlinear_arith)
                requires
                    kk >= 0,
                    w >= 4,
            ;
        }
        assert(x < self.tray_x()) by {
            assert((w + SPACING) * kk + (w + SPACING) <= (w + SPACING) * c) by (nonlinear_arith)
                requires
                    kk < c,
                    w >= 1,
            ;
            assert(first + (w + SPACING) * c - SPACING <= self.tray_x());
            assert(w / 2 < w + SPACING - SPACING + 1) by (nonlinear_arith)
                requires
                    w >= 1,
            ;
        }
        assert((x - first) / (w + 1) == kk) by (nonlinear_arith)
            requires
                x - first == (w + SPACING) * kk + w / 2,
                SPACING == 3,
                0 <= 2 * kk + w / 2 <= w,
                4 <= w,
                kk >= 0,
                w / 2 >= 2,
        ;
        assert(kk < c);
    }
}

} // verus!
