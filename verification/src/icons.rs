//! The icon link table: thirty-two entries of bound program, label, tooltip
//! and icon image, the first fifteen for quick-launch icons in the taskbar,
//! the last sixteen filled from the far end for the notification tray.  An
//! entry with no image is free.

use vstd::prelude::*;
use crate::layout::PanelError;
use crate::panel::{PanelTable, CAPACITY};

verus! {

/// Number of entries in the link table.
pub const LINK_COUNT: usize = 32;

/// First index reserved for notification-tray icons; entries below it serve
/// the quick-launch strip.
pub const TRAY_LINKS: usize = 16;

/// One entry: what an icon launches and how it is shown.
pub struct IconEntry {
    /// Program bound to the icon; empty for a built-in action.
    pub program: Vec<u8>,
    /// Display label.
    pub label: Vec<u8>,
    /// Tooltip text.
    pub tooltip: Vec<u8>,
    /// Icon image file name; an empty name marks the entry free.
    pub image: Vec<u8>,
}

/// The fixed-size link table.
pub struct IconTable {
    /// The thirty-two entries.
    pub entries: Vec<IconEntry>,
}

impl IconTable {
    /// The table always holds its thirty-two entries.
    pub open spec fn wf(self) -> bool {
        self.entries@.len() == LINK_COUNT
    }

    /// Entry `i` is free: it has no image.
    pub open spec fn free(self, i: int) -> bool {
        self.entries@[i].image@.len() == 0
    }

    /// A table of thirty-two free entries.
    pub fn new() -> (t: IconTable)
        ensures
            t.wf(),
            forall|i: int| 0 <= i < LINK_COUNT ==> t.free(i),
    {
        let mut entries: Vec<IconEntry> = Vec::new();
        let mut i: usize = 0;
        while i < LINK_COUNT
            invariant
                i <= LINK_COUNT,
                entries@.len() == i,
                forall|j: int|
                    0 <= j < i ==> (#[trigger] entries@[j]).image@.len() == 0,
            decreases LINK_COUNT - i,
        {
            entries.push(
                IconEntry { program: Vec::new(), label: Vec::new(), tooltip: Vec::new(), image: Vec::new() },
            );
            i = i + 1;
        }
        IconTable { entries }
    }

    /// What binding a quick-launch link does to the table: the first free
    /// entry below the tray range takes the given program, label, tooltip
    /// and image; every other entry is untouched.
    pub open spec fn link_added(
        pre: IconTable,
        post: IconTable,
        idx: int,
        program: Seq<u8>,
        label: Seq<u8>,
        tooltip: Seq<u8>,
        image: Seq<u8>,
    ) -> bool {
        &&& 0 <= idx < 15
        &&& pre.free(idx)
        &&& forall|i: int| 0 <= i < idx ==> !pre.free(i)
        &&& forall|i: int|
            0 <= i < LINK_COUNT && i != idx ==> post.entries@[i] == pre.entries@[i]
        &&& post.entries@[idx].program@ == program
        &&& post.entries@[idx].label@ == label
        &&& post.entries@[idx].tooltip@ == tooltip
        &&& post.entries@[idx].image@ == image
    }

    /// Fills the first free quick-launch entry (indices below the tray
    /// range) and hands its index back; a full strip gives nothing.
    pub fn addlink(&mut self, program: Vec<u8>, label: Vec<u8>, tooltip: Vec<u8>, image: Vec<u8>)
        -> (r: Option<u8>)
        requires
            old(self).wf(),
            image@.len() > 0,
        ensures
            final(self).wf(),
            match r {
                None => {
                    &&& *final(self) == *old(self)
                    &&& forall|i: int| 0 <= i < 15 ==> !old(self).free(i)
                },
                Some(idx) => IconTable::link_added(
                    *old(self),
                    *final(self),
                    idx as int,
                    program@,
                    label@,
                    tooltip@,
                    image@,
                ),
            },
    {
        let ghost pre = *self;
        let mut i: usize = 0;
        while i < 15
            invariant
                *self == pre,
                pre == *old(self),
                pre.wf(),
                image@.len() > 0,
                i <= 15,
                forall|j: int| 0 <= j < i ==> !pre.free(j),
            decreases 15 - i,
        {
            if self.entries[i].image.len() == 0 {
                let ghost pg = program@;
                let ghost lb = label@;
                let ghost tt = tooltip@;
                let ghost im = image@;
                self.entries.remove(i);
                let ghost mid = self.entries@;
                self.entries.insert(i, IconEntry { program, label, tooltip, image });
                proof {
                    assert(self.entries@ =~= mid.insert(i as int, self.entries@[i as int]));
                    assert(self.entries@.len() == LINK_COUNT);
                    assert forall|j: int| 0 <= j < LINK_COUNT && j != i implies #[trigger] self
                        .entries@[j] == pre.entries@[j] by {
                        if j < i {
                            assert(mid[j] == pre.entries@[j]);
                        } else {
                            assert(mid[j - 1] == pre.entries@[j]);
                        }
                    }
                    assert(self.entries@[i as int].program@ == pg);
                    assert(self.entries@[i as int].label@ == lb);
                    assert(self.entries@[i as int].tooltip@ == tt);
                    assert(self.entries@[i as int].image@ == im);
                }
                return Some(i as u8);
            }
            i = i + 1;
        }
        None
    }

    /// Fills the last free notification-tray entry, scanning from the far
    /// end, and hands its index back; a full tray gives nothing.
    pub fn addnotificationicon(
        &mut self,
        label: Vec<u8>,
        tooltip: Vec<u8>,
        image: Vec<u8>,
    ) -> (r: Option<u8>)
        requires
            old(self).wf(),
            image@.len() > 0,
        ensures
            final(self).wf(),
            match r {
                None => {
                    &&& *final(self) == *old(self)
                    &&& forall|i: int| TRAY_LINKS <= i < LINK_COUNT ==> !old(self).free(i)
                },
                Some(idx) => {
                    &&& TRAY_LINKS <= idx < LINK_COUNT
                    &&& old(self).free(idx as int)
                    &&& forall|i: int| idx < i < LINK_COUNT ==> !old(self).free(i)
                    &&& forall|i: int|
                        0 <= i < LINK_COUNT && i != idx ==> final(self).entries@[i] == old(
                            self,
                        ).entries@[i]
                    &&& final(self).entries@[idx as int].label@ == label@
                    &&& final(self).entries@[idx as int].tooltip@ == tooltip@
                    &&& final(self).entries@[idx as int].image@ == image@
                    &&& !final(self).free(idx as int)
                },
            },
    {
        let ghost pre = *self;
        let mut i: usize = LINK_COUNT;
        while i > TRAY_LINKS
            invariant
                *self == pre,
                pre == *old(self),
                pre.wf(),
                image@.len() > 0,
                TRAY_LINKS <= i <= LINK_COUNT,
                forall|j: int| i <= j < LINK_COUNT ==> !pre.free(j),
            decreases i,
        {
            i = i - 1;
            if self.entries[i].image.len() == 0 {
                let ghost lb = label@;
                let ghost tt = tooltip@;
                let ghost im = image@;
                self.entries.remove(i);
                let ghost mid = self.entries@;
                self.entries.insert(i, IconEntry { program: Vec::new(), label, tooltip, image });
                proof {
                    assert(self.entries@ =~= mid.insert(i as int, self.entries@[i as int]));
                    assert(self.entries@.len() == LINK_COUNT);
                    assert forall|j: int| 0 <= j < LINK_COUNT && j != i implies #[trigger] self
                        .entries@[j] == pre.entries@[j] by {
                        if j < i {
                            assert(mid[j] == pre.entries@[j]);
                        } else {
                            assert(mid[j - 1] == pre.entries@[j]);
                        }
                    }
                    assert(self.entries@[i as int].label@ == lb);
                    assert(self.entries@[i as int].tooltip@ == tt);
                    assert(self.entries@[i as int].image@ == im);
                }
                return Some(i as u8);
            }
        }
        None
    }
}

/// Binds a new quick-launch icon and appends its panel slot in one step:
/// the first free link entry takes the binding and a slot carrying that
/// entry's index enters the quick-launch region.  Nothing changes when the
/// link strip or the panel is full.
pub fn addpanelicon(
    links: &mut IconTable,
    panel: &mut PanelTable,
    program: Vec<u8>,
    label: Vec<u8>,
    tooltip: Vec<u8>,
    image: Vec<u8>,
) -> (r: Option<usize>)
    requires
        old(links).wf(),
        old(panel).wf(),
        image@.len() > 0,
    ensures
        final(links).wf(),
        final(panel).wf(),
        match r {
            None => {
                &&& *final(panel) == *old(panel)
                &&& *final(links) == *old(links)
                &&& (old(panel).slots@.len() == CAPACITY || forall|i: int|
                    0 <= i < 15 ==> !old(links).free(i))
            },
            Some(slot) => exists|li: int|
                {
                    &&& #[trigger] IconTable::link_added(
                        *old(links),
                        *final(links),
                        li,
                        program@,
                        label@,
                        tooltip@,
                        image@,
                    )
                    &&& PanelTable::icon_inserted(
                        *old(panel),
                        *final(panel),
                        li as u32,
                        slot as int,
                    )
                },
        },
{
    if panel.slots.len() >= CAPACITY {
        return None;
    }
    let linkidx = match links.addlink(program, label, tooltip, image) {
        Some(idx) => idx,
        None => {
            return None;
        },
    };
    match panel.insertpanelicon(linkidx as u32) {
        Ok(slot) => {
            proof {
                assert(IconTable::link_added(
                    *old(links),
                    *links,
                    linkidx as int,
                    program@,
                    label@,
                    tooltip@,
                    image@,
                ));
                assert(PanelTable::icon_inserted(
                    *old(panel),
                    *panel,
                    linkidx as u32,
                    slot as int,
                ));
            }
            Some(slot)
        },
        Err(PanelError::SlotTableFull) => {
            proof {
                assert(false);
            }
            None
        },
    }
}

} // verus!
