//! The window registry: the set of managed client windows, the frames that
//! wrap them, focus state and taskbar ordering.
//!
//! The registry keeps a bidirectional association between clients and frames:
//! the window list owns one record per client, and a separate link list maps
//! each frame id back to its client.  Well-formedness ties the two together
//! (no orphan links, ids distinct, at most one focused window) and every
//! operation preserves it.

use vstd::prelude::*;

verus! {

/// Visibility of a managed window on screen and in the taskbar.
#[derive(Clone, Copy, PartialEq, Eq, Structural, Debug)]
pub enum Visibility {
    /// Unmapped, still listed in the taskbar.
    HiddenTaskbar,
    /// Unmapped, represented only in the notification tray.
    HiddenNotification,
    /// Mapped and holding the input focus.
    VisibleFocused,
    /// Mapped without focus.
    VisibleUnfocused,
}

/// One managed client window: ids, title bytes, geometry, visibility and the
/// stable taskbar order number (0 means not yet assigned).
pub struct ManagedWindow {
    /// Client window id.
    pub window: u32,
    /// Id of the frame that wraps the client.
    pub frame: u32,
    /// Title, as the raw bytes read from the title property.
    pub title: Vec<u8>,
    /// Screen x of the client.
    pub x: i64,
    /// Screen y of the client.
    pub y: i64,
    /// Client width in pixels.
    pub width: i64,
    /// Client height in pixels.
    pub height: i64,
    /// Visibility and focus state.
    pub vis: Visibility,
    /// Taskbar order; positive once assigned, 0 when unassigned.
    pub order: u8,
}

/// A back-reference from a frame id to the client it wraps.
#[derive(Clone, Copy, PartialEq, Eq, Structural, Debug)]
pub struct FrameLink {
    /// Frame id, the key of the link.
    pub frame: u32,
    /// Client window id the frame belongs to.
    pub window: u32,
}

/// The registry of managed windows and their frame back-references.
pub struct WindowManager {
    /// One record per managed client.
    pub windows: Vec<ManagedWindow>,
    /// Frame-to-client links, one per managed client.
    pub frames: Vec<FrameLink>,
}

/// Geometry stays inside the signed 16-bit range the display protocol uses.
pub open spec fn geom_ok(m: ManagedWindow) -> bool {
    &&& -0x8000 <= m.x <= 0x8000
    &&& -0x8000 <= m.y <= 0x8000
    &&& 0 <= m.width <= 0x8000
    &&& 0 <= m.height <= 0x8000
}

/// The record, with focus withdrawn if it held it.
pub open spec fn demote(m: ManagedWindow) -> ManagedWindow {
    if m.vis == Visibility::VisibleFocused {
        ManagedWindow { vis: Visibility::VisibleUnfocused, ..m }
    } else {
        m
    }
}

/// What an existing record becomes when `incoming` is inserted: unchanged,
/// unless the incoming record takes the focus.
pub open spec fn demote_if_displaced(m: ManagedWindow, incoming: ManagedWindow) -> ManagedWindow {
    if incoming.vis == Visibility::VisibleFocused {
        demote(m)
    } else {
        m
    }
}

/// What a record becomes when the frame `target` receives the focus: focused
/// if it owns that frame, demoted if it held the focus, otherwise unchanged.
pub open spec fn win_focused(m: ManagedWindow, target: u32) -> ManagedWindow {
    if m.frame == target {
        ManagedWindow { vis: Visibility::VisibleFocused, ..m }
    } else {
        demote(m)
    }
}

/// The largest order number assigned in `s` (0 when none is assigned).
pub open spec fn max_order(s: Seq<ManagedWindow>) -> int
    decreases s.len(),
{
    if s.len() == 0 {
        0
    } else {
        let m = max_order(s.drop_last());
        if s.last().order > m {
            s.last().order as int
        } else {
            m
        }
    }
}

/// How many of the first `i` records have no order assigned yet.
pub open spec fn zeros_before(s: Seq<ManagedWindow>, i: int) -> int
    decreases i,
{
    if i <= 0 {
        0
    } else {
        zeros_before(s, i - 1) + if s[i - 1].order == 0 {
            1int
        } else {
            0int
        }
    }
}

/// The order record `i` carries after the blanks are filled in: kept if it
/// was assigned, else the next free number above the old maximum, handed out
/// in record order.
pub open spec fn filled_order(s: Seq<ManagedWindow>, i: int) -> int {
    if s[i].order != 0 {
        s[i].order as int
    } else {
        max_order(s) + 1 + zeros_before(s, i)
    }
}

/// At most one unassigned record per position.
proof fn lemma_zeros_before_le(s: Seq<ManagedWindow>, i: int)
    requires
        0 <= i,
    ensures
        0 <= zeros_before(s, i) <= i,
    decreases i,
{
    if i > 0 {
        lemma_zeros_before_le(s, i - 1);
    }
}

/// The count of unassigned records never shrinks as the prefix grows.
proof fn lemma_zeros_before_monotone(s: Seq<ManagedWindow>, i: int, j: int)
    requires
        i <= j,
    ensures
        zeros_before(s, i) <= zeros_before(s, j),
    decreases j - i,
{
    if i < j {
        lemma_zeros_before_monotone(s, i, j - 1);
    }
}

impl WindowManager {
    /// True when some record holds this client id.
    pub open spec fn has_client(self, window: u32) -> bool {
        exists|i: int|
            0 <= i < self.windows@.len() && (#[trigger] self.windows@[i]).window == window
    }

    /// Index of the record holding this client id.
    pub open spec fn client_at(self, window: u32) -> int {
        choose|i: int|
            0 <= i < self.windows@.len() && (#[trigger] self.windows@[i]).window == window
    }

    /// True when some record's frame field holds this frame id.
    pub open spec fn has_frame(self, frame: u32) -> bool {
        exists|i: int|
            0 <= i < self.windows@.len() && (#[trigger] self.windows@[i]).frame == frame
    }

    /// Index of the record whose frame field holds this frame id.
    pub open spec fn frame_at(self, frame: u32) -> int {
        choose|i: int|
            0 <= i < self.windows@.len() && (#[trigger] self.windows@[i]).frame == frame
    }

    /// True when the link list has a key for this frame id.
    pub open spec fn has_link(self, frame: u32) -> bool {
        exists|k: int| 0 <= k < self.frames@.len() && (#[trigger] self.frames@[k]).frame == frame
    }

    /// Record `i` and link `k` agree: both in range, same client, same frame.
    pub open spec fn matches_link(self, i: int, k: int) -> bool {
        &&& 0 <= i < self.windows@.len()
        &&& 0 <= k < self.frames@.len()
        &&& self.windows@[i].window == self.frames@[k].window
        &&& self.windows@[i].frame == self.frames@[k].frame
    }

    /// Link `k` resolves to some record that carries its frame key.
    pub open spec fn link_resolves(self, k: int) -> bool {
        exists|i: int| self.matches_link(i, k)
    }

    /// Record `i` has a link pointing back at it.
    pub open spec fn window_linked(self, i: int) -> bool {
        exists|k: int| self.matches_link(i, k)
    }

    /// Client ids are pairwise distinct.
    pub open spec fn distinct_clients(self) -> bool {
        forall|i: int, j: int|
            0 <= i < j < self.windows@.len() ==> (#[trigger] self.windows@[i]).window != (
            #[trigger] self.windows@[j]).window
    }

    /// Frame ids are pairwise distinct.
    pub open spec fn distinct_frames(self) -> bool {
        forall|i: int, j: int|
            0 <= i < j < self.windows@.len() ==> (#[trigger] self.windows@[i]).frame != (
            #[trigger] self.windows@[j]).frame
    }

    /// The two sides agree: every link resolves, every record is linked, and
    /// link keys are distinct.
    pub open spec fn links_consistent(self) -> bool {
        &&& forall|k: int, l: int|
            0 <= k < l < self.frames@.len() ==> (#[trigger] self.frames@[k]).frame != (
            #[trigger] self.frames@[l]).frame
        &&& forall|k: int| 0 <= k < self.frames@.len() ==> #[trigger] self.link_resolves(k)
        &&& forall|i: int| 0 <= i < self.windows@.len() ==> #[trigger] self.window_linked(i)
    }

    /// At most one record is focused.
    pub open spec fn at_most_one_focused(self) -> bool {
        forall|i: int, j: int|
            0 <= i < self.windows@.len() && 0 <= j < self.windows@.len() && (
            #[trigger] self.windows@[i]).vis == Visibility::VisibleFocused && (
            #[trigger] self.windows@[j]).vis == Visibility::VisibleFocused ==> i == j
    }

    /// Well-formedness of the registry.
    pub open spec fn wf(self) -> bool {
        &&& self.distinct_clients()
        &&& self.distinct_frames()
        &&& self.links_consistent()
        &&& self.at_most_one_focused()
        &&& forall|i: int| 0 <= i < self.windows@.len() ==> geom_ok(#[trigger] self.windows@[i])
    }

    /// An empty registry.
    pub fn new() -> (r: Self)
        ensures
            r.windows@.len() == 0,
            r.frames@.len() == 0,
            r.wf(),
    {
        WindowManager { windows: Vec::new(), frames: Vec::new() }
    }

    /// Looks a record up by its client id.
    pub fn getwindow(&self, window: u32) -> (r: Option<&ManagedWindow>)
        requires
            self.wf(),
        ensures
            match r {
                Some(m) => self.has_client(window) && *m == self.windows@[self.client_at(window)],
                None => !self.has_client(window),
            },
    {
        let mut i: usize = 0;
        while i < self.windows.len()
            invariant
                self.wf(),
                i <= self.windows@.len(),
                forall|j: int| 0 <= j < i ==> (#[trigger] self.windows@[j]).window != window,
            decreases self.windows@.len() - i,
        {
            if self.windows[i].window == window {
                proof {
                    assert(self.has_client(window));
                    let ci = self.client_at(window);
                    assert(0 <= ci < self.windows@.len() && self.windows@[ci].window == window);
                    assert(self.windows@[i as int].window == window);
                    if ci < i as int {
                        assert(self.windows@[ci].window != self.windows@[i as int].window);
                    }
                    if (i as int) < ci {
                        assert(self.windows@[i as int].window != self.windows@[ci].window);
                    }
                    assert(ci == i as int);
                }
                return Some(&self.windows[i]);
            }
            i = i + 1;
        }
        None
    }

    /// Looks a record up by its frame id, through the link list.
    pub fn getframe(&self, frame: u32) -> (r: Option<&ManagedWindow>)
        requires
            self.wf(),
        ensures
            match r {
                Some(m) => self.has_frame(frame) && *m == self.windows@[self.frame_at(frame)]
                    && m.frame == frame,
                None => !self.has_link(frame),
            },
    {
        let mut k: usize = 0;
        while k < self.frames.len()
            invariant
                self.wf(),
                k <= self.frames@.len(),
                forall|l: int| 0 <= l < k ==> (#[trigger] self.frames@[l]).frame != frame,
            decreases self.frames@.len() - k,
        {
            if self.frames[k].frame == frame {
                let client = self.frames[k].window;
                proof {
                    assert(self.link_resolves(k as int));
                    let i0 = choose|i: int| self.matches_link(i, k as int);
                    assert(self.windows@[i0].window == client);
                }
                let r = self.getwindow(client);
                match r {
                    Some(m) => {
                        proof {
                            let i0 = choose|i: int| self.matches_link(i, k as int);
                            let ci = self.client_at(client);
                            assert(self.windows@[ci].window == client);
                            assert(i0 == ci);
                            assert(m.frame == frame);
                            assert(self.has_frame(frame));
                            let fi = self.frame_at(frame);
                            assert(self.windows@[fi].frame == frame);
                            assert(fi == i0);
                        }
                        return Some(m);
                    },
                    None => {
                        proof {
                            let i0 = choose|i: int| self.matches_link(i, k as int);
                            assert(false);
                        }
                    },
                }
            }
            k = k + 1;
        }
        None
    }

    /// Inserts a record and its frame link.  A record inserted focused takes
    /// the focus: any previously focused window becomes merely visible.
    pub fn insertwindow(&mut self, state: ManagedWindow)
        requires
            old(self).wf(),
            !old(self).has_client(state.window),
            !old(self).has_frame(state.frame),
            !old(self).has_link(state.frame),
            geom_ok(state),
        ensures
            final(self).wf(),
            final(self).frames@ == old(self).frames@.push(
                (FrameLink { frame: state.frame, window: state.window }),
            ),
            final(self).windows@.len() == old(self).windows@.len() + 1,
            final(self).windows@.last() == state,
            forall|i: int|
                0 <= i < old(self).windows@.len() ==> (#[trigger] final(self).windows@[i])
                    == demote_if_displaced(old(self).windows@[i], state),
    {
        let ghost pre = *self;
        let frame = state.frame;
        let window = state.window;
        if state.vis == Visibility::VisibleFocused {
            self.demote_focused();
        }
        let ghost mid = *self;
        self.windows.push(state);
        self.frames.push(FrameLink { frame, window });
        proof {
            assert forall|i: int| 0 <= i < pre.windows@.len() implies (#[trigger] self
                .windows@[i]) == demote_if_displaced(pre.windows@[i], state) by {
                assert(self.windows@[i] == mid.windows@[i]);
            }
            assert(self.windows@.last() == state);
            assert(self.wf()) by {
                self.lemma_wf_after_insert(pre, mid, state);
            }
        }
    }

    /// Withdraws the focus from whichever record holds it, if any.
    fn demote_focused(&mut self)
        requires
            old(self).wf(),
        ensures
            final(self).wf(),
            final(self).frames@ == old(self).frames@,
            final(self).windows@.len() == old(self).windows@.len(),
            forall|i: int|
                0 <= i < old(self).windows@.len() ==> (#[trigger] final(self).windows@[i])
                    == demote(old(self).windows@[i]),
            forall|i: int|
                0 <= i < final(self).windows@.len() ==> (#[trigger] final(self).windows@[i]).vis
                    != Visibility::VisibleFocused,
    {
        let ghost pre = *self;
        let n = self.windows.len();
        let mut found: Option<usize> = None;
        let mut i: usize = 0;
        while i < n
            invariant
                *self == pre,
                n == pre.windows@.len(),
                i <= n,
                match found {
                    Some(fi) => fi < i && pre.windows@[fi as int].vis
                        == Visibility::VisibleFocused,
                    None => forall|j: int|
                        0 <= j < i ==> (#[trigger] pre.windows@[j]).vis
                            != Visibility::VisibleFocused,
                },
            decreases n - i,
        {
            if found.is_none() && self.windows[i].vis == Visibility::VisibleFocused {
                found = Some(i);
            }
            i = i + 1;
        }
        match found {
            Some(fi) => {
                let mut w = self.windows.remove(fi);
                w.vis = Visibility::VisibleUnfocused;
                self.windows.insert(fi, w);
                proof {
                    assert(self.windows@ =~= pre.windows@.update(
                        fi as int,
                        demote(pre.windows@[fi as int]),
                    ));
                    assert forall|j: int| 0 <= j < self.windows@.len() implies (#[trigger] self
                        .windows@[j]) == demote(pre.windows@[j]) by {
                        if j != fi {
                            assert(pre.windows@[fi as int].vis == Visibility::VisibleFocused);
                            assert(pre.windows@[j].vis != Visibility::VisibleFocused);
                        }
                    }
                    self.lemma_wf_same_ids(pre);
                    assert forall|g: int| 0 <= g < self.windows@.len() implies geom_ok(
                        #[trigger] self.windows@[g],
                    ) by {
                        assert(geom_ok(pre.windows@[g]));
                    }
                    assert(self.at_most_one_focused()) by {
                        assert forall|a: int, b: int|
                            0 <= a < self.windows@.len() && 0 <= b < self.windows@.len() && (
                            #[trigger] self.windows@[a]).vis == Visibility::VisibleFocused && (
                            #[trigger] self.windows@[b]).vis == Visibility::VisibleFocused implies a
                            == b by {
                            assert(self.windows@[a] == demote(pre.windows@[a]));
                            assert(self.windows@[b] == demote(pre.windows@[b]));
                        }
                    }
                    assert(self.wf());
                }
            },
            None => {
                proof {
                    assert forall|j: int| 0 <= j < self.windows@.len() implies (#[trigger] self
                        .windows@[j]) == demote(pre.windows@[j]) by {}
                }
            },
        }
    }

    /// Well-formedness of the id structure carries over to a registry with
    /// the same links and the same window ids (other record fields may have
    /// changed).
    proof fn lemma_wf_same_ids(self, pre: WindowManager)
        requires
            pre.wf(),
            self.frames@ == pre.frames@,
            self.windows@.len() == pre.windows@.len(),
            forall|i: int|
                0 <= i < pre.windows@.len() ==> (#[trigger] self.windows@[i]).window
                    == pre.windows@[i].window && self.windows@[i].frame == pre.windows@[i].frame,
        ensures
            self.distinct_clients(),
            self.distinct_frames(),
            self.links_consistent(),
    {
        assert forall|k: int| 0 <= k < self.frames@.len() implies #[trigger] self.link_resolves(
            k,
        ) by {
            assert(pre.link_resolves(k));
            let i = choose|i: int| pre.matches_link(i, k);
            assert(self.matches_link(i, k));
        }
        assert forall|i: int| 0 <= i < self.windows@.len() implies #[trigger] self.window_linked(
            i,
        ) by {
            assert(pre.window_linked(i));
            let k = choose|k: int| pre.matches_link(i, k);
            assert(self.matches_link(i, k));
        }
    }

    /// Well-formedness after pushing a fresh record and its link onto a
    /// registry whose previous records were (at most) demoted.
    proof fn lemma_wf_after_insert(self, pre: WindowManager, mid: WindowManager, state: ManagedWindow)
        requires
            pre.wf(),
            !pre.has_client(state.window),
            !pre.has_frame(state.frame),
            !pre.has_link(state.frame),
            geom_ok(state),
            mid.frames@ == pre.frames@,
            mid.windows@.len() == pre.windows@.len(),
            forall|i: int|
                0 <= i < pre.windows@.len() ==> (#[trigger] mid.windows@[i]) == demote_if_displaced(
                    pre.windows@[i],
                    state,
                ),
            state.vis == Visibility::VisibleFocused ==> forall|i: int|
                0 <= i < mid.windows@.len() ==> (#[trigger] mid.windows@[i]).vis
                    != Visibility::VisibleFocused,
            state.vis != Visibility::VisibleFocused ==> mid == pre,
            self.windows@ == mid.windows@.push(state),
            self.frames@ == mid.frames@.push((FrameLink { frame: state.frame, window: state.window })),
        ensures
            self.wf(),
    {
        let n = pre.windows@.len() as int;
        assert forall|i: int| 0 <= i < n implies (#[trigger] self.windows@[i]).window
            == pre.windows@[i].window && self.windows@[i].frame == pre.windows@[i].frame by {
            assert(self.windows@[i] == mid.windows@[i]);
        }
        assert(self.distinct_clients()) by {
            assert forall|i: int, j: int| 0 <= i < j < self.windows@.len() implies (
            #[trigger] self.windows@[i]).window != (#[trigger] self.windows@[j]).window by {
                if j == n {
                    assert(self.windows@[i].window == pre.windows@[i].window);
                }
            }
        }
        assert(self.distinct_frames()) by {
            assert forall|i: int, j: int| 0 <= i < j < self.windows@.len() implies (
            #[trigger] self.windows@[i]).frame != (#[trigger] self.windows@[j]).frame by {
                if j == n {
                    assert(self.windows@[i].frame == pre.windows@[i].frame);
                }
            }
        }
        assert(self.links_consistent()) by {
            assert forall|k: int, l: int| 0 <= k < l < self.frames@.len() implies (
            #[trigger] self.frames@[k]).frame != (#[trigger] self.frames@[l]).frame by {
                if l == pre.frames@.len() as int {
                    assert(self.frames@[k] == pre.frames@[k]);
                }
            }
            assert forall|k: int| 0 <= k < self.frames@.len() implies #[trigger] self.link_resolves(
                k,
            ) by {
                if k < pre.frames@.len() {
                    assert(pre.link_resolves(k));
                    let i = choose|i: int| pre.matches_link(i, k);
                    assert(self.windows@[i] == mid.windows@[i]);
                    assert(self.matches_link(i, k));
                } else {
                    assert(self.matches_link(n, k));
                }
            }
            assert forall|i: int| 0 <= i < self.windows@.len() implies #[trigger] self
                .window_linked(i) by {
                if i < n {
                    assert(pre.window_linked(i));
                    let k = choose|k: int| pre.matches_link(i, k);
                    assert(self.windows@[i] == mid.windows@[i]);
                    assert(self.matches_link(i, k));
                } else {
                    assert(self.matches_link(i, pre.frames@.len() as int));
                }
            }
        }
        assert(self.at_most_one_focused()) by {
            if state.vis == Visibility::VisibleFocused {
                assert forall|i: int, j: int|
                    0 <= i < self.windows@.len() && 0 <= j < self.windows@.len() && (
                    #[trigger] self.windows@[i]).vis == Visibility::VisibleFocused && (
                    #[trigger] self.windows@[j]).vis == Visibility::VisibleFocused implies i
                    == j by {
                    if i < n {
                        assert(self.windows@[i] == mid.windows@[i]);
                    }
                    if j < n {
                        assert(self.windows@[j] == mid.windows@[j]);
                    }
                }
            } else {
                assert forall|i: int, j: int|
                    0 <= i < self.windows@.len() && 0 <= j < self.windows@.len() && (
                    #[trigger] self.windows@[i]).vis == Visibility::VisibleFocused && (
                    #[trigger] self.windows@[j]).vis == Visibility::VisibleFocused implies i
                    == j by {
                    if i == n || j == n {
                        assert(state.vis != Visibility::VisibleFocused);
                    }
                }
            }
        }
        assert forall|i: int| 0 <= i < self.windows@.len() implies geom_ok(
            #[trigger] self.windows@[i],
        ) by {
            if i < n {
                assert(self.windows@[i] == mid.windows@[i]);
                assert(geom_ok(pre.windows@[i]));
            }
        }
    }

    /// Gives the focus to the window owning the frame `target`: it becomes
    /// the one focused window, the previously focused one (if different)
    /// becomes merely visible.  A frame the registry does not know is treated
    /// as already gone: nothing changes and `false` comes back.  Calling it
    /// again for the frame that is already focused changes nothing either.
    pub fn focus(&mut self, target: u32) -> (found: bool)
        requires
            old(self).wf(),
        ensures
            final(self).wf(),
            final(self).frames@ == old(self).frames@,
            final(self).windows@.len() == old(self).windows@.len(),
            found == old(self).has_frame(target),
            !found ==> final(self).windows@ == old(self).windows@,
            found ==> forall|i: int|
                0 <= i < old(self).windows@.len() ==> (#[trigger] final(self).windows@[i])
                    == win_focused(old(self).windows@[i], target),
            found ==> final(self).windows@[old(self).frame_at(target)].vis
                == Visibility::VisibleFocused,
    {
        let ghost pre = *self;
        let n = self.windows.len();
        let mut target_idx: Option<usize> = None;
        let mut i: usize = 0;
        while i < n
            invariant
                *self == pre,
                pre.wf(),
                n == pre.windows@.len(),
                i <= n,
                match target_idx {
                    Some(fi) => fi < n && pre.windows@[fi as int].frame == target,
                    None => forall|j: int|
                        0 <= j < i ==> (#[trigger] pre.windows@[j]).frame != target,
                },
            decreases n - i,
        {
            if target_idx.is_none() && self.windows[i].frame == target {
                target_idx = Some(i);
            }
            i = i + 1;
        }
        match target_idx {
            None => {
                proof {
                    assert(!pre.has_frame(target));
                }
                false
            },
            Some(fi) => {
                self.demote_focused();
                let ghost mid = *self;
                let mut w = self.windows.remove(fi);
                w.vis = Visibility::VisibleFocused;
                self.windows.insert(fi, w);
                proof {
                    assert(self.windows@ =~= mid.windows@.update(
                        fi as int,
                        (ManagedWindow {
                            vis: Visibility::VisibleFocused,
                            ..mid.windows@[fi as int]
                        }),
                    ));
                    assert forall|j: int| 0 <= j < pre.windows@.len() implies (#[trigger] self
                        .windows@[j]) == win_focused(pre.windows@[j], target) by {
                        assert(mid.windows@[j] == demote(pre.windows@[j]));
                        if j != fi {
                            assert(pre.windows@[fi as int].frame == target);
                            assert(pre.windows@[j].frame != target);
                        }
                    }
                    self.lemma_wf_same_ids(pre);
                    assert forall|g: int| 0 <= g < self.windows@.len() implies geom_ok(
                        #[trigger] self.windows@[g],
                    ) by {
                        assert(geom_ok(pre.windows@[g]));
                    }
                    assert(self.at_most_one_focused()) by {
                        assert forall|a: int, b: int|
                            0 <= a < self.windows@.len() && 0 <= b < self.windows@.len() && (
                            #[trigger] self.windows@[a]).vis == Visibility::VisibleFocused && (
                            #[trigger] self.windows@[b]).vis == Visibility::VisibleFocused implies a
                            == b by {
                            if a != fi {
                                assert(self.windows@[a] == demote(pre.windows@[a]));
                            }
                            if b != fi {
                                assert(self.windows@[b] == demote(pre.windows@[b]));
                            }
                        }
                    }
                    assert(pre.has_frame(target));
                    let ti = pre.frame_at(target);
                    assert(pre.windows@[ti].frame == target);
                    assert(ti == fi as int);
                }
                true
            },
        }
    }

    /// Finds the indices of every record whose title equals `title`, in
    /// registry order.
    pub fn findwindow(&self, title: &Vec<u8>) -> (r: Vec<usize>)
        ensures
            forall|a: int, b: int| 0 <= a < b < r@.len() ==> r@[a] < r@[b],
            forall|a: int|
                0 <= a < r@.len() ==> (#[trigger] r@[a]) < self.windows@.len()
                    && self.windows@[r@[a] as int].title@ == title@,
            forall|j: int|
                0 <= j < self.windows@.len() && (#[trigger] self.windows@[j]).title@ == title@
                    ==> exists|a: int| 0 <= a < r@.len() && #[trigger] r@[a] == j,
    {
        let mut r: Vec<usize> = Vec::new();
        let mut i: usize = 0;
        while i < self.windows.len()
            invariant
                i <= self.windows@.len(),
                forall|a: int, b: int| 0 <= a < b < r@.len() ==> r@[a] < r@[b],
                forall|a: int| 0 <= a < r@.len() ==> (#[trigger] r@[a]) < i,
                forall|a: int|
                    0 <= a < r@.len() ==> self.windows@[(#[trigger] r@[a]) as int].title@
                        == title@,
                forall|j: int|
                    0 <= j < i && (#[trigger] self.windows@[j]).title@ == title@ ==> exists|a: int|
                        0 <= a < r@.len() && #[trigger] r@[a] == j,
            decreases self.windows@.len() - i,
        {
            let ghost r0 = r@;
            if crate::text::bytes_eq(&self.windows[i].title, title) {
                r.push(i);
                proof {
                    assert forall|j: int|
                        0 <= j < i + 1 && (#[trigger] self.windows@[j]).title@ == title@ implies
                        exists|a: int| 0 <= a < r@.len() && #[trigger] r@[a] == j by {
                        if j == i as int {
                            assert(r@[r@.len() - 1] == j);
                        } else {
                            let a = choose|a: int| 0 <= a < r0.len() && #[trigger] r0[a] == j;
                            assert(r@[a] == j);
                        }
                    }
                }
            }
            i = i + 1;
        }
        r
    }

    /// Index of the link whose key is `frame`.
    pub open spec fn link_of(self, frame: u32) -> int {
        choose|k: int| 0 <= k < self.frames@.len() && (#[trigger] self.frames@[k]).frame == frame
    }

    /// Removes the record for `window` and its frame link, both at once.  An
    /// unknown client is treated as already gone: nothing changes.
    pub fn removewindow(&mut self, window: u32)
        requires
            old(self).wf(),
        ensures
            final(self).wf(),
            !final(self).has_client(window),
            !old(self).has_client(window) ==> *final(self) == *old(self),
            old(self).has_client(window) ==> final(self).windows@ == old(self).windows@.remove(
                old(self).client_at(window),
            ),
            old(self).has_client(window) ==> final(self).frames@ == old(self).frames@.remove(
                old(self).link_of(old(self).windows@[old(self).client_at(window)].frame),
            ),
    {
        let ghost pre = *self;
        let n = self.windows.len();
        let mut found: Option<usize> = None;
        let mut i: usize = 0;
        while i < n
            invariant
                *self == pre,
                pre.wf(),
                n == pre.windows@.len(),
                i <= n,
                match found {
                    Some(wi) => wi < n && pre.windows@[wi as int].window == window,
                    None => forall|j: int|
                        0 <= j < i ==> (#[trigger] pre.windows@[j]).window != window,
                },
            decreases n - i,
        {
            if found.is_none() && self.windows[i].window == window {
                found = Some(i);
            }
            i = i + 1;
        }
        match found {
            None => {
                proof {
                    assert(!pre.has_client(window));
                }
            },
            Some(wi) => {
                proof {
                    assert(pre.has_client(window));
                    let ci = pre.client_at(window);
                    assert(pre.windows@[ci].window == window);
                    assert(pre.windows@[wi as int].window == window);
                    if ci < wi as int {
                        assert(pre.windows@[ci].window != pre.windows@[wi as int].window);
                    }
                    if (wi as int) < ci {
                        assert(pre.windows@[wi as int].window != pre.windows@[ci].window);
                    }
                    assert(ci == wi as int);
                }
                let state = self.windows.remove(wi);
                let frame = state.frame;
                proof {
                    assert(pre.window_linked(wi as int));
                    let k0 = choose|k: int| pre.matches_link(wi as int, k);
                    assert(pre.frames@[k0].frame == frame);
                }
                let m = self.frames.len();
                let mut link_found: Option<usize> = None;
                let mut k: usize = 0;
                while k < m
                    invariant
                        self.frames@ == pre.frames@,
                        pre.wf(),
                        m == pre.frames@.len(),
                        k <= m,
                        match link_found {
                            Some(ki) => ki < m && pre.frames@[ki as int].frame == frame,
                            None => forall|l: int|
                                0 <= l < k ==> (#[trigger] pre.frames@[l]).frame != frame,
                        },
                    decreases m - k,
                {
                    if link_found.is_none() && self.frames[k].frame == frame {
                        link_found = Some(k);
                    }
                    k = k + 1;
                }
                match link_found {
                    None => {
                        proof {
                            let k0 = choose|k: int| pre.matches_link(wi as int, k);
                            assert(pre.frames@[k0].frame == frame);
                            assert(false);
                        }
                    },
                    Some(ki) => {
                        self.frames.remove(ki);
                        proof {
                            let k0 = choose|k: int| pre.matches_link(wi as int, k);
                            if k0 < ki as int {
                                assert(pre.frames@[k0].frame != pre.frames@[ki as int].frame);
                            }
                            if (ki as int) < k0 {
                                assert(pre.frames@[ki as int].frame != pre.frames@[k0].frame);
                            }
                            assert(k0 == ki as int);
                            assert(pre.matches_link(wi as int, ki as int));
                            assert(pre.link_of(frame) == ki as int) by {
                                let lk = pre.link_of(frame);
                                assert(pre.frames@[ki as int].frame == frame);
                                assert(0 <= lk < pre.frames@.len() && pre.frames@[lk].frame
                                    == frame);
                                if lk < ki as int {
                                    assert(pre.frames@[lk].frame != pre.frames@[ki as int].frame);
                                }
                                if (ki as int) < lk {
                                    assert(pre.frames@[ki as int].frame != pre.frames@[lk].frame);
                                }
                            }
                            self.lemma_wf_after_remove(pre, wi as int, ki as int);
                            assert(!self.has_client(window)) by {
                                if exists|j: int|
                                    0 <= j < self.windows@.len() && (
                                    #[trigger] self.windows@[j]).window == window {
                                    let j = choose|j: int|
                                        0 <= j < self.windows@.len() && (
                                        #[trigger] self.windows@[j]).window == window;
                                    let oj = if j < wi as int {
                                        j
                                    } else {
                                        j + 1
                                    };
                                    assert(self.windows@[j] == pre.windows@[oj]);
                                    assert(pre.windows@[oj].window == pre.windows@[wi as int].window);
                                }
                            }
                        }
                    },
                }
            },
        }
    }

    /// Removing one record together with its own link keeps the registry
    /// well-formed.
    proof fn lemma_wf_after_remove(self, pre: WindowManager, wi: int, ki: int)
        requires
            pre.wf(),
            0 <= wi < pre.windows@.len(),
            0 <= ki < pre.frames@.len(),
            pre.matches_link(wi, ki),
            self.windows@ == pre.windows@.remove(wi),
            self.frames@ == pre.frames@.remove(ki),
        ensures
            self.wf(),
    {
        let wn = self.windows@.len() as int;
        let fn_ = self.frames@.len() as int;
        assert forall|i: int| 0 <= i < wn implies #[trigger] self.windows@[i] == (if i < wi {
            pre.windows@[i]
        } else {
            pre.windows@[i + 1]
        }) by {}
        assert forall|k: int| 0 <= k < fn_ implies #[trigger] self.frames@[k] == (if k < ki {
            pre.frames@[k]
        } else {
            pre.frames@[k + 1]
        }) by {}
        assert(self.distinct_clients());
        assert(self.distinct_frames());
        assert(self.at_most_one_focused());
        assert forall|i: int| 0 <= i < wn implies geom_ok(#[trigger] self.windows@[i]) by {
            let oi = if i < wi { i } else { i + 1 };
            assert(geom_ok(pre.windows@[oi]));
        }
        assert forall|k: int| 0 <= k < fn_ implies #[trigger] self.link_resolves(k) by {
            let ok = if k < ki { k } else { k + 1 };
            assert(pre.link_resolves(ok));
            let i0 = choose|i: int| pre.matches_link(i, ok);
            assert(i0 != wi) by {
                if i0 == wi {
                    assert(pre.frames@[ok].frame == pre.windows@[wi].frame);
                    assert(pre.frames@[ki].frame == pre.windows@[wi].frame);
                    if ok < ki {
                        assert(pre.frames@[ok].frame != pre.frames@[ki].frame);
                    }
                    if ki < ok {
                        assert(pre.frames@[ki].frame != pre.frames@[ok].frame);
                    }
                }
            }
            let ni = if i0 < wi { i0 } else { i0 - 1 };
            assert(self.windows@[ni] == pre.windows@[i0]);
            assert(self.matches_link(ni, k));
        }
        assert forall|i: int| 0 <= i < wn implies #[trigger] self.window_linked(i) by {
            let oi = if i < wi { i } else { i + 1 };
            assert(pre.window_linked(oi));
            let k0 = choose|k: int| pre.matches_link(oi, k);
            assert(k0 != ki) by {
                if k0 == ki {
                    assert(pre.windows@[oi].frame == pre.frames@[ki].frame);
                    assert(pre.windows@[wi].frame == pre.frames@[ki].frame);
                    if oi < wi {
                        assert(pre.windows@[oi].frame != pre.windows@[wi].frame);
                    }
                    if wi < oi {
                        assert(pre.windows@[wi].frame != pre.windows@[oi].frame);
                    }
                }
            }
            let nk = if k0 < ki { k0 } else { k0 - 1 };
            assert(self.frames@[nk] == pre.frames@[k0]);
            assert(self.matches_link(i, nk));
        }
    }

    /// Moves the record for `window` into a freshly created frame: the
    /// record's frame field and its link change to `newframe` together, so
    /// the association stays bidirectional.
    pub fn relinkframe(&mut self, window: u32, newframe: u32)
        requires
            old(self).wf(),
            old(self).has_client(window),
            !old(self).has_frame(newframe),
            !old(self).has_link(newframe),
        ensures
            final(self).wf(),
            final(self).windows@ == old(self).windows@.update(
                old(self).client_at(window),
                (ManagedWindow {
                    frame: newframe,
                    ..old(self).windows@[old(self).client_at(window)]
                }),
            ),
            final(self).frames@ == old(self).frames@.update(
                old(self).link_of(old(self).windows@[old(self).client_at(window)].frame),
                (FrameLink { frame: newframe, window }),
            ),
            final(self).has_frame(newframe),
    {
        let ghost pre = *self;
        let n = self.windows.len();
        let mut found: Option<usize> = None;
        let mut i: usize = 0;
        while i < n
            invariant
                *self == pre,
                pre.wf(),
                n == pre.windows@.len(),
                i <= n,
                match found {
                    Some(wi) => wi < n && pre.windows@[wi as int].window == window,
                    None => forall|j: int|
                        0 <= j < i ==> (#[trigger] pre.windows@[j]).window != window,
                },
            decreases n - i,
        {
            if found.is_none() && self.windows[i].window == window {
                found = Some(i);
            }
            i = i + 1;
        }
        match found {
            None => {
                proof {
                    assert(!pre.has_client(window));
                    assert(false);
                }
            },
            Some(wi) => {
                proof {
                    let ci = pre.client_at(window);
                    assert(pre.windows@[ci].window == window);
                    assert(pre.windows@[wi as int].window == window);
                    if ci < wi as int {
                        assert(pre.windows@[ci].window != pre.windows@[wi as int].window);
                    }
                    if (wi as int) < ci {
                        assert(pre.windows@[wi as int].window != pre.windows@[ci].window);
                    }
                    assert(ci == wi as int);
                }
                let mut w = self.windows.remove(wi);
                let oldframe = w.frame;
                w.frame = newframe;
                self.windows.insert(wi, w);
                proof {
                    assert(self.windows@ =~= pre.windows@.update(
                        wi as int,
                        (ManagedWindow { frame: newframe, ..pre.windows@[wi as int] }),
                    ));
                    assert(pre.window_linked(wi as int));
                    let k0 = choose|k: int| pre.matches_link(wi as int, k);
                    assert(pre.frames@[k0].frame == oldframe);
                }
                let m = self.frames.len();
                let mut link_found: Option<usize> = None;
                let mut k: usize = 0;
                while k < m
                    invariant
                        self.frames@ == pre.frames@,
                        pre.wf(),
                        m == pre.frames@.len(),
                        k <= m,
                        match link_found {
                            Some(ki) => ki < m && pre.frames@[ki as int].frame == oldframe,
                            None => forall|l: int|
                                0 <= l < k ==> (#[trigger] pre.frames@[l]).frame != oldframe,
                        },
                    decreases m - k,
                {
                    if link_found.is_none() && self.frames[k].frame == oldframe {
                        link_found = Some(k);
                    }
                    k = k + 1;
                }
                match link_found {
                    None => {
                        proof {
                            let k0 = choose|k: int| pre.matches_link(wi as int, k);
                            assert(pre.frames@[k0].frame == oldframe);
                            assert(false);
                        }
                    },
                    Some(ki) => {
                        self.frames.set(ki, FrameLink { frame: newframe, window });
                        proof {
                            let k0 = choose|k: int| pre.matches_link(wi as int, k);
                            if k0 < ki as int {
                                assert(pre.frames@[k0].frame != pre.frames@[ki as int].frame);
                            }
                            if (ki as int) < k0 {
                                assert(pre.frames@[ki as int].frame != pre.frames@[k0].frame);
                            }
                            assert(k0 == ki as int);
                            assert(pre.link_of(oldframe) == ki as int) by {
                                let lk = pre.link_of(oldframe);
                                assert(pre.frames@[ki as int].frame == oldframe);
                                assert(0 <= lk < pre.frames@.len() && pre.frames@[lk].frame
                                    == oldframe);
                                if lk < ki as int {
                                    assert(pre.frames@[lk].frame != pre.frames@[ki as int].frame);
                                }
                                if (ki as int) < lk {
                                    assert(pre.frames@[ki as int].frame != pre.frames@[lk].frame);
                                }
                            }
                            self.lemma_wf_after_relink(pre, wi as int, ki as int, newframe);
                            assert(self.windows@[wi as int].frame == newframe);
                        }
                    },
                }
            },
        }
    }

    /// Changing one record's frame id together with its own link, to a frame
    /// id nobody used, keeps the registry well-formed.
    proof fn lemma_wf_after_relink(self, pre: WindowManager, wi: int, ki: int, newframe: u32)
        requires
            pre.wf(),
            0 <= wi < pre.windows@.len(),
            0 <= ki < pre.frames@.len(),
            pre.matches_link(wi, ki),
            !pre.has_frame(newframe),
            self.windows@ == pre.windows@.update(
                wi,
                (ManagedWindow { frame: newframe, ..pre.windows@[wi] }),
            ),
            self.frames@ == pre.frames@.update(
                ki,
                (FrameLink { frame: newframe, window: pre.windows@[wi].window }),
            ),
        ensures
            self.wf(),
    {
        assert(self.distinct_clients());
        assert(self.distinct_frames()) by {
            assert forall|i: int, j: int| 0 <= i < j < self.windows@.len() implies (
            #[trigger] self.windows@[i]).frame != (#[trigger] self.windows@[j]).frame by {
                if i != wi && j != wi {
                    assert(self.windows@[i] == pre.windows@[i]);
                    assert(self.windows@[j] == pre.windows@[j]);
                } else if i == wi {
                    assert(pre.windows@[j].frame != newframe);
                } else {
                    assert(pre.windows@[i].frame != newframe);
                }
            }
        }
        assert(self.at_most_one_focused());
        assert forall|i: int| 0 <= i < self.windows@.len() implies geom_ok(
            #[trigger] self.windows@[i],
        ) by {
            assert(geom_ok(pre.windows@[i]));
        }
        assert forall|k: int, l: int| 0 <= k < l < self.frames@.len() implies (
        #[trigger] self.frames@[k]).frame != (#[trigger] self.frames@[l]).frame by {
            if k != ki && l != ki {
                assert(self.frames@[k] == pre.frames@[k]);
                assert(self.frames@[l] == pre.frames@[l]);
            } else if k == ki {
                assert(pre.link_resolves(l));
                let i0 = choose|i: int| pre.matches_link(i, l);
                assert(pre.windows@[i0].frame != newframe);
            } else {
                assert(pre.link_resolves(k));
                let i0 = choose|i: int| pre.matches_link(i, k);
                assert(pre.windows@[i0].frame != newframe);
            }
        }
        assert forall|k: int| 0 <= k < self.frames@.len() implies #[trigger] self.link_resolves(
            k,
        ) by {
            if k == ki {
                assert(self.matches_link(wi, k));
            } else {
                assert(pre.link_resolves(k));
                let i0 = choose|i: int| pre.matches_link(i, k);
                assert(i0 != wi) by {
                    if i0 == wi {
                        assert(pre.frames@[k].frame == pre.windows@[wi].frame);
                        assert(pre.frames@[ki].frame == pre.windows@[wi].frame);
                        if k < ki {
                            assert(pre.frames@[k].frame != pre.frames@[ki].frame);
                        }
                        if ki < k {
                            assert(pre.frames@[ki].frame != pre.frames@[k].frame);
                        }
                    }
                }
                assert(self.windows@[i0] == pre.windows@[i0]);
                assert(self.matches_link(i0, k));
            }
        }
        assert forall|i: int| 0 <= i < self.windows@.len() implies #[trigger] self.window_linked(
            i,
        ) by {
            if i == wi {
                assert(self.matches_link(i, ki));
            } else {
                assert(pre.window_linked(i));
                let k0 = choose|k: int| pre.matches_link(i, k);
                assert(k0 != ki) by {
                    if k0 == ki {
                        assert(pre.windows@[i].frame == pre.frames@[ki].frame);
                        assert(pre.windows@[wi].frame == pre.frames@[ki].frame);
                        if i < wi {
                            assert(pre.windows@[i].frame != pre.windows@[wi].frame);
                        }
                        if wi < i {
                            assert(pre.windows@[wi].frame != pre.windows@[i].frame);
                        }
                    }
                }
                assert(self.frames@[k0] == pre.frames@[k0]);
                assert(self.matches_link(i, k0));
            }
        }
    }

    /// Assigns an order number to every record that has none (order 0): the
    /// next integers above the current maximum, in record order, so that
    /// orders assigned from scratch come out as 1, 2, 3, ...
    pub fn fillblanks(&mut self)
        requires
            old(self).wf(),
            max_order(old(self).windows@) + zeros_before(
                old(self).windows@,
                old(self).windows@.len() as int,
            ) <= 255,
        ensures
            final(self).wf(),
            final(self).frames@ == old(self).frames@,
            final(self).windows@.len() == old(self).windows@.len(),
            forall|i: int|
                0 <= i < old(self).windows@.len() ==> (#[trigger] final(self).windows@[i])
                    == (ManagedWindow {
                    order: filled_order(old(self).windows@, i) as u8,
                    ..old(self).windows@[i]
                }),
    {
        let ghost pre = *self;
        let n = self.windows.len();
        let mut mx: u8 = 0;
        let mut i: usize = 0;
        while i < n
            invariant
                *self == pre,
                pre.wf(),
                n == pre.windows@.len(),
                i <= n,
                mx as int == max_order(pre.windows@.subrange(0, i as int)),
            decreases n - i,
        {
            if self.windows[i].order > mx {
                mx = self.windows[i].order;
            }
            i = i + 1;
            proof {
                assert(pre.windows@.subrange(0, i as int).drop_last() =~= pre.windows@.subrange(
                    0,
                    i as int - 1,
                ));
                assert(pre.windows@.subrange(0, i as int).last() == pre.windows@[i as int - 1]);
            }
        }
        proof {
            assert(pre.windows@.subrange(0, n as int) =~= pre.windows@);
            assert(mx as int == max_order(pre.windows@));
            lemma_zeros_before_monotone(pre.windows@, 0, n as int);
        }
        let mut assigned: u8 = 0;
        let mut i: usize = 0;
        while i < n
            invariant
                pre.wf(),
                max_order(pre.windows@) + zeros_before(pre.windows@, n as int) <= 255,
                mx as int == max_order(pre.windows@),
                n == pre.windows@.len(),
                i <= n,
                self.frames@ == pre.frames@,
                self.windows@.len() == n,
                assigned as int == zeros_before(pre.windows@, i as int),
                forall|j: int|
                    0 <= j < i ==> (#[trigger] self.windows@[j]) == (ManagedWindow {
                        order: filled_order(pre.windows@, j) as u8,
                        ..pre.windows@[j]
                    }),
                forall|j: int| i <= j < n ==> (#[trigger] self.windows@[j]) == pre.windows@[j],
            decreases n - i,
        {
            proof {
                lemma_zeros_before_monotone(pre.windows@, i as int + 1, n as int);
            }
            if self.windows[i].order == 0 {
                let mut w = self.windows.remove(i);
                let ghost snap = self.windows@;
                w.order = mx + 1 + assigned;
                self.windows.insert(i, w);
                assigned = assigned + 1;
                proof {
                    assert(self.windows@ =~= snap.insert(i as int, (ManagedWindow {
                        order: (mx + 1 + assigned - 1) as u8,
                        ..pre.windows@[i as int]
                    })));
                    assert forall|j: int| 0 <= j < i + 1 implies (#[trigger] self.windows@[j])
                        == (ManagedWindow {
                        order: filled_order(pre.windows@, j) as u8,
                        ..pre.windows@[j]
                    }) by {}
                }
            }
            i = i + 1;
        }
        proof {
            self.lemma_wf_same_ids(pre);
            assert forall|g: int| 0 <= g < self.windows@.len() implies geom_ok(
                #[trigger] self.windows@[g],
            ) by {
                assert(geom_ok(pre.windows@[g]));
            }
            assert(self.at_most_one_focused()) by {
                assert forall|a: int, b: int|
                    0 <= a < self.windows@.len() && 0 <= b < self.windows@.len() && (
                    #[trigger] self.windows@[a]).vis == Visibility::VisibleFocused && (
                    #[trigger] self.windows@[b]).vis == Visibility::VisibleFocused implies a
                    == b by {
                    assert(self.windows@[a].vis == pre.windows@[a].vis);
                    assert(self.windows@[b].vis == pre.windows@[b].vis);
                }
            }
            assert(self.wf());
        }
    }

    /// Commits a new position for the window owning frame `target`, as a
    /// drag release does.  An unknown frame changes nothing.
    pub fn movewindow(&mut self, target: u32, x: i64, y: i64) -> (found: bool)
        requires
            old(self).wf(),
            -0x8000 <= x <= 0x8000,
            -0x8000 <= y <= 0x8000,
        ensures
            final(self).wf(),
            final(self).frames@ == old(self).frames@,
            final(self).windows@.len() == old(self).windows@.len(),
            found == old(self).has_frame(target),
            !found ==> final(self).windows@ == old(self).windows@,
            found ==> forall|i: int|
                0 <= i < old(self).windows@.len() ==> (#[trigger] final(self).windows@[i]) == (if
                old(self).windows@[i].frame == target {
                    ManagedWindow { x: x as i64, y: y as i64, ..old(self).windows@[i] }
                } else {
                    old(self).windows@[i]
                }),
    {
        let ghost pre = *self;
        let n = self.windows.len();
        let mut found_idx: Option<usize> = None;
        let mut i: usize = 0;
        while i < n
            invariant
                *self == pre,
                pre.wf(),
                n == pre.windows@.len(),
                i <= n,
                match found_idx {
                    Some(fi) => fi < n && pre.windows@[fi as int].frame == target,
                    None => forall|j: int|
                        0 <= j < i ==> (#[trigger] pre.windows@[j]).frame != target,
                },
            decreases n - i,
        {
            if found_idx.is_none() && self.windows[i].frame == target {
                found_idx = Some(i);
            }
            i = i + 1;
        }
        match found_idx {
            None => {
                proof {
                    assert(!pre.has_frame(target));
                }
                false
            },
            Some(fi) => {
                let mut w = self.windows.remove(fi);
                w.x = x;
                w.y = y;
                self.windows.insert(fi, w);
                proof {
                    assert(self.windows@ =~= pre.windows@.update(
                        fi as int,
                        (ManagedWindow { x: x as i64, y: y as i64, ..pre.windows@[fi as int] }),
                    ));
                    assert forall|j: int| 0 <= j < pre.windows@.len() implies (#[trigger] self
                        .windows@[j]) == (if pre.windows@[j].frame == target {
                        ManagedWindow { x: x as i64, y: y as i64, ..pre.windows@[j] }
                    } else {
                        pre.windows@[j]
                    }) by {
                        if j != fi && pre.windows@[j].frame == target {
                            if j < fi as int {
                                assert(pre.windows@[j].frame != pre.windows@[fi as int].frame);
                            } else {
                                assert(pre.windows@[fi as int].frame != pre.windows@[j].frame);
                            }
                        }
                    }
                    self.lemma_wf_same_ids(pre);
                    assert forall|g: int| 0 <= g < self.windows@.len() implies geom_ok(
                        #[trigger] self.windows@[g],
                    ) by {
                        assert(geom_ok(pre.windows@[g]));
                    }
                    assert(self.at_most_one_focused()) by {
                        assert forall|a: int, b: int|
                            0 <= a < self.windows@.len() && 0 <= b < self.windows@.len() && (
                            #[trigger] self.windows@[a]).vis == Visibility::VisibleFocused && (
                            #[trigger] self.windows@[b]).vis == Visibility::VisibleFocused implies a
                            == b by {
                            assert(self.windows@[a].vis == pre.windows@[a].vis);
                            assert(self.windows@[b].vis == pre.windows@[b].vis);
                        }
                    }
                    assert(self.wf());
                }
                true
            },
        }
    }

    /// Marks the record for `client` hidden-in-taskbar, as minimizing does.
    /// An unknown client changes nothing.
    pub fn hidewindow(&mut self, client: u32) -> (found: bool)
        requires
            old(self).wf(),
        ensures
            final(self).wf(),
            final(self).frames@ == old(self).frames@,
            final(self).windows@.len() == old(self).windows@.len(),
            found == old(self).has_client(client),
            !found ==> final(self).windows@ == old(self).windows@,
            found ==> forall|i: int|
                0 <= i < old(self).windows@.len() ==> (#[trigger] final(self).windows@[i]) == (if
                old(self).windows@[i].window == client {
                    ManagedWindow { vis: Visibility::HiddenTaskbar, ..old(self).windows@[i] }
                } else {
                    old(self).windows@[i]
                }),
    {
        let ghost pre = *self;
        let n = self.windows.len();
        let mut found_idx: Option<usize> = None;
        let mut i: usize = 0;
        while i < n
            invariant
                *self == pre,
                pre.wf(),
                n == pre.windows@.len(),
                i <= n,
                match found_idx {
                    Some(fi) => fi < n && pre.windows@[fi as int].window == client,
                    None => forall|j: int|
                        0 <= j < i ==> (#[trigger] pre.windows@[j]).window != client,
                },
            decreases n - i,
        {
            if found_idx.is_none() && self.windows[i].window == client {
                found_idx = Some(i);
            }
            i = i + 1;
        }
        match found_idx {
            None => {
                proof {
                    assert(!pre.has_client(client));
                }
                false
            },
            Some(fi) => {
                let mut w = self.windows.remove(fi);
                w.vis = Visibility::HiddenTaskbar;
                self.windows.insert(fi, w);
                proof {
                    assert(self.windows@ =~= pre.windows@.update(
                        fi as int,
                        (ManagedWindow {
                            vis: Visibility::HiddenTaskbar,
                            ..pre.windows@[fi as int]
                        }),
                    ));
                    assert forall|j: int| 0 <= j < pre.windows@.len() implies (#[trigger] self
                        .windows@[j]) == (if pre.windows@[j].window == client {
                        ManagedWindow { vis: Visibility::HiddenTaskbar, ..pre.windows@[j] }
                    } else {
                        pre.windows@[j]
                    }) by {
                        if j != fi && pre.windows@[j].window == client {
                            if j < fi as int {
                                assert(pre.windows@[j].window != pre.windows@[fi as int].window);
                            } else {
                                assert(pre.windows@[fi as int].window != pre.windows@[j].window);
                            }
                        }
                    }
                    self.lemma_wf_same_ids(pre);
                    assert forall|g: int| 0 <= g < self.windows@.len() implies geom_ok(
                        #[trigger] self.windows@[g],
                    ) by {
                        assert(geom_ok(pre.windows@[g]));
                    }
                    assert(self.at_most_one_focused()) by {
                        assert forall|a: int, b: int|
                            0 <= a < self.windows@.len() && 0 <= b < self.windows@.len() && (
                            #[trigger] self.windows@[a]).vis == Visibility::VisibleFocused && (
                            #[trigger] self.windows@[b]).vis == Visibility::VisibleFocused implies a
                            == b by {
                            if a != fi {
                                assert(self.windows@[a].vis == pre.windows@[a].vis);
                            }
                            if b != fi {
                                assert(self.windows@[b].vis == pre.windows@[b].vis);
                            }
                        }
                    }
                    assert(self.wf());
                }
                true
            },
        }
    }

    /// In a well-formed registry a frame id without a link is carried by no
    /// record either.
    pub proof fn lemma_unlinked_frame(self, f: u32)
        requires
            self.wf(),
            !self.has_link(f),
        ensures
            !self.has_frame(f),
    {
        if self.has_frame(f) {
            let i = self.frame_at(f);
            assert(self.windows@[i].frame == f);
            assert(self.window_linked(i));
            let k = choose|k: int| self.matches_link(i, k);
            assert(self.frames@[k].frame == f);
        }
    }

    /// Registers a window that exists on the display: the record is created
    /// with the default visibility, merely visible and unfocused, leaving
    /// every other record as it was.  A caller that wants the new window
    /// focused on creation inserts a focused record through `insertwindow`.
    pub fn installexternalwindow(
        &mut self,
        window: u32,
        frame: u32,
        title: Vec<u8>,
        x: i64,
        y: i64,
        width: i64,
        height: i64,
        order: u8,
    )
        requires
            old(self).wf(),
            !old(self).has_client(window),
            !old(self).has_frame(frame),
            !old(self).has_link(frame),
            -0x8000 <= x <= 0x8000,
            -0x8000 <= y <= 0x8000,
            0 <= width <= 0x8000,
            0 <= height <= 0x8000,
        ensures
            final(self).wf(),
            final(self).windows@.len() == old(self).windows@.len() + 1,
            final(self).windows@.last() == (ManagedWindow {
                window,
                frame,
                title: final(self).windows@.last().title,
                x,
                y,
                width,
                height,
                vis: Visibility::VisibleUnfocused,
                order,
            }),
            final(self).windows@.last().title@ == title@,
            final(self).frames@ == old(self).frames@.push((FrameLink { frame, window })),
            forall|i: int|
                0 <= i < old(self).windows@.len() ==> (#[trigger] final(self).windows@[i]) == old(
                    self,
                ).windows@[i],
    {
        let ghost t = title@;
        let state = ManagedWindow {
            window,
            frame,
            title,
            x,
            y,
            width,
            height,
            vis: Visibility::VisibleUnfocused,
            order,
        };
        self.insertwindow(state);
    }
}

/// Every order number in `s` is at most the maximum.
proof fn lemma_max_order_ge_elem(s: Seq<ManagedWindow>, i: int)
    requires
        0 <= i < s.len(),
    ensures
        s[i].order <= max_order(s),
    decreases s.len(),
{
    if i + 1 < s.len() {
        lemma_max_order_ge_elem(s.drop_last(), i);
    }
}

/// A bound on every order number bounds the maximum.
proof fn lemma_max_order_le(s: Seq<ManagedWindow>, bound: int)
    requires
        0 <= bound,
        forall|i: int| 0 <= i < s.len() ==> (#[trigger] s[i]).order <= bound,
    ensures
        max_order(s) <= bound,
    decreases s.len(),
{
    if s.len() > 0 {
        lemma_max_order_le(s.drop_last(), bound);
    }
}

/// Every rank below the total count of unassigned records is taken by some
/// unassigned record.
proof fn lemma_zeros_before_attained(s: Seq<ManagedWindow>, n: int, t: int)
    requires
        0 <= n <= s.len(),
        0 <= t < zeros_before(s, n),
    ensures
        exists|i: int|
            0 <= i < n && (#[trigger] s[i]).order == 0 && zeros_before(s, i) == t,
    decreases n,
{
    if n > 0 {
        if s[n - 1].order == 0 && t == zeros_before(s, n - 1) {
            assert(s[n - 1].order == 0 && zeros_before(s, n - 1) == t);
        } else {
            lemma_zeros_before_attained(s, n - 1, t);
        }
    }
}

/// Some record in `s` carries the order value `v`.
pub open spec fn order_taken(s: Seq<ManagedWindow>, v: int) -> bool {
    exists|i: int| 0 <= i < s.len() && (#[trigger] s[i]).order == v
}

/// Some record in `s` carries the order value `v` once the blanks are filled.
pub open spec fn filled_order_taken(s: Seq<ManagedWindow>, v: int) -> bool {
    exists|i: int| 0 <= i < s.len() && #[trigger] filled_order(s, i) == v
}

/// Law: `fillblanks` applied to a registry whose assigned (positive) orders
/// are exactly the values 1..M, each once, yields orders that form a
/// permutation of 1..K over all windows, K being the window count: every
/// resulting order lies in 1..K, no two windows share one, and every value in
/// 1..K is taken.
pub proof fn lemma_fillblanks_permutation(s: Seq<ManagedWindow>)
    requires
        forall|i: int, j: int|
            0 <= i < j < s.len() && (#[trigger] s[i]).order != 0 && (#[trigger] s[j]).order != 0
                ==> s[i].order != s[j].order,
        forall|i: int|
            0 <= i < s.len() && (#[trigger] s[i]).order != 0 ==> 1 <= s[i].order <= s.len()
                - zeros_before(s, s.len() as int),
        forall|v: int|
            1 <= v <= s.len() - zeros_before(s, s.len() as int) ==> #[trigger] order_taken(s, v),
    ensures
        forall|i: int| 0 <= i < s.len() ==> 1 <= #[trigger] filled_order(s, i) <= s.len(),
        forall|i: int, j: int|
            0 <= i < j < s.len() ==> #[trigger] filled_order(s, i) != #[trigger] filled_order(
                s,
                j,
            ),
        forall|v: int| 1 <= v <= s.len() ==> #[trigger] filled_order_taken(s, v),
{
    let n = s.len() as int;
    let z = zeros_before(s, n);
    let m = n - z;
    lemma_zeros_before_monotone(s, 0, n);
    assert(z >= 0);
    assert(m <= n);
    assert(max_order(s) == m) by {
        lemma_zeros_before_le(s, n);
        assert(0 <= m);
        lemma_max_order_le(s, m);
        if m >= 1 {
            assert(order_taken(s, m));
            let i = choose|i: int| 0 <= i < s.len() && (#[trigger] s[i]).order == m;
            lemma_max_order_ge_elem(s, i);
        }
    }
    assert forall|i: int| 0 <= i < n implies 1 <= #[trigger] filled_order(s, i) <= n by {
        if s[i].order == 0 {
            assert(zeros_before(s, i + 1) == zeros_before(s, i) + 1);
            lemma_zeros_before_monotone(s, 0, i);
            lemma_zeros_before_monotone(s, i + 1, n);
        }
    }
    assert forall|i: int, j: int| 0 <= i < j < n implies #[trigger] filled_order(s, i)
        != #[trigger] filled_order(s, j) by {
        if s[i].order == 0 && s[j].order == 0 {
            assert(zeros_before(s, i + 1) == zeros_before(s, i) + 1);
            lemma_zeros_before_monotone(s, i + 1, j);
        } else if s[i].order == 0 && s[j].order != 0 {
            lemma_zeros_before_monotone(s, 0, i);
        } else if s[i].order != 0 && s[j].order == 0 {
            lemma_zeros_before_monotone(s, 0, j);
        }
    }
    assert forall|v: int| 1 <= v <= n implies #[trigger] filled_order_taken(s, v) by {
        if v <= m {
            assert(order_taken(s, v));
            let i = choose|i: int| 0 <= i < s.len() && (#[trigger] s[i]).order == v;
            assert(filled_order(s, i) == v);
        } else {
            let t = v - m - 1;
            lemma_zeros_before_attained(s, n, t);
            let i = choose|i: int|
                0 <= i < n && (#[trigger] s[i]).order == 0 && zeros_before(s, i) == t;
            assert(filled_order(s, i) == v);
        }
    }
}

impl WindowManager {
    /// The frame link at `k` resolves: some window record carries both the
    /// link's client and the link's frame key.
    pub open spec fn frame_link_resolves(self, k: int) -> bool {
        exists|i: int|
            0 <= i < self.windows@.len() && (#[trigger] self.windows@[i]).window
                == self.frames@[k].window && self.windows@[i].frame == self.frames@[k].frame
    }

    /// Law: in any well-formed registry, every frame link resolves to a
    /// window record whose frame field equals the link's key; there are no
    /// orphan links.
    pub proof fn lemma_no_orphan_frames(self)
        requires
            self.wf(),
        ensures
            forall|k: int| 0 <= k < self.frames@.len() ==> #[trigger] self.frame_link_resolves(k),
    {
        assert forall|k: int| 0 <= k < self.frames@.len() implies #[trigger] self
            .frame_link_resolves(k) by {
            assert(self.link_resolves(k));
            let i = choose|i: int| self.matches_link(i, k);
            assert(0 <= i < self.windows@.len() && self.windows@[i].window
                == self.frames@[k].window && self.windows@[i].frame == self.frames@[k].frame);
        }
    }

    /// Law: after a focus call that found its frame, exactly one window is
    /// focused.  `post` is any registry state related to `pre` as the
    /// postcondition of `focus` describes.
    pub proof fn lemma_focus_exclusive(pre: WindowManager, post: WindowManager, target: u32)
        requires
            pre.wf(),
            pre.has_frame(target),
            post.windows@.len() == pre.windows@.len(),
            forall|i: int|
                0 <= i < pre.windows@.len() ==> (#[trigger] post.windows@[i]) == win_focused(
                    pre.windows@[i],
                    target,
                ),
        ensures
            exists|i: int|
                0 <= i < post.windows@.len() && (#[trigger] post.windows@[i]).vis
                    == Visibility::VisibleFocused,
            forall|i: int, j: int|
                0 <= i < post.windows@.len() && 0 <= j < post.windows@.len() && (
                #[trigger] post.windows@[i]).vis == Visibility::VisibleFocused && (
                #[trigger] post.windows@[j]).vis == Visibility::VisibleFocused ==> i == j,
    {
        let fi = pre.frame_at(target);
        assert(pre.windows@[fi].frame == target);
        assert(post.windows@[fi].vis == Visibility::VisibleFocused);
        assert forall|i: int, j: int|
            0 <= i < post.windows@.len() && 0 <= j < post.windows@.len() && (
            #[trigger] post.windows@[i]).vis == Visibility::VisibleFocused && (
            #[trigger] post.windows@[j]).vis == Visibility::VisibleFocused implies i == j by {
            assert(post.windows@[i] == win_focused(pre.windows@[i], target));
            assert(post.windows@[j] == win_focused(pre.windows@[j], target));
            if pre.windows@[i].frame == target && pre.windows@[j].frame == target {
                if i < j {
                    assert(pre.windows@[i].frame != pre.windows@[j].frame);
                }
                if j < i {
                    assert(pre.windows@[j].frame != pre.windows@[i].frame);
                }
            }
        }
    }
}

} // verus!
