//! The shell's event-level decisions: one structure owning the window
//! registry, the panel table and the interaction state, consuming plain
//! pointer and lifecycle events, and answering with display commands for
//! the caller to perform.  Handlers never draw: each accumulates a redraw
//! signal, and the event loop collects it once per iteration.

use vstd::prelude::*;
use crate::outline::Rect;
use crate::panel::{PanelTable, RegionKind, SlotKind, SubState, QL_BASE, SPACING};
use crate::registry::{win_focused, FrameLink, ManagedWindow, Visibility, WindowManager};

verus! {

/// A display request the shell asks its caller to perform.
#[derive(Clone, Copy, PartialEq, Eq, Structural, Debug)]
pub enum Command {
    /// Stack this frame directly beneath the panel.
    Restack {
        /// The frame to restack.
        frame: u32,
    },
    /// Commit this window position.
    MoveWindow {
        /// The frame to move.
        frame: u32,
        /// New x.
        x: i64,
        /// New y.
        y: i64,
    },
    /// Map (show) a window.
    MapWindow {
        /// The window to map.
        id: u32,
    },
    /// Unmap (hide) a window.
    UnmapWindow {
        /// The window to unmap.
        id: u32,
    },
    /// Release a frame and its resources after its client is gone.
    DestroyFrame {
        /// The frame to destroy.
        frame: u32,
    },
    /// Erase the previously drawn drag outline by drawing it once more.
    EraseOutline {
        /// Left edge of the outlined span.
        x: i64,
        /// Top edge.
        y: i64,
        /// Width.
        width: i64,
        /// Height.
        height: i64,
    },
    /// Draw the drag outline around a candidate window position.
    DrawOutline {
        /// Left edge of the outlined span.
        x: i64,
        /// Top edge.
        y: i64,
        /// Width.
        width: i64,
        /// Height.
        height: i64,
    },
    /// Fire the action bound to a quick-launch icon.
    LaunchIcon {
        /// The icon entry to launch.
        icon: u32,
    },
    /// Wrap a freshly managed client in a frame.
    CreateFrame {
        /// The client to wrap.
        window: u32,
    },
    /// Repaint every frame's border and title bar.
    RedrawBorders,
}

/// What the next redraw pass must cover.
#[derive(Clone, Copy, PartialEq, Eq, Structural, Debug)]
pub enum RedrawSignal {
    /// Nothing to redraw.
    Quiet,
    /// One panel region changed.
    Region(RegionKind),
    /// The whole panel changed.
    Full,
}

/// The stronger of two redraw signals: nothing is absorbed, two different
/// regions escalate to a full redraw.
pub open spec fn join_spec(a: RedrawSignal, b: RedrawSignal) -> RedrawSignal {
    match (a, b) {
        (RedrawSignal::Quiet, _) => b,
        (_, RedrawSignal::Quiet) => a,
        (RedrawSignal::Full, _) => RedrawSignal::Full,
        (_, RedrawSignal::Full) => RedrawSignal::Full,
        (RedrawSignal::Region(ra), RedrawSignal::Region(rb)) => if ra == rb {
            a
        } else {
            RedrawSignal::Full
        },
    }
}

/// An active outline drag: the dragged frame, where the pointer went down,
/// and where the window sat at that moment.  The three travel together so
/// that a half-populated session cannot exist.
#[derive(Clone, Copy, PartialEq, Eq, Structural, Debug)]
pub struct DragSession {
    /// The frame being dragged.
    pub frame: u32,
    /// Pointer-down x, in screen coordinates.
    pub press_x: i64,
    /// Pointer-down y.
    pub press_y: i64,
    /// Window origin x at pointer-down.
    pub origin_x: i64,
    /// Window origin y at pointer-down.
    pub origin_y: i64,
}

/// The shell's fixed configuration: the drag mode and the geometry set at
/// construction.  No event handler changes any of it.
pub open spec fn same_config(a: Shell, b: Shell) -> bool {
    &&& b.fastdrag == a.fastdrag
    &&& b.screen_height == a.screen_height
    &&& b.titlebar == a.titlebar
    &&& b.border == a.border
}

/// A coordinate committed to the display, held to its signed 16-bit range.
pub open spec fn clampcoord(v: int) -> int {
    if v < -0x8000 {
        -0x8000
    } else if v > 0x7fff {
        0x7fff
    } else {
        v
    }
}

/// The whole shell: registry, panel, interaction state and the pending
/// redraw signal.
pub struct Shell {
    /// The window registry.
    pub wm: WindowManager,
    /// The panel slot table.
    pub panel: PanelTable,
    /// The active drag, if one is under way.
    pub drag: Option<DragSession>,
    /// The outline drawn last, still on screen awaiting its erase.
    pub outline: Option<Rect>,
    /// The quick-launch slot currently drawn hovered, to be reset when the
    /// pointer leaves it.
    pub hovered: Option<usize>,
    /// The quick-launch slot last pressed, so a release elsewhere fires
    /// nothing.
    pub pressed: Option<usize>,
    /// The redraw the next pass must perform.
    pub pending: RedrawSignal,
    /// Whether dragging moves an outline only, committing on release.
    pub fastdrag: bool,
    /// Screen height in pixels.
    pub screen_height: i64,
    /// Height of the title bar band of a frame.
    pub titlebar: i64,
    /// Border width of a frame.
    pub border: i64,
}

impl Shell {
    /// Well-formedness: both components are well-formed, the fixed
    /// geometry is sane, and an active drag holds on-screen coordinates.
    pub open spec fn wf(self) -> bool {
        &&& self.wm.wf()
        &&& self.panel.wf()
        &&& 0 < self.titlebar <= 0x100
        &&& 0 <= self.border <= 0x100
        &&& 0 < self.screen_height <= 0x8000
        &&& match self.drag {
            Some(d) => -0x8000 <= d.press_x <= 0x8000 && -0x8000 <= d.press_y <= 0x8000
                && -0x8000 <= d.origin_x <= 0x8000 && -0x8000 <= d.origin_y <= 0x8000,
            None => true,
        }
    }

    /// A fresh shell for a screen of the given size, with an empty registry
    /// and a panel sized for `trayicons` notification icons.
    pub fn new(
        screen_width: i64,
        screen_height: i64,
        trayicons: u8,
        titlebar: i64,
        border: i64,
        fastdrag: bool,
    ) -> (s: Shell)
        requires
            0 < screen_height <= 0x8000,
            0 < titlebar <= 0x100,
            0 <= border <= 0x100,
            QL_BASE + 20 * trayicons + 60 + SPACING <= screen_width <= 0x8000,
        ensures
            s.wf(),
            s.wm.windows@.len() == 0,
            s.wm.frames@.len() == 0,
            s.panel.icon_count() == 0,
            s.panel.wb_count() == 0,
            s.drag is None,
            s.outline is None,
            s.hovered is None,
            s.pressed is None,
            s.pending == RedrawSignal::Full,
            s.fastdrag == fastdrag,
            s.screen_height == screen_height,
            s.titlebar == titlebar,
            s.border == border,
    {
        let trayw = crate::panel::traywidth(trayicons);
        Shell {
            wm: WindowManager::new(),
            panel: PanelTable::new(screen_width, trayw),
            drag: None,
            outline: None,
            hovered: None,
            pressed: None,
            pending: RedrawSignal::Full,
            fastdrag,
            screen_height,
            titlebar,
            border,
        }
    }

    /// Takes the accumulated redraw signal for this loop iteration and
    /// clears it, so each iteration performs at most one redraw pass.
    pub fn takeredraw(&mut self) -> (r: RedrawSignal)
        ensures
            r == old(self).pending,
            *final(self) == (Shell { pending: RedrawSignal::Quiet, ..*old(self) }),
    {
        let r = self.pending;
        self.pending = RedrawSignal::Quiet;
        r
    }

    /// Folds one more signal into the pending redraw.
    fn bump(&mut self, s: RedrawSignal)
        ensures
            *final(self) == (Shell { pending: join_spec(old(self).pending, s), ..*old(self) }),
    {
        self.pending = match (self.pending, s) {
            (RedrawSignal::Quiet, _) => s,
            (_, RedrawSignal::Quiet) => self.pending,
            (RedrawSignal::Full, _) => RedrawSignal::Full,
            (_, RedrawSignal::Full) => RedrawSignal::Full,
            (RedrawSignal::Region(ra), RedrawSignal::Region(rb)) => if ra == rb {
                self.pending
            } else {
                RedrawSignal::Full
            },
        };
    }

    /// Brings the window of client `client` to the front: maps it (and its
    /// frame) again if it was hidden in the taskbar, focuses it, and asks
    /// for a restack beneath the panel and a border repaint.  An unknown
    /// client is treated as already gone and nothing happens.
    pub fn focuswindow(&mut self, client: u32) -> (cmds: Vec<Command>)
        requires
            old(self).wf(),
        ensures
            final(self).wf(),
            final(self).panel == old(self).panel,
            final(self).drag == old(self).drag,
            final(self).outline == old(self).outline,
            final(self).pending == old(self).pending,
            final(self).hovered == old(self).hovered,
            final(self).pressed == old(self).pressed,
            same_config(*old(self), *final(self)),
            !old(self).wm.has_client(client) ==> *final(self) == *old(self) && cmds@
                == Seq::<Command>::empty(),
            old(self).wm.has_client(client) ==> {
                let m = old(self).wm.windows@[old(self).wm.client_at(client)];
                &&& final(self).wm.windows@.len() == old(self).wm.windows@.len()
                &&& final(self).wm.frames@ == old(self).wm.frames@
                &&& forall|i: int|
                    0 <= i < old(self).wm.windows@.len() ==> (#[trigger] final(self).wm.windows@[i]) == win_focused(
                        old(self).wm.windows@[i],
                        m.frame,
                    )
                &&& cmds@ == (if m.vis == Visibility::HiddenTaskbar {
                    seq![
                        (Command::MapWindow { id: client }),
                        (Command::MapWindow { id: m.frame }),
                    ]
                } else {
                    Seq::<Command>::empty()
                }) + seq![(Command::Restack { frame: m.frame }), (Command::RedrawBorders)]
            },
    {
        let mut cmds: Vec<Command> = Vec::new();
        let (frame, hidden) = match self.wm.getwindow(client) {
            Some(m) => (m.frame, m.vis == Visibility::HiddenTaskbar),
            None => {
                return cmds;
            },
        };
        if hidden {
            cmds.push(Command::MapWindow { id: client });
            cmds.push(Command::MapWindow { id: frame });
        }
        proof {
            let ci = self.wm.client_at(client);
            assert(self.wm.windows@[ci].frame == frame);
            assert(self.wm.has_frame(frame));
        }
        let found = self.wm.focus(frame);
        proof {
            assert(found);
        }
        cmds.push(Command::Restack { frame });
        cmds.push(Command::RedrawBorders);
        proof {
            let m = old(self).wm.windows@[old(self).wm.client_at(client)];
            if m.vis == Visibility::HiddenTaskbar {
                assert(cmds@ =~= seq![
                    (Command::MapWindow { id: client }),
                    (Command::MapWindow { id: m.frame }),
                    (Command::Restack { frame: m.frame }),
                    (Command::RedrawBorders),
                ]);
                assert(cmds@ =~= seq![
                    (Command::MapWindow { id: client }),
                    (Command::MapWindow { id: m.frame }),
                ] + seq![(Command::Restack { frame: m.frame }), (Command::RedrawBorders)]);
            } else {
                assert(cmds@ =~= Seq::<Command>::empty() + seq![
                    (Command::Restack { frame: m.frame }),
                    (Command::RedrawBorders),
                ]);
            }
        }
        cmds
    }

    /// A press on a managed frame (or on a client window directly): focuses
    /// its window, and if the press landed on the frame itself within the
    /// title-bar band, begins a drag session capturing the pointer-down
    /// point and the window's origin.
    pub fn pressframe(&mut self, target: u32, event_y: i64, root_x: i64, root_y: i64) -> (cmds:
        Vec<Command>)
        requires
            old(self).wf(),
            -0x8000 <= event_y <= 0x8000,
            -0x8000 <= root_x <= 0x8000,
            -0x8000 <= root_y <= 0x8000,
        ensures
            final(self).wf(),
            final(self).panel == old(self).panel,
            final(self).outline == old(self).outline,
            final(self).hovered == old(self).hovered,
            final(self).pressed == old(self).pressed,
            same_config(*old(self), *final(self)),
            !old(self).wm.has_link(target) && !old(self).wm.has_client(target) ==> *final(self)
                == *old(self) && cmds@ == Seq::<Command>::empty(),
            (old(self).wm.has_link(target) || old(self).wm.has_client(target)) ==> {
                let i = if old(self).wm.has_link(target) {
                    old(self).wm.frame_at(target)
                } else {
                    old(self).wm.client_at(target)
                };
                let m = old(self).wm.windows@[i];
                &&& final(self).wm.windows@.len() == old(self).wm.windows@.len()
                &&& final(self).wm.frames@ == old(self).wm.frames@
                &&& forall|j: int|
                    0 <= j < old(self).wm.windows@.len() ==> (#[trigger] final(self).wm.windows@[j]) == win_focused(
                        old(self).wm.windows@[j],
                        m.frame,
                    )
                &&& cmds@ == seq![
                    (Command::Restack { frame: m.frame }),
                    (Command::RedrawBorders),
                ]
                &&& final(self).drag == (if target == m.frame && event_y < old(self).titlebar {
                    Some(
                        (DragSession {
                            frame: m.frame,
                            press_x: root_x as i64,
                            press_y: root_y as i64,
                            origin_x: m.x,
                            origin_y: m.y,
                        }),
                    )
                } else {
                    old(self).drag
                })
                &&& final(self).pending == join_spec(
                    old(self).pending,
                    RedrawSignal::Region(RegionKind::WindowButtons),
                )
            },
    {
        let mut cmds: Vec<Command> = Vec::new();
        let looked: Option<(u32, i64, i64)> = match self.wm.getframe(target) {
            Some(m) => {
                proof {
                    let i = self.wm.frame_at(target);
                    assert(self.wm.window_linked(i));
                    let k = choose|k: int| self.wm.matches_link(i, k);
                    assert(self.wm.frames@[k].frame == target);
                    assert(self.wm.has_link(target));
                }
                Some((m.frame, m.x, m.y))
            },
            None => match self.wm.getwindow(target) {
                Some(m) => Some((m.frame, m.x, m.y)),
                None => None,
            },
        };
        let (frame, wx, wy) = match looked {
            Some(t) => t,
            None => {
                proof {
                    assert(!self.wm.has_link(target) && !self.wm.has_client(target));
                }
                return cmds;
            },
        };
        proof {
            if self.wm.has_link(target) {
                let i = self.wm.frame_at(target);
                assert(self.wm.windows@[i].frame == frame);
            } else {
                let i = self.wm.client_at(target);
                assert(self.wm.windows@[i].frame == frame);
            }
            assert(self.wm.has_frame(frame));
        }
        let found = self.wm.focus(frame);
        proof {
            assert(found);
        }
        if target == frame && event_y < self.titlebar {
            self.drag = Some(
                DragSession {
                    frame,
                    press_x: root_x,
                    press_y: root_y,
                    origin_x: wx,
                    origin_y: wy,
                },
            );
        }
        self.bump(RedrawSignal::Region(RegionKind::WindowButtons));
        cmds.push(Command::Restack { frame });
        cmds.push(Command::RedrawBorders);
        proof {
            assert(cmds@ =~= seq![
                (Command::Restack { frame }),
                (Command::RedrawBorders),
            ]);
        }
        cmds
    }
}

impl Shell {
    /// The commands that erase the outline still on screen, if one is.
    pub open spec fn erase_cmds(self) -> Seq<Command> {
        match self.outline {
            Some(p) => seq![
                (Command::EraseOutline { x: p.x, y: p.y, width: p.width, height: p.height }),
            ],
            None => Seq::<Command>::empty(),
        }
    }

    /// The on-screen width and height of the frame of record `m`: the
    /// client plus borders, plus the title bar in height.
    pub open spec fn frame_w(self, m: ManagedWindow) -> int {
        m.width + 2 * self.border
    }

    /// The on-screen height of the frame of record `m`.
    pub open spec fn frame_h(self, m: ManagedWindow) -> int {
        m.height + 2 * self.border + self.titlebar
    }

    /// Pointer motion while a drag session is active.  In outline mode the
    /// real window never moves: the previous outline is erased and a new
    /// one is drawn at the candidate position, origin plus the pointer's
    /// travel since the press.  In direct mode the window is repositioned
    /// on every motion.  Without a session nothing happens.
    pub fn dragmotion(&mut self, root_x: i64, root_y: i64) -> (cmds: Vec<Command>)
        requires
            old(self).wf(),
            -0x8000 <= root_x <= 0x8000,
            -0x8000 <= root_y <= 0x8000,
        ensures
            final(self).wf(),
            final(self).wm == old(self).wm,
            final(self).panel == old(self).panel,
            final(self).drag == old(self).drag,
            final(self).pending == old(self).pending,
            final(self).hovered == old(self).hovered,
            final(self).pressed == old(self).pressed,
            same_config(*old(self), *final(self)),
            old(self).fastdrag ==> forall|i: int|
                0 <= i < cmds@.len() ==> !((#[trigger] cmds@[i]) is MoveWindow),
            match old(self).drag {
                None => *final(self) == *old(self) && cmds@ == Seq::<Command>::empty(),
                Some(d) => {
                    let nx = d.origin_x + root_x - d.press_x;
                    let ny = d.origin_y + root_y - d.press_y;
                    &&& !old(self).fastdrag ==> final(self).outline == old(self).outline && cmds@
                        == seq![
                        (Command::MoveWindow { frame: d.frame, x: nx as i64, y: ny as i64 }),
                    ]
                    &&& (old(self).fastdrag && old(self).wm.has_link(d.frame)) ==> {
                        let m = old(self).wm.windows@[old(self).wm.frame_at(d.frame)];
                        let fw = old(self).frame_w(m);
                        let fh = old(self).frame_h(m);
                        if 8 <= fw && 8 <= fh {
                            cmds@ == old(self).erase_cmds() + seq![
                                (Command::DrawOutline {
                                    x: nx as i64,
                                    y: ny as i64,
                                    width: fw as i64,
                                    height: fh as i64,
                                }),
                            ] && final(self).outline == Some(
                                (Rect {
                                    x: nx as i64,
                                    y: ny as i64,
                                    width: fw as i64,
                                    height: fh as i64,
                                }),
                            )
                        } else {
                            cmds@ == old(self).erase_cmds() && final(self).outline is None
                        }
                    }
                    &&& (old(self).fastdrag && !old(self).wm.has_link(d.frame)) ==> cmds@
                        == old(self).erase_cmds() && final(self).outline is None
                },
            },
    {
        let mut cmds: Vec<Command> = Vec::new();
        let d = match self.drag {
            Some(d) => d,
            None => {
                return cmds;
            },
        };
        let nx = d.origin_x + root_x - d.press_x;
        let ny = d.origin_y + root_y - d.press_y;
        if !self.fastdrag {
            cmds.push(Command::MoveWindow { frame: d.frame, x: nx, y: ny });
            proof {
                assert(cmds@ =~= seq![(Command::MoveWindow { frame: d.frame, x: nx, y: ny })]);
            }
            return cmds;
        }
        match self.outline {
            Some(p) => {
                cmds.push(
                    Command::EraseOutline { x: p.x, y: p.y, width: p.width, height: p.height },
                );
            },
            None => {},
        }
        let dims = match self.wm.getframe(d.frame) {
            Some(m) => {
                proof {
                    let i = self.wm.frame_at(d.frame);
                    assert(self.wm.window_linked(i));
                    let k = choose|k: int| self.wm.matches_link(i, k);
                    assert(self.wm.frames@[k].frame == d.frame);
                    assert(self.wm.has_link(d.frame));
                }
                Some((m.width + 2 * self.border, m.height + 2 * self.border + self.titlebar))
            },
            None => None,
        };
        match dims {
            Some((fw, fh)) => {
                if 8 <= fw && 8 <= fh {
                    cmds.push(Command::DrawOutline { x: nx, y: ny, width: fw, height: fh });
                    self.outline = Some(Rect { x: nx, y: ny, width: fw, height: fh });
                    proof {
                        assert(cmds@ =~= old(self).erase_cmds() + seq![
                            (Command::DrawOutline { x: nx, y: ny, width: fw, height: fh }),
                        ]);
                    }
                } else {
                    self.outline = None;
                    proof {
                        assert(cmds@ =~= old(self).erase_cmds());
                    }
                }
            },
            None => {
                self.outline = None;
                proof {
                    assert(cmds@ =~= old(self).erase_cmds());
                }
            },
        }
        cmds
    }

    /// What a drag commit does, from shell `pre` to shell `post` with the
    /// commands `cmds`, the pointer released at (`rx`, `ry`): the session
    /// and any drawn outline are cleared; with a session, the window's
    /// record and one committed move both land at origin plus the pointer's
    /// travel (held to the signed 16-bit range), followed by a border
    /// repaint; without one, only the leftover outline is erased.
    pub open spec fn drag_committed(
        pre: Shell,
        post: Shell,
        cmds: Seq<Command>,
        rx: int,
        ry: int,
    ) -> bool {
        &&& post.wf()
        &&& post.panel == pre.panel
        &&& post.drag is None
        &&& post.outline is None
        &&& post.pending == pre.pending
        &&& post.hovered == pre.hovered
        &&& post.pressed == pre.pressed
        &&& same_config(pre, post)
        &&& match pre.drag {
            None => post.wm == pre.wm && cmds == pre.erase_cmds(),
            Some(d) => {
                let fx = clampcoord(d.origin_x + rx - d.press_x);
                let fy = clampcoord(d.origin_y + ry - d.press_y);
                &&& cmds == pre.erase_cmds() + seq![
                    (Command::MoveWindow { frame: d.frame, x: fx as i64, y: fy as i64 }),
                    (Command::RedrawBorders),
                ]
                &&& post.wm.frames@ == pre.wm.frames@
                &&& post.wm.windows@.len() == pre.wm.windows@.len()
                &&& !pre.wm.has_frame(d.frame) ==> post.wm.windows@ == pre.wm.windows@
                &&& pre.wm.has_frame(d.frame) ==> forall|i: int|
                    0 <= i < pre.wm.windows@.len() ==> (#[trigger] post.wm.windows@[i]) == (if
                    pre.wm.windows@[i].frame == d.frame {
                        ManagedWindow { x: fx as i64, y: fy as i64, ..pre.wm.windows@[i] }
                    } else {
                        pre.wm.windows@[i]
                    })
            },
        }
    }

    /// A button release while a drag session is active: the final delta is
    /// computed from the release position, the window's position is
    /// committed in one move (held to the signed 16-bit coordinate range),
    /// any drawn outline is erased, the session ends, and a full border
    /// repaint is requested.  Without a session only a leftover outline is
    /// cleaned up.
    pub fn dragrelease(&mut self, root_x: i64, root_y: i64) -> (cmds: Vec<Command>)
        requires
            old(self).wf(),
            -0x8000 <= root_x <= 0x8000,
            -0x8000 <= root_y <= 0x8000,
        ensures
            Shell::drag_committed(*old(self), *final(self), cmds@, root_x as int, root_y as int),
            forall|i: int, j: int|
                0 <= i < j < cmds@.len() && (#[trigger] cmds@[i]) is MoveWindow && (
                #[trigger] cmds@[j]) is MoveWindow ==> i == j,
    {
        let mut cmds: Vec<Command> = Vec::new();
        match self.outline {
            Some(p) => {
                cmds.push(
                    Command::EraseOutline { x: p.x, y: p.y, width: p.width, height: p.height },
                );
            },
            None => {},
        }
        self.outline = None;
        let d = match self.drag {
            Some(d) => d,
            None => {
                proof {
                    assert(cmds@ =~= old(self).erase_cmds());
                }
                return cmds;
            },
        };
        self.drag = None;
        let rawx = d.origin_x + root_x - d.press_x;
        let rawy = d.origin_y + root_y - d.press_y;
        let fx = if rawx < -0x8000 {
            -0x8000
        } else if rawx > 0x7fff {
            0x7fff
        } else {
            rawx
        };
        let fy = if rawy < -0x8000 {
            -0x8000
        } else if rawy > 0x7fff {
            0x7fff
        } else {
            rawy
        };
        self.wm.movewindow(d.frame, fx, fy);
        cmds.push(Command::MoveWindow { frame: d.frame, x: fx, y: fy });
        cmds.push(Command::RedrawBorders);
        proof {
            assert(cmds@ =~= old(self).erase_cmds() + seq![
                (Command::MoveWindow { frame: d.frame, x: fx, y: fy }),
                (Command::RedrawBorders),
            ]);
        }
        cmds
    }
}

/// The client a window-button slot stands for, 0 for any other slot.
pub open spec fn wb_payload(k: SlotKind) -> u32 {
    match k {
        SlotKind::WindowButton(w, _) => w,
        _ => 0,
    }
}

/// The icon a quick-launch slot launches, 0 for any other slot.
pub open spec fn ql_payload(k: SlotKind) -> u32 {
    match k {
        SlotKind::QuickLaunchIcon(icon, _) => icon,
        _ => 0,
    }
}

/// Two tables agree in everything but the slots' interactive sub-states:
/// same regions, same bound, and every slot at the same place, same width,
/// same kind and payload.
pub open spec fn same_layout(a: PanelTable, b: PanelTable) -> bool {
    &&& b.regions == a.regions
    &&& b.limit == a.limit
    &&& b.slots@.len() == a.slots@.len()
    &&& forall|i: int|
        0 <= i < a.slots@.len() ==> (#[trigger] b.slots@[i]).x == a.slots@[i].x
            && b.slots@[i].width == a.slots@[i].width && crate::interact::with_substate(
            b.slots@[i].kind,
            SubState::Ready,
        ) == crate::interact::with_substate(a.slots@[i].kind, SubState::Ready)
}

impl Shell {
    /// Pointer motion over the panel: moving onto a quick-launch icon sets
    /// it hovered (remembering it for the later reset, and resetting any
    /// other active slot of the region); moving off it sets it back to
    /// ready.  Only sub-states and the pending redraw change.
    pub fn panelmotion(&mut self, x: i64, y: i64)
        requires
            old(self).wf(),
            -0x8000 <= x <= 0x8000,
            -0x8000 <= y <= 0x8000,
        ensures
            final(self).wf(),
            final(self).wm == old(self).wm,
            final(self).drag == old(self).drag,
            final(self).outline == old(self).outline,
            final(self).pressed == old(self).pressed,
            same_config(*old(self), *final(self)),
            same_layout(old(self).panel, final(self).panel),
            match old(self).panel.hit_spec(x as int, y as int) {
                Some((idx, RegionKind::QuickLaunch)) => {
                    &&& final(self).hovered == Some(idx as usize)
                    &&& crate::interact::element_updated(
                        old(self).panel,
                        final(self).panel,
                        idx,
                        RegionKind::QuickLaunch,
                        SubState::Hovered,
                    )
                    &&& final(self).pending == (if crate::interact::substate_of(
                        old(self).panel.slots@[idx].kind,
                    ) == Some(SubState::Hovered) {
                        old(self).pending
                    } else {
                        join_spec(old(self).pending, RedrawSignal::Region(RegionKind::QuickLaunch))
                    })
                },
                _ => {
                    &&& final(self).hovered is None
                    &&& (match old(self).hovered {
                        Some(h) => if old(self).panel.regions.ql_start <= h < old(
                            self,
                        ).panel.regions.ql_end {
                            crate::interact::element_updated(
                                old(self).panel,
                                final(self).panel,
                                h as int,
                                RegionKind::QuickLaunch,
                                SubState::Ready,
                            ) && final(self).pending == (if crate::interact::substate_of(
                                old(self).panel.slots@[h as int].kind,
                            ) == Some(SubState::Ready) {
                                old(self).pending
                            } else {
                                join_spec(
                                    old(self).pending,
                                    RedrawSignal::Region(RegionKind::QuickLaunch),
                                )
                            })
                        } else {
                            final(self).panel == old(self).panel && final(self).pending == old(
                                self,
                            ).pending
                        },
                        None => final(self).panel == old(self).panel && final(self).pending
                            == old(self).pending,
                    })
                },
            },
    {
        let hit = self.panel.checkelement(x, y);
        match hit {
            Some((idx, RegionKind::QuickLaunch)) => {
                let r = self.panel.updateelement(idx, RegionKind::QuickLaunch, SubState::Hovered);
                if r.is_some() {
                    self.bump(RedrawSignal::Region(RegionKind::QuickLaunch));
                }
                self.hovered = Some(idx);
            },
            _ => {
                match self.hovered {
                    Some(h) => {
                        if self.panel.regions.ql_start <= h && h < self.panel.regions.ql_end {
                            let r = self.panel.updateelement(
                                h,
                                RegionKind::QuickLaunch,
                                SubState::Ready,
                            );
                            if r.is_some() {
                                self.bump(RedrawSignal::Region(RegionKind::QuickLaunch));
                            }
                        }
                        self.hovered = None;
                    },
                    None => {},
                }
            },
        }
    }

    /// A button press over the panel: pressing a quick-launch icon marks it
    /// pressed and remembers the slot so that only a release on the same
    /// slot fires it.  Window buttons give no press feedback.
    pub fn panelpress(&mut self, x: i64, y: i64)
        requires
            old(self).wf(),
            -0x8000 <= x <= 0x8000,
            -0x8000 <= y <= 0x8000,
        ensures
            final(self).wf(),
            final(self).wm == old(self).wm,
            final(self).drag == old(self).drag,
            final(self).outline == old(self).outline,
            final(self).hovered == old(self).hovered,
            same_config(*old(self), *final(self)),
            same_layout(old(self).panel, final(self).panel),
            match old(self).panel.hit_spec(x as int, y as int) {
                Some((idx, RegionKind::QuickLaunch)) => {
                    &&& final(self).pressed == Some(idx as usize)
                    &&& crate::interact::element_updated(
                        old(self).panel,
                        final(self).panel,
                        idx,
                        RegionKind::QuickLaunch,
                        SubState::Pressed,
                    )
                    &&& final(self).pending == (if crate::interact::substate_of(
                        old(self).panel.slots@[idx].kind,
                    ) == Some(SubState::Pressed) {
                        old(self).pending
                    } else {
                        join_spec(old(self).pending, RedrawSignal::Region(RegionKind::QuickLaunch))
                    })
                },
                _ => final(self).pressed == old(self).pressed && final(self).panel == old(
                    self,
                ).panel && final(self).pending == old(self).pending,
            },
    {
        let hit = self.panel.checkelement(x, y);
        match hit {
            Some((idx, RegionKind::QuickLaunch)) => {
                let r = self.panel.updateelement(idx, RegionKind::QuickLaunch, SubState::Pressed);
                if r.is_some() {
                    self.bump(RedrawSignal::Region(RegionKind::QuickLaunch));
                }
                self.pressed = Some(idx);
            },
            _ => {},
        }
    }

    /// A button release over the panel.  On a quick-launch icon the slot
    /// returns to ready and, only if this is the slot that was pressed, its
    /// bound action fires.  On a window button the corresponding managed
    /// window is focused and brought to the front.  A leftover drag outline
    /// is erased in any case.
    pub fn panelrelease(&mut self, x: i64, y: i64) -> (cmds: Vec<Command>)
        requires
            old(self).wf(),
            -0x8000 <= x <= 0x8000,
            -0x8000 <= y <= 0x8000,
        ensures
            final(self).wf(),
            final(self).drag == old(self).drag,
            final(self).outline is None,
            final(self).hovered == old(self).hovered,
            same_config(*old(self), *final(self)),
            same_layout(old(self).panel, final(self).panel),
            final(self).pressed is None,
            match old(self).panel.hit_spec(x as int, y as int) {
                Some((idx, RegionKind::QuickLaunch)) => {
                    let icon = ql_payload(old(self).panel.slots@[idx].kind);
                    &&& final(self).wm == old(self).wm
                    &&& crate::interact::element_updated(
                        old(self).panel,
                        final(self).panel,
                        idx,
                        RegionKind::QuickLaunch,
                        SubState::Ready,
                    )
                    &&& final(self).pending == (if crate::interact::substate_of(
                        old(self).panel.slots@[idx].kind,
                    ) == Some(SubState::Ready) {
                        old(self).pending
                    } else {
                        join_spec(old(self).pending, RedrawSignal::Region(RegionKind::QuickLaunch))
                    })
                    &&& cmds@ == old(self).erase_cmds() + (if old(self).pressed == Some(
                        idx as usize,
                    ) {
                        seq![(Command::LaunchIcon { icon })]
                    } else {
                        Seq::<Command>::empty()
                    })
                },
                Some((idx, RegionKind::WindowButtons)) => {
                    let w = wb_payload(old(self).panel.slots@[idx].kind);
                    &&& final(self).panel == old(self).panel
                    &&& final(self).pending == join_spec(
                        old(self).pending,
                        RedrawSignal::Region(RegionKind::WindowButtons),
                    )
                    &&& !old(self).wm.has_client(w) ==> final(self).wm == old(self).wm && cmds@
                        == old(self).erase_cmds()
                    &&& old(self).wm.has_client(w) ==> {
                        let m = old(self).wm.windows@[old(self).wm.client_at(w)];
                        &&& forall|i: int|
                            0 <= i < old(self).wm.windows@.len() ==> (#[trigger] final(self)
                                .wm.windows@[i]) == win_focused(old(self).wm.windows@[i], m.frame)
                        &&& cmds@ == old(self).erase_cmds() + (if m.vis
                            == Visibility::HiddenTaskbar {
                            seq![
                                (Command::MapWindow { id: w }),
                                (Command::MapWindow { id: m.frame }),
                            ]
                        } else {
                            Seq::<Command>::empty()
                        }) + seq![
                            (Command::Restack { frame: m.frame }),
                            (Command::RedrawBorders),
                        ]
                    }
                },
                None => final(self).wm == old(self).wm && final(self).panel == old(self).panel
                    && final(self).pending == old(self).pending && cmds@ == old(
                    self,
                ).erase_cmds(),
            },
    {
        let mut cmds: Vec<Command> = Vec::new();
        match self.outline {
            Some(p) => {
                cmds.push(
                    Command::EraseOutline { x: p.x, y: p.y, width: p.width, height: p.height },
                );
            },
            None => {},
        }
        self.outline = None;
        let hit = self.panel.checkelement(x, y);
        match hit {
            Some((idx, RegionKind::QuickLaunch)) => {
                let r = self.panel.updateelement(idx, RegionKind::QuickLaunch, SubState::Ready);
                if r.is_some() {
                    self.bump(RedrawSignal::Region(RegionKind::QuickLaunch));
                }
                let fire = match self.pressed {
                    Some(p) => p == idx,
                    None => false,
                };
                self.pressed = None;
                if fire {
                    let icon = match self.panel.slots[idx].kind {
                        SlotKind::QuickLaunchIcon(icon, _) => icon,
                        _ => 0,
                    };
                    proof {
                        assert(old(self).panel.slots@[idx as int].kind is QuickLaunchIcon);
                        assert(crate::interact::with_substate(
                            self.panel.slots@[idx as int].kind,
                            SubState::Ready,
                        ) == crate::interact::with_substate(
                            old(self).panel.slots@[idx as int].kind,
                            SubState::Ready,
                        ));
                    }
                    cmds.push(Command::LaunchIcon { icon });
                    proof {
                        assert(cmds@ =~= old(self).erase_cmds() + seq![
                            (Command::LaunchIcon { icon }),
                        ]);
                    }
                } else {
                    proof {
                        assert(cmds@ =~= old(self).erase_cmds() + Seq::<Command>::empty());
                    }
                }
            },
            Some((idx, RegionKind::WindowButtons)) => {
                let w = match self.panel.slots[idx].kind {
                    SlotKind::WindowButton(w, _) => w,
                    _ => 0,
                };
                self.pressed = None;
                let fcmds = self.focuswindow(w);
                let mut fi: usize = 0;
                while fi < fcmds.len()
                    invariant
                        fi <= fcmds@.len(),
                        cmds@ == old(self).erase_cmds() + fcmds@.subrange(0, fi as int),
                    decreases fcmds@.len() - fi,
                {
                    let c = fcmds[fi];
                    cmds.push(c);
                    fi = fi + 1;
                    proof {
                        assert(cmds@ =~= old(self).erase_cmds() + fcmds@.subrange(0, fi as int));
                    }
                }
                proof {
                    assert(fcmds@.subrange(0, fcmds@.len() as int) =~= fcmds@);
                    assert(cmds@ == old(self).erase_cmds() + fcmds@);
                }
                self.bump(RedrawSignal::Region(RegionKind::WindowButtons));
            },
            None => {
                self.pressed = None;
            },
        }
        cmds
    }
}

/// The record, hidden into the taskbar if it is the one for `client`.
pub open spec fn hide_step(m: ManagedWindow, client: u32) -> ManagedWindow {
    if m.window == client {
        ManagedWindow { vis: Visibility::HiddenTaskbar, ..m }
    } else {
        m
    }
}

/// What a minimize of `client` leaves behind, told from the position `bi`
/// of its taskbar button (the leftmost button naming it): the window is
/// hidden and unmapped, and if the outward scan from `bi` finds a rescue
/// slot, that slot's window is focused and its frame restacked.
pub open spec fn minimize_outcome(
    pre: Shell,
    post: Shell,
    cmds: Seq<Command>,
    client: u32,
    bi: int,
) -> bool {
    let m = pre.wm.windows@[pre.wm.client_at(client)];
    let unmaps = seq![
        (Command::UnmapWindow { id: m.frame }),
        (Command::UnmapWindow { id: client }),
    ];
    &&& pre.panel.regions.wb_start <= bi < pre.panel.regions.wb_end
    &&& crate::layout::button_client(pre.panel.slots@[bi].kind) == Some(client)
    &&& forall|l: int|
        pre.panel.regions.wb_start <= l < bi ==> crate::layout::button_client(
            (#[trigger] pre.panel.slots@[l]).kind,
        ) != Some(client)
    &&& match pre.rescue_scan(client, bi, 1) {
        None => cmds == unmaps && forall|i: int|
            0 <= i < pre.wm.windows@.len() ==> (#[trigger] post.wm.windows@[i]) == hide_step(
                pre.wm.windows@[i],
                client,
            ),
        Some(ri) => {
            let w2 = wb_payload(pre.panel.slots@[ri].kind);
            let tf = pre.wm.windows@[pre.wm.client_at(w2)].frame;
            &&& cmds == unmaps + seq![
                (Command::Restack { frame: tf }),
                (Command::RedrawBorders),
            ]
            &&& forall|i: int|
                0 <= i < pre.wm.windows@.len() ==> (#[trigger] post.wm.windows@[i])
                    == win_focused(hide_step(pre.wm.windows@[i], client), tf)
        },
    }
}

impl Shell {
    /// Slot `i` is a window button whose window could take the focus after
    /// a minimize: managed, merely visible, and not `client` itself.
    pub open spec fn rescue_button(self, client: u32, i: int) -> bool {
        &&& self.panel.regions.wb_start <= i < self.panel.regions.wb_end
        &&& self.panel.slots@[i].kind is WindowButton
        &&& wb_payload(self.panel.slots@[i].kind) != client
        &&& self.wm.has_client(wb_payload(self.panel.slots@[i].kind))
        &&& self.wm.windows@[self.wm.client_at(wb_payload(self.panel.slots@[i].kind))].vis
            == Visibility::VisibleUnfocused
    }

    /// The slot the minimize rescue scan picks, looking outward from `bi`
    /// up to five slots away, left before right at each distance.
    pub open spec fn rescue_scan(self, client: u32, bi: int, d: int) -> Option<int>
        decreases 6 - d,
    {
        if d > 5 {
            None
        } else if self.rescue_button(client, bi - d) {
            Some(bi - d)
        } else if self.rescue_button(client, bi + d) {
            Some(bi + d)
        } else {
            self.rescue_scan(client, bi, d + 1)
        }
    }

    /// The scan outcome is the same in two shells whose rescue candidates
    /// agree slot for slot.
    proof fn lemma_rescue_scan_agree(a: Shell, b: Shell, client: u32, bi: int, d: int)
        requires
            forall|i: int| a.rescue_button(client, i) == b.rescue_button(client, i),
        ensures
            a.rescue_scan(client, bi, d) == b.rescue_scan(client, bi, d),
        decreases 6 - d,
    {
        if d <= 5 {
            Self::lemma_rescue_scan_agree(a, b, client, bi, d + 1);
        }
    }

    /// What minimizing `client` does, from shell `pre` to shell `post` with
    /// the commands `cmds`: an unknown client changes nothing; otherwise the
    /// client's record becomes HiddenTaskbar, its frame and client are
    /// unmapped, the window-button region is marked for redraw, and — when
    /// the client holds a taskbar button — the outward rescue scan from
    /// that button decides whether a neighbour's window is focused, exactly
    /// as `minimize_outcome` tells it from the button's index.
    pub open spec fn minimized(pre: Shell, post: Shell, cmds: Seq<Command>, client: u32) -> bool {
        &&& post.wf()
        &&& post.panel == pre.panel
        &&& post.drag == pre.drag
        &&& post.outline == pre.outline
        &&& post.hovered == pre.hovered
        &&& post.pressed == pre.pressed
        &&& same_config(pre, post)
        &&& post.pending == (if pre.wm.has_client(client) {
            join_spec(pre.pending, RedrawSignal::Region(RegionKind::WindowButtons))
        } else {
            pre.pending
        })
        &&& (!pre.wm.has_client(client) ==> post == pre && cmds == Seq::<Command>::empty())
        &&& (pre.wm.has_client(client) ==> {
            let m = pre.wm.windows@[pre.wm.client_at(client)];
            &&& post.wm.windows@.len() == pre.wm.windows@.len()
            &&& post.wm.frames@ == pre.wm.frames@
            &&& post.wm.has_client(client)
            &&& post.wm.windows@[post.wm.client_at(client)].vis == Visibility::HiddenTaskbar
            &&& !pre.panel.has_button(client) ==> cmds == seq![
                (Command::UnmapWindow { id: m.frame }),
                (Command::UnmapWindow { id: client }),
            ] && forall|i: int|
                0 <= i < pre.wm.windows@.len() ==> (#[trigger] post.wm.windows@[i]) == hide_step(
                    pre.wm.windows@[i],
                    client,
                )
            &&& pre.panel.has_button(client) ==> exists|bi: int|
                #[trigger] minimize_outcome(pre, post, cmds, client, bi)
        })
    }

    /// Hides the window of `client` into the taskbar: its record becomes
    /// HiddenTaskbar, its frame and client are unmapped, and if its taskbar
    /// button has a merely-visible neighbour within five slots (left before
    /// right at each distance), that neighbour's window is focused and its
    /// frame restacked.  An unknown client changes nothing.
    pub fn minimizewindow(&mut self, client: u32) -> (cmds: Vec<Command>)
        requires
            old(self).wf(),
        ensures
            Shell::minimized(*old(self), *final(self), cmds@, client),
    {
        let mut cmds: Vec<Command> = Vec::new();
        let (frame, found) = match self.wm.getwindow(client) {
            Some(m) => (m.frame, true),
            None => (0u32, false),
        };
        if !found {
            return cmds;
        }
        self.wm.hidewindow(client);
        cmds.push(Command::UnmapWindow { id: frame });
        cmds.push(Command::UnmapWindow { id: client });
        self.bump(RedrawSignal::Region(RegionKind::WindowButtons));
        let ghost mid = *self;
        let ghost unmaps = seq![
            (Command::UnmapWindow { id: frame }),
            (Command::UnmapWindow { id: client }),
        ];
        proof {
            assert(cmds@ =~= unmaps);
            let ci = old(self).wm.client_at(client);
            assert(old(self).wm.windows@[ci].window == client);
            assert(mid.wm.windows@[ci] == hide_step(old(self).wm.windows@[ci], client));
            assert(mid.wm.windows@[ci].window == client);
            assert(mid.wm.has_client(client));
            assert(mid.wm.windows@[ci].vis == Visibility::HiddenTaskbar);
            assert(mid.wm.client_at(client) == ci) by {
                let cj = mid.wm.client_at(client);
                assert(mid.wm.windows@[cj].window == client);
                if cj < ci {
                    assert(mid.wm.windows@[cj].window != mid.wm.windows@[ci].window);
                }
                if ci < cj {
                    assert(mid.wm.windows@[ci].window != mid.wm.windows@[cj].window);
                }
            }
            assert forall|i: int| mid.rescue_button(client, i) == old(self).rescue_button(
                client,
                i,
            ) by {
                Self::lemma_rescue_button_agree(*old(self), mid, client, i);
            }
        }
        let rg = self.panel.regions;
        let mut bi_found: Option<usize> = None;
        let mut i: usize = rg.wb_start;
        while i < rg.wb_end
            invariant
                *self == mid,
                mid.wf(),
                rg == mid.panel.regions,
                rg.wb_start <= i <= rg.wb_end,
                match bi_found {
                    Some(bi) => rg.wb_start <= bi && bi < i
                        && crate::layout::button_client(mid.panel.slots@[bi as int].kind)
                        == Some(client) && forall|l: int|
                        rg.wb_start <= l < bi ==> crate::layout::button_client(
                            (#[trigger] mid.panel.slots@[l]).kind,
                        ) != Some(client),
                    None => forall|l: int|
                        rg.wb_start <= l < i ==> crate::layout::button_client(
                            (#[trigger] mid.panel.slots@[l]).kind,
                        ) != Some(client),
                },
            decreases rg.wb_end - i,
        {
            if bi_found.is_none() {
                match self.panel.slots[i].kind {
                    SlotKind::WindowButton(w, _) => {
                        if w == client {
                            bi_found = Some(i);
                        }
                    },
                    _ => {},
                }
            }
            i = i + 1;
        }
        let bi = match bi_found {
            Some(bi) => bi,
            None => {
                proof {
                    assert(!mid.panel.has_button(client));
                    assert(!old(self).panel.has_button(client)) by {
                        if old(self).panel.has_button(client) {
                            let l = choose|l: int|
                                old(self).panel.regions.wb_start <= l < old(
                                    self,
                                ).panel.regions.wb_end && crate::layout::button_client(
                                    (#[trigger] old(self).panel.slots@[l]).kind,
                                ) == Some(client);
                            assert(crate::layout::button_client(mid.panel.slots@[l].kind) == Some(
                                client,
                            ));
                        }
                    }
                }
                return cmds;
            },
        };
        let mut cand: Option<u32> = None;
        let mut d: usize = 1;
        while d <= 5
            invariant
                *self == mid,
                mid.wf(),
                rg == mid.panel.regions,
                rg.wb_start <= bi < rg.wb_end,
                1 <= d <= 6,
                match cand {
                    Some(w2) => exists|hi: int|
                        mid.rescue_scan(client, bi as int, 1) == Some(hi)
                            && mid.rescue_button(client, hi) && wb_payload(
                            #[trigger] mid.panel.slots@[hi].kind,
                        ) == w2,
                    None => mid.rescue_scan(client, bi as int, 1) == mid.rescue_scan(
                        client,
                        bi as int,
                        d as int,
                    ),
                },
            decreases 6 - d,
        {
            if cand.is_none() {
                let mut hitidx: Option<usize> = None;
                if bi >= rg.wb_start + d {
                    let li = bi - d;
                    if self.check_rescue(client, li) {
                        hitidx = Some(li);
                    } else {
                        proof {
                            assert(!mid.rescue_button(client, bi as int - d as int));
                        }
                    }
                } else {
                    proof {
                        assert(!mid.rescue_button(client, bi as int - d as int));
                    }
                }
                if hitidx.is_none() {
                    if bi + d < rg.wb_end {
                        let ri = bi + d;
                        if self.check_rescue(client, ri) {
                            hitidx = Some(ri);
                        } else {
                            proof {
                                assert(!mid.rescue_button(client, bi as int + d as int));
                            }
                        }
                    } else {
                        proof {
                            assert(!mid.rescue_button(client, bi as int + d as int));
                        }
                    }
                }
                match hitidx {
                    Some(hi) => {
                        let w2 = match self.panel.slots[hi].kind {
                            SlotKind::WindowButton(w, _) => w,
                            _ => 0,
                        };
                        cand = Some(w2);
                        proof {
                            assert(mid.rescue_button(client, hi as int));
                            assert(mid.rescue_scan(client, bi as int, d as int) == Some(
                                hi as int,
                            ));
                            assert(mid.rescue_scan(client, bi as int, 1) == Some(hi as int));
                            assert(wb_payload(mid.panel.slots@[hi as int].kind) == w2);
                        }
                    },
                    None => {
                        proof {
                            assert(mid.rescue_scan(client, bi as int, d as int)
                                == mid.rescue_scan(client, bi as int, d as int + 1));
                        }
                    },
                }
            }
            d = d + 1;
        }
        proof {
            Self::lemma_rescue_scan_agree(*old(self), mid, client, bi as int, 1);
            assert(mid.panel == old(self).panel);
            assert(old(self).panel.has_button(client)) by {
                assert(crate::layout::button_client(
                    old(self).panel.slots@[bi as int].kind,
                ) == Some(client));
            }
        }
        match cand {
            Some(w2) => {
                let ghost hi = choose|hi: int|
                    mid.rescue_scan(client, bi as int, 1) == Some(hi) && mid.rescue_button(
                        client,
                        hi,
                    ) && wb_payload(#[trigger] mid.panel.slots@[hi].kind) == w2;
                proof {
                    assert(mid.wm.has_client(w2));
                    assert(w2 != client);
                    assert(mid.wm.windows@[mid.wm.client_at(w2)].vis
                        == Visibility::VisibleUnfocused);
                }
                let fcmds = self.focuswindow(w2);
                proof {
                    let ci = old(self).wm.client_at(client);
                    let cj = mid.wm.client_at(w2);
                    assert(mid.wm.windows@[cj].window == w2);
                    assert(mid.wm.windows@[ci].window == client);
                    assert(ci != cj);
                    let tf = mid.wm.windows@[cj].frame;
                    if ci < cj {
                        assert(mid.wm.windows@[ci].frame != mid.wm.windows@[cj].frame);
                    } else {
                        assert(mid.wm.windows@[cj].frame != mid.wm.windows@[ci].frame);
                    }
                    assert(self.wm.windows@[ci] == win_focused(mid.wm.windows@[ci], tf));
                    assert(self.wm.windows@[ci].vis == Visibility::HiddenTaskbar);
                    assert(self.wm.windows@[ci].window == client);
                    assert(self.wm.has_client(client));
                    assert(self.wm.client_at(client) == ci) by {
                        let ck = self.wm.client_at(client);
                        assert(self.wm.windows@[ck].window == client);
                        if ck < ci {
                            assert(self.wm.windows@[ck].window != self.wm.windows@[ci].window);
                        }
                        if ci < ck {
                            assert(self.wm.windows@[ci].window != self.wm.windows@[ck].window);
                        }
                    }
                    assert(fcmds@ == seq![
                        (Command::Restack { frame: tf }),
                        (Command::RedrawBorders),
                    ]);
                    // The scan's slot names the same record before and after
                    // the hide, so the ensured frame matches.
                    assert(old(self).wm.windows@[cj].window == w2);
                    assert(old(self).wm.has_client(w2));
                    assert(old(self).wm.client_at(w2) == cj) by {
                        let ck = old(self).wm.client_at(w2);
                        assert(old(self).wm.windows@[ck].window == w2);
                        if ck < cj {
                            assert(old(self).wm.windows@[ck].window
                                != old(self).wm.windows@[cj].window);
                        }
                        if cj < ck {
                            assert(old(self).wm.windows@[cj].window
                                != old(self).wm.windows@[ck].window);
                        }
                    }
                    assert(old(self).wm.windows@[cj].frame == tf);
                }
                let mut fi: usize = 0;
                while fi < fcmds.len()
                    invariant
                        fi <= fcmds@.len(),
                        cmds@ == unmaps + fcmds@.subrange(0, fi as int),
                    decreases fcmds@.len() - fi,
                {
                    let c = fcmds[fi];
                    cmds.push(c);
                    fi = fi + 1;
                    proof {
                        assert(cmds@ =~= unmaps + fcmds@.subrange(0, fi as int));
                    }
                }
                proof {
                    assert(fcmds@.subrange(0, fcmds@.len() as int) =~= fcmds@);
                    let tf = mid.wm.windows@[mid.wm.client_at(w2)].frame;
                    assert(cmds@ =~= unmaps + seq![
                        (Command::Restack { frame: tf }),
                        (Command::RedrawBorders),
                    ]);
                    assert(minimize_outcome(*old(self), *self, cmds@, client, bi as int)) by {
                        assert(old(self).rescue_scan(client, bi as int, 1) == Some(hi));
                        assert(wb_payload(old(self).panel.slots@[hi].kind) == w2);
                        assert(old(self).wm.windows@[old(self).wm.client_at(w2)].frame == tf);
                        assert(old(self).wm.windows@[old(self).wm.client_at(client)].frame
                            == frame);
                        assert forall|i: int| 0 <= i < old(self).wm.windows@.len() implies (
                        #[trigger] self.wm.windows@[i]) == win_focused(
                            hide_step(old(self).wm.windows@[i], client),
                            tf,
                        ) by {
                            assert(mid.wm.windows@[i] == hide_step(
                                old(self).wm.windows@[i],
                                client,
                            ));
                            assert(self.wm.windows@[i] == win_focused(mid.wm.windows@[i], tf));
                        }
                    }
                }
            },
            None => {
                proof {
                    assert(mid.rescue_scan(client, bi as int, 6) is None);
                    assert(mid.rescue_scan(client, bi as int, 1) is None);
                    assert(minimize_outcome(*old(self), *self, cmds@, client, bi as int)) by {
                        assert(old(self).rescue_scan(client, bi as int, 1) is None);
                        assert(old(self).wm.windows@[old(self).wm.client_at(client)].frame
                            == frame);
                        assert(cmds@ == unmaps);
                        assert forall|i: int| 0 <= i < old(self).wm.windows@.len() implies (
                        #[trigger] self.wm.windows@[i]) == hide_step(
                            old(self).wm.windows@[i],
                            client,
                        ) by {}
                    }
                }
            },
        }
        cmds
    }

    /// Hiding one client changes no other window's standing as a rescue
    /// candidate.
    proof fn lemma_rescue_button_agree(pre: Shell, post: Shell, client: u32, i: int)
        requires
            pre.wf(),
            post.wf(),
            post.panel == pre.panel,
            post.wm.frames@ == pre.wm.frames@,
            post.wm.windows@.len() == pre.wm.windows@.len(),
            forall|j: int|
                0 <= j < pre.wm.windows@.len() ==> (#[trigger] post.wm.windows@[j]) == hide_step(
                    pre.wm.windows@[j],
                    client,
                ),
        ensures
            post.rescue_button(client, i) == pre.rescue_button(client, i),
    {
        if !(pre.panel.regions.wb_start <= i < pre.panel.regions.wb_end) {
            return ;
        }
        if !(pre.panel.slots@[i].kind is WindowButton) {
            return ;
        }
        let w = wb_payload(pre.panel.slots@[i].kind);
        if w == client {
            return ;
        }
        assert forall|j: int| 0 <= j < pre.wm.windows@.len() implies (
        #[trigger] post.wm.windows@[j]).window == pre.wm.windows@[j].window by {}
        if pre.wm.has_client(w) {
            let cj = pre.wm.client_at(w);
            assert(pre.wm.windows@[cj].window == w);
            assert(post.wm.windows@[cj].window == w);
            assert(post.wm.has_client(w));
            assert(post.wm.client_at(w) == cj) by {
                let ck = post.wm.client_at(w);
                assert(post.wm.windows@[ck].window == w);
                if ck < cj {
                    assert(post.wm.windows@[ck].window != post.wm.windows@[cj].window);
                }
                if cj < ck {
                    assert(post.wm.windows@[cj].window != post.wm.windows@[ck].window);
                }
            }
            assert(post.wm.windows@[cj] == hide_step(pre.wm.windows@[cj], client));
            assert(post.wm.windows@[cj].vis == pre.wm.windows@[cj].vis);
        } else {
            if post.wm.has_client(w) {
                let ck = post.wm.client_at(w);
                assert(post.wm.windows@[ck].window == w);
                assert(pre.wm.windows@[ck].window == w);
            }
        }
    }

    /// Whether slot `i` names a window that can receive the focus after a
    /// minimize of `client`.
    fn check_rescue(&self, client: u32, i: usize) -> (r: bool)
        requires
            self.wf(),
            self.panel.regions.wb_start <= i < self.panel.regions.wb_end,
        ensures
            r == self.rescue_button(client, i as int),
    {
        let w = match self.panel.slots[i].kind {
            SlotKind::WindowButton(w, _) => w,
            _ => {
                return false;
            },
        };
        if w == client {
            return false;
        }
        match self.wm.getwindow(w) {
            Some(m) => m.vis == Visibility::VisibleUnfocused,
            None => false,
        }
    }
}

/// Whether a frame-relative point lands on the frame's hide button: a
/// fixed band of the title bar near the right edge.
pub open spec fn hide_zone(m: ManagedWindow, border: int, x: int, y: int) -> bool {
    &&& 7 <= y <= 21
    &&& m.width + 2 * border - 54 <= x < m.width + 2 * border - 38
}

impl Shell {
    /// A release at frame-relative (`x`, `y`) on the frame `frame` lands on
    /// a managed frame's hide button.
    pub open spec fn on_hide_button(self, frame: u32, x: int, y: int) -> bool {
        &&& self.wm.has_link(frame)
        &&& hide_zone(
            self.wm.windows@[self.wm.frame_at(frame)],
            self.border as int,
            x,
            y,
        )
    }

    /// A button release over a managed frame: if the release lands on the
    /// frame's hide button (a fixed zone near the right end of the title
    /// bar), the window is minimized; then any active drag is committed.
    pub fn framerelease(
        &mut self,
        frame: u32,
        event_x: i64,
        event_y: i64,
        root_x: i64,
        root_y: i64,
    ) -> (cmds: Vec<Command>)
        requires
            old(self).wf(),
            -0x8000 <= event_x <= 0x8000,
            -0x8000 <= event_y <= 0x8000,
            -0x8000 <= root_x <= 0x8000,
            -0x8000 <= root_y <= 0x8000,
        ensures
            final(self).wf(),
            final(self).drag is None,
            final(self).outline is None,
            final(self).panel == old(self).panel,
            final(self).hovered == old(self).hovered,
            final(self).pressed == old(self).pressed,
            same_config(*old(self), *final(self)),
            final(self).pending == old(self).pending || final(self).pending == join_spec(
                old(self).pending,
                RedrawSignal::Region(RegionKind::WindowButtons),
            ),
            final(self).wm.windows@.len() == old(self).wm.windows@.len(),
            final(self).wm.frames@ == old(self).wm.frames@,
            !old(self).on_hide_button(frame, event_x as int, event_y as int)
                ==> Shell::drag_committed(
                *old(self),
                *final(self),
                cmds@,
                root_x as int,
                root_y as int,
            ),
            old(self).on_hide_button(frame, event_x as int, event_y as int) ==> exists|
                mid: Shell,
                m1: Seq<Command>,
                d1: Seq<Command>,
            |
                {
                    &&& #[trigger] Shell::minimized(
                        *old(self),
                        mid,
                        m1,
                        old(self).wm.windows@[old(self).wm.frame_at(frame)].window,
                    )
                    &&& #[trigger] Shell::drag_committed(
                        mid,
                        *final(self),
                        d1,
                        root_x as int,
                        root_y as int,
                    )
                    &&& cmds@ == m1 + d1
                },
            !old(self).on_hide_button(frame, event_x as int, event_y as int) ==> forall|i: int|
                0 <= i < old(self).wm.windows@.len() ==> (#[trigger] final(self)
                    .wm.windows@[i]).vis == old(self).wm.windows@[i].vis,
            old(self).on_hide_button(frame, event_x as int, event_y as int) ==> {
                let w = old(self).wm.windows@[old(self).wm.frame_at(frame)].window;
                &&& final(self).wm.has_client(w)
                &&& final(self).wm.windows@[final(self).wm.client_at(w)].vis
                    == Visibility::HiddenTaskbar
            },
    {
        let ghost pre = *self;
        let mut cmds: Vec<Command> = Vec::new();
        let target: Option<u32> = match self.wm.getframe(frame) {
            Some(m) => {
                proof {
                    let i = self.wm.frame_at(frame);
                    assert(self.wm.window_linked(i));
                    let k = choose|k: int| self.wm.matches_link(i, k);
                    assert(self.wm.frames@[k].frame == frame);
                    assert(self.wm.has_link(frame));
                }
                let right = m.width + 2 * self.border;
                if 7 <= event_y && event_y <= 21 && right - 54 <= event_x && event_x < right - 38 {
                    Some(m.window)
                } else {
                    None
                }
            },
            None => None,
        };
        proof {
            match target {
                Some(w) => {
                    let fi = pre.wm.frame_at(frame);
                    assert(pre.wm.has_link(frame));
                    assert(hide_zone(
                        pre.wm.windows@[fi],
                        pre.border as int,
                        event_x as int,
                        event_y as int,
                    ));
                    assert(w == pre.wm.windows@[fi].window);
                    assert(pre.wm.has_client(w));
                },
                None => {
                    if pre.wm.has_link(frame) {
                        let fi = pre.wm.frame_at(frame);
                        assert(!hide_zone(
                            pre.wm.windows@[fi],
                            pre.border as int,
                            event_x as int,
                            event_y as int,
                        ));
                    }
                },
            }
        }
        match target {
            Some(client) => {
                let mcmds = self.minimizewindow(client);
                proof {
                    assert(self.wm.has_client(client));
                    assert(self.wm.windows@[self.wm.client_at(client)].vis
                        == Visibility::HiddenTaskbar);
                }
                let mut mi: usize = 0;
                proof {
                    assert(cmds@ =~= mcmds@.subrange(0, 0));
                }
                while mi < mcmds.len()
                    invariant
                        mi <= mcmds@.len(),
                        cmds@ == mcmds@.subrange(0, mi as int),
                    decreases mcmds@.len() - mi,
                {
                    let c = mcmds[mi];
                    cmds.push(c);
                    mi = mi + 1;
                    proof {
                        assert(cmds@ =~= mcmds@.subrange(0, mi as int));
                    }
                }
                proof {
                    assert(mcmds@.subrange(0, mcmds@.len() as int) =~= mcmds@);
                }
            },
            None => {},
        }
        let ghost mid2 = *self;
        let ghost mseg = cmds@;
        proof {
            assert(mid2.wm.windows@.len() == pre.wm.windows@.len()) by {
                if target is Some {
                } else {
                    assert(mid2 == pre);
                }
            }
        }
        let dcmds = self.dragrelease(root_x, root_y);
        proof {
            assert forall|i: int| 0 <= i < mid2.wm.windows@.len() implies (#[trigger] self
                .wm.windows@[i]).vis == mid2.wm.windows@[i].vis && self.wm.windows@[i].window
                == mid2.wm.windows@[i].window by {
                match mid2.drag {
                    None => {},
                    Some(d) => {
                        if mid2.wm.has_frame(d.frame) {
                        }
                    },
                }
            }
            match target {
                Some(client) => {
                    let ci = mid2.wm.client_at(client);
                    assert(mid2.wm.windows@[ci].window == client);
                    assert(self.wm.windows@[ci].window == client);
                    assert(self.wm.has_client(client));
                    assert(self.wm.client_at(client) == ci) by {
                        let ck = self.wm.client_at(client);
                        assert(self.wm.windows@[ck].window == client);
                        if ck < ci {
                            assert(self.wm.windows@[ck].window != self.wm.windows@[ci].window);
                        }
                        if ci < ck {
                            assert(self.wm.windows@[ci].window != self.wm.windows@[ck].window);
                        }
                    }
                    assert(self.wm.windows@[ci].vis == Visibility::HiddenTaskbar);
                },
                None => {
                    assert(mid2 == pre);
                    assert forall|i: int| 0 <= i < pre.wm.windows@.len() implies (#[trigger] self
                        .wm.windows@[i]).vis == pre.wm.windows@[i].vis by {}
                },
            }
        }
        let mut di: usize = 0;
        proof {
            assert(cmds@ =~= mseg + dcmds@.subrange(0, 0));
        }
        while di < dcmds.len()
            invariant
                di <= dcmds@.len(),
                cmds@ == mseg + dcmds@.subrange(0, di as int),
            decreases dcmds@.len() - di,
        {
            let c = dcmds[di];
            cmds.push(c);
            di = di + 1;
            proof {
                assert(cmds@ =~= mseg + dcmds@.subrange(0, di as int));
            }
        }
        proof {
            assert(dcmds@.subrange(0, dcmds@.len() as int) =~= dcmds@);
            assert(cmds@ == mseg + dcmds@);
            match target {
                Some(client) => {
                    assert(pre.on_hide_button(frame, event_x as int, event_y as int));
                    assert(client == pre.wm.windows@[pre.wm.frame_at(frame)].window);
                    assert(Shell::minimized(pre, mid2, mseg, client));
                    assert(Shell::drag_committed(
                        mid2,
                        *self,
                        dcmds@,
                        root_x as int,
                        root_y as int,
                    ));
                },
                None => {
                    assert(!pre.on_hide_button(frame, event_x as int, event_y as int));
                    assert(mid2 == pre);
                    assert(mseg =~= Seq::<Command>::empty());
                    assert(cmds@ =~= dcmds@);
                    assert(Shell::drag_committed(
                        pre,
                        *self,
                        cmds@,
                        root_x as int,
                        root_y as int,
                    ));
                },
            }
        }
        cmds
    }

    /// A map request for an unmanaged, non-override-redirect window:
    /// registers it with the default visibility — merely visible, not
    /// focused — with the given geometry and title, appends a taskbar
    /// button for it (unless the panel cannot take one), and asks the
    /// caller to wrap it in a frame.  A window already managed, or one that
    /// manages itself, is left alone.
    pub fn handlemaprequest(
        &mut self,
        window: u32,
        overrideredirect: bool,
        x: i64,
        y: i64,
        width: i64,
        height: i64,
        title: Vec<u8>,
    ) -> (cmds: Vec<Command>)
        requires
            old(self).wf(),
            -0x8000 <= x <= 0x8000,
            -0x8000 <= y <= 0x8000,
            0 <= width <= 0x8000,
            0 <= height <= 0x8000,
        ensures
            final(self).wf(),
            (overrideredirect || old(self).wm.has_client(window) || old(self).wm.has_link(window))
                ==> *final(self) == *old(self) && cmds@ == Seq::<Command>::empty(),
            final(self).drag == old(self).drag,
            final(self).outline == old(self).outline,
            final(self).hovered == old(self).hovered,
            final(self).pressed == old(self).pressed,
            same_config(*old(self), *final(self)),
            !(overrideredirect || old(self).wm.has_client(window) || old(self).wm.has_link(
                window,
            )) ==> {
                &&& final(self).wm.windows@.len() == old(self).wm.windows@.len() + 1
                &&& final(self).wm.windows@.last().window == window
                &&& final(self).wm.windows@.last().frame == window
                &&& final(self).wm.windows@.last().title@ == title@
                &&& final(self).wm.windows@.last().x == x && final(self).wm.windows@.last().y == y
                &&& final(self).wm.windows@.last().width == width
                &&& final(self).wm.windows@.last().height == height
                &&& final(self).wm.windows@.last().vis == Visibility::VisibleUnfocused
                &&& final(self).wm.windows@.last().order == 0
                &&& forall|i: int|
                    0 <= i < old(self).wm.windows@.len() ==> (#[trigger] final(self)
                        .wm.windows@[i]) == old(self).wm.windows@[i]
                &&& final(self).wm.frames@ == old(self).wm.frames@.push(
                    (FrameLink { frame: window, window }),
                )
                &&& cmds@ == seq![(Command::CreateFrame { window })]
                &&& final(self).pending == join_spec(old(self).pending, RedrawSignal::Full)
                &&& (old(self).panel.slots@.len() < crate::panel::CAPACITY
                    && (old(self).panel.wb_fit(old(self).panel.wb_count() + 1)
                    || old(self).panel.avail() >= 4 * (old(self).panel.wb_count() + 1)))
                    ==> PanelTable::button_inserted(
                    old(self).panel,
                    final(self).panel,
                    window,
                    old(self).panel.regions.wb_end as int,
                )
                &&& !(old(self).panel.slots@.len() < crate::panel::CAPACITY
                    && (old(self).panel.wb_fit(old(self).panel.wb_count() + 1)
                    || old(self).panel.avail() >= 4 * (old(self).panel.wb_count() + 1)))
                    ==> final(self).panel == old(self).panel
            },
    {
        let mut cmds: Vec<Command> = Vec::new();
        if overrideredirect {
            return cmds;
        }
        let managed = match self.wm.getwindow(window) {
            Some(_) => true,
            None => false,
        };
        if managed {
            return cmds;
        }
        let linked = match self.wm.getframe(window) {
            Some(m) => {
                proof {
                    let i = self.wm.frame_at(window);
                    assert(self.wm.window_linked(i));
                    let k = choose|k: int| self.wm.matches_link(i, k);
                    assert(self.wm.frames@[k].frame == window);
                    assert(self.wm.has_link(window));
                }
                true
            },
            None => false,
        };
        if linked {
            return cmds;
        }
        proof {
            self.wm.lemma_unlinked_frame(window);
        }
        self.wm.installexternalwindow(window, window, title, x, y, width, height, 0);
        let inserted = self.panel.insertpanelwindow(window);
        proof {
            match inserted {
                Ok(idx) => {
                    assert(idx == old(self).panel.regions.wb_end);
                },
                Err(_) => {},
            }
        }
        self.bump(RedrawSignal::Full);
        cmds.push(Command::CreateFrame { window });
        proof {
            assert(cmds@ =~= seq![(Command::CreateFrame { window })]);
        }
        cmds
    }

    /// The caller reports the frame it created for a freshly managed
    /// window: the record and its link move to the new frame id together.
    /// If the window vanished meanwhile, or the id is already taken,
    /// nothing changes.
    pub fn handleframecreated(&mut self, window: u32, frame: u32)
        requires
            old(self).wf(),
        ensures
            final(self).wf(),
            final(self).panel == old(self).panel,
            final(self).drag == old(self).drag,
            final(self).outline == old(self).outline,
            final(self).hovered == old(self).hovered,
            final(self).pressed == old(self).pressed,
            final(self).pending == old(self).pending,
            same_config(*old(self), *final(self)),
            (old(self).wm.has_client(window) && !old(self).wm.has_link(frame)) ==> {
                &&& final(self).wm.windows@ == old(self).wm.windows@.update(
                    old(self).wm.client_at(window),
                    (ManagedWindow {
                        frame,
                        ..old(self).wm.windows@[old(self).wm.client_at(window)]
                    }),
                )
                &&& final(self).wm.frames@ == old(self).wm.frames@.update(
                    old(self).wm.link_of(
                        old(self).wm.windows@[old(self).wm.client_at(window)].frame,
                    ),
                    (FrameLink { frame, window }),
                )
                &&& final(self).wm.has_frame(frame)
                &&& final(self).wm.has_link(frame)
                &&& final(self).wm.has_client(window)
            },
            !(old(self).wm.has_client(window) && !old(self).wm.has_link(frame)) ==> *final(self)
                == *old(self),
    {
        let known = match self.wm.getwindow(window) {
            Some(_) => true,
            None => false,
        };
        if !known {
            return ;
        }
        let taken = match self.wm.getframe(frame) {
            Some(m) => {
                proof {
                    let i = self.wm.frame_at(frame);
                    assert(self.wm.window_linked(i));
                    let k = choose|k: int| self.wm.matches_link(i, k);
                    assert(self.wm.frames@[k].frame == frame);
                    assert(self.wm.has_link(frame));
                }
                true
            },
            None => false,
        };
        if taken {
            return ;
        }
        proof {
            self.wm.lemma_unlinked_frame(frame);
        }
        self.wm.relinkframe(window, frame);
        proof {
            let ci = old(self).wm.client_at(window);
            assert(self.wm.windows@[ci].frame == frame);
            assert(self.wm.windows@[ci].window == window);
            assert(self.wm.has_client(window));
            assert(self.wm.window_linked(ci));
            let k = choose|k: int| self.wm.matches_link(ci, k);
            assert(self.wm.frames@[k].frame == frame);
            assert(self.wm.has_link(frame));
        }
    }

    /// A destroy notification for a client window: its record and frame
    /// link leave the registry, its taskbar button leaves the panel (the
    /// region re-laid), and the caller is asked to release the frame's
    /// resources.  An unknown client is already gone and nothing happens.
    pub fn handledestroy(&mut self, window: u32) -> (cmds: Vec<Command>)
        requires
            old(self).wf(),
        ensures
            final(self).wf(),
            final(self).drag == old(self).drag,
            final(self).outline == old(self).outline,
            final(self).hovered == old(self).hovered,
            final(self).pressed == old(self).pressed,
            same_config(*old(self), *final(self)),
            !old(self).wm.has_client(window) ==> final(self).wm == old(self).wm && cmds@
                == Seq::<Command>::empty(),
            old(self).wm.has_client(window) ==> {
                let m = old(self).wm.windows@[old(self).wm.client_at(window)];
                &&& final(self).wm.windows@ == old(self).wm.windows@.remove(
                    old(self).wm.client_at(window),
                )
                &&& !final(self).wm.has_client(window)
                &&& cmds@ == seq![(Command::DestroyFrame { frame: m.frame })]
            },
            old(self).panel.has_button(window) ==> exists|bi: int|
                #[trigger] PanelTable::button_removed(
                    old(self).panel,
                    final(self).panel,
                    window,
                    bi,
                ),
            !old(self).panel.has_button(window) ==> final(self).panel == old(self).panel,
    {
        let mut cmds: Vec<Command> = Vec::new();
        let (frame, found) = match self.wm.getwindow(window) {
            Some(m) => (m.frame, true),
            None => (0u32, false),
        };
        if found {
            self.wm.removewindow(window);
            cmds.push(Command::DestroyFrame { frame });
            self.bump(RedrawSignal::Region(RegionKind::WindowButtons));
            proof {
                assert(cmds@ =~= seq![(Command::DestroyFrame { frame })]);
            }
        }
        let removed = self.panel.removepanelwindow(window);
        proof {
            match removed {
                Some(bi) => {
                    assert(PanelTable::button_removed(
                        old(self).panel,
                        self.panel,
                        window,
                        bi as int,
                    ));
                },
                None => {},
            }
        }
        cmds
    }
}

impl Shell {
    /// Assigns taskbar order numbers to every window that has none, when
    /// the numbering fits: the next integers above the current maximum, in
    /// registry order.  If the numbering would overflow its 8-bit range the
    /// registry is left untouched and `false` comes back.
    pub fn assignorders(&mut self) -> (done: bool)
        requires
            old(self).wf(),
        ensures
            final(self).wf(),
            final(self).panel == old(self).panel,
            final(self).drag == old(self).drag,
            final(self).outline == old(self).outline,
            final(self).hovered == old(self).hovered,
            final(self).pressed == old(self).pressed,
            final(self).pending == old(self).pending,
            same_config(*old(self), *final(self)),
            done == (crate::registry::max_order(old(self).wm.windows@) + crate::registry::zeros_before(
                old(self).wm.windows@,
                old(self).wm.windows@.len() as int,
            ) <= 255),
            !done ==> *final(self) == *old(self),
            done ==> {
                &&& final(self).wm.frames@ == old(self).wm.frames@
                &&& final(self).wm.windows@.len() == old(self).wm.windows@.len()
                &&& forall|i: int|
                    0 <= i < old(self).wm.windows@.len() ==> (#[trigger] final(self)
                        .wm.windows@[i]) == (ManagedWindow {
                        order: crate::registry::filled_order(old(self).wm.windows@, i) as u8,
                        ..old(self).wm.windows@[i]
                    })
            },
    {
        let ghost s = self.wm.windows@;
        let n = self.wm.windows.len();
        let mut mx: u8 = 0;
        let mut zeros: usize = 0;
        let mut i: usize = 0;
        while i < n
            invariant
                *self == *old(self),
                s == self.wm.windows@,
                n == s.len(),
                i <= n,
                zeros <= i,
                mx as int == crate::registry::max_order(s.subrange(0, i as int)),
                zeros as int == crate::registry::zeros_before(s, i as int),
            decreases n - i,
        {
            if self.wm.windows[i].order > mx {
                mx = self.wm.windows[i].order;
            }
            if self.wm.windows[i].order == 0 {
                zeros = zeros + 1;
            }
            i = i + 1;
            proof {
                assert(s.subrange(0, i as int).drop_last() =~= s.subrange(0, i as int - 1));
                assert(s.subrange(0, i as int).last() == s[i as int - 1]);
            }
        }
        proof {
            assert(s.subrange(0, n as int) =~= s);
        }
        if zeros <= 255 && (mx as usize) + zeros <= 255 {
            self.wm.fillblanks();
            true
        } else {
            false
        }
    }
}

/// The smaller of two integers.
pub open spec fn imin2(a: int, b: int) -> int {
    if a <= b {
        a
    } else {
        b
    }
}

/// The larger of two integers.
pub open spec fn imax2(a: int, b: int) -> int {
    if a >= b {
        a
    } else {
        b
    }
}

/// The frame a client window receives: the client's size plus the border
/// on every side and the title bar above, placed so the client keeps its
/// position, clamped onto the screen.  The result is the frame's x, y,
/// width and height.
pub fn framegeometry(
    x: i64,
    y: i64,
    width: i64,
    height: i64,
    screen_w: i64,
    screen_h: i64,
    border: i64,
    titlebar: i64,
) -> (r: (i64, i64, i64, i64))
    requires
        -0x8000 <= x <= 0x8000,
        -0x8000 <= y <= 0x8000,
        0 <= width <= 0x8000,
        0 <= height <= 0x8000,
        0 < screen_w <= 0x8000,
        0 < screen_h <= 0x8000,
        0 <= border <= 0x100,
        0 < titlebar <= 0x100,
    ensures
        r.2 == width + 2 * border,
        r.3 == height + titlebar + 2 * border,
        r.0 == imin2(imax2(x - border, 0), screen_w - r.2),
        r.1 == imin2(imax2(y - (titlebar - border), 0), screen_h - r.3),
{
    let fw = width + border + border;
    let fh = height + titlebar + border + border;
    let fx = if x - border > 0 {
        x - border
    } else {
        0
    };
    let fx = if fx <= screen_w - fw {
        fx
    } else {
        screen_w - fw
    };
    let fy = if y - (titlebar - border) > 0 {
        y - (titlebar - border)
    } else {
        0
    };
    let fy = if fy <= screen_h - fh {
        fy
    } else {
        screen_h - fh
    };
    (fx, fy, fw, fh)
}

} // verus!
