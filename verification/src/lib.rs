//! Core state and layout engine of a minimal desktop shell: the window
//! registry, the panel slot table with its layout algorithm, the pointer
//! interaction state machine, and the event-dispatch decisions.
//!
//! Everything here is plain data and arithmetic; the display-protocol
//! connection, rendering and image decoding live outside the library and
//! exchange plain values with it.

use vstd::prelude::*;

mod clock;
mod colours;
mod icons;
mod interact;
mod layout;
mod outline;
mod panel;
mod registry;
mod shell;
mod text;

verus! {

pub use clock::{clockfields, minutedigits, twelvehour, updateclock};
pub use colours::{
    colour_slot, default_colour, hex_value, loadcolours, nonblank_lines, parse_hex_line, theme_of,
    trimmed, Theme,
};
pub use icons::{addpanelicon, IconEntry, IconTable, LINK_COUNT, TRAY_LINKS};
pub use interact::{element_updated, substate_of, with_substate};
pub use layout::{button_client, shifted, unshifted, PanelError};
pub use outline::{outline_rects_spec, outlinerects, Rect, OUTLINE_THICKNESS};
pub use panel::{
    traywidth, PanelSlot, PanelTable, RegionKind, Regions, SlotKind, SubState, BUTTON_PREFERRED,
    CAPACITY, ICON_WIDTH, QL_BASE, SPACING, START_WIDTH, START_X,
};
pub use registry::{
    demote, demote_if_displaced, filled_order, filled_order_taken, geom_ok,
    lemma_fillblanks_permutation, max_order, order_taken, win_focused, zeros_before, FrameLink,
    ManagedWindow, Visibility, WindowManager,
};
pub use shell::{
    clampcoord, framegeometry, hide_step, hide_zone, imax2, imin2, join_spec, minimize_outcome,
    ql_payload, same_layout, wb_payload, Command, DragSession, RedrawSignal, Shell,
};
pub use text::{bytes_eq, flat, letters, squished, squishtext, wraptext};

} // verus!
