//! Geometry of the outline shown during a fast drag: a rectangular ring of
//! fixed thickness around the candidate window position, cut into at most
//! four rectangles, each clipped against the panel's band at the bottom of
//! the screen so the outline never draws over the panel.

use vstd::prelude::*;

verus! {

/// Thickness of the drag outline's ring, in pixels.
pub const OUTLINE_THICKNESS: i64 = 4;

/// An axis-aligned rectangle on the screen.
#[derive(Clone, Copy, PartialEq, Eq, Structural, Debug)]
pub struct Rect {
    /// Left edge.
    pub x: i64,
    /// Top edge.
    pub y: i64,
    /// Width in pixels.
    pub width: i64,
    /// Height in pixels.
    pub height: i64,
}

/// The smaller of two integers.
pub open spec fn imin(a: int, b: int) -> int {
    if a <= b {
        a
    } else {
        b
    }
}

/// The rectangles of the outline ring for a window spanning
/// `[x, x+width) x [y, y+height)`, with the panel band starting at
/// `panely`: the top edge (clipped to the band), the bottom edge (clipped or
/// whole), and the two sides, each listed only if something of it is
/// visible.
pub open spec fn outline_rects_spec(x: int, y: int, width: int, height: int, panely: int) -> Seq<
    Rect,
> {
    let t = OUTLINE_THICKNESS as int;
    let top: Seq<Rect> = if y < panely && imin(panely - y, t) > 0 {
        seq![
            (Rect {
                x: x as i64,
                y: y as i64,
                width: width as i64,
                height: imin(panely - y, t) as i64,
            }),
        ]
    } else {
        Seq::empty()
    };
    let bottom_y = y + height;
    let bottom: Seq<Rect> = if bottom_y > panely {
        if t - (bottom_y - panely) > 0 {
            seq![
                (Rect {
                    x: x as i64,
                    y: (panely - (t - (bottom_y - panely))) as i64,
                    width: width as i64,
                    height: (t - (bottom_y - panely)) as i64,
                }),
            ]
        } else {
            Seq::empty()
        }
    } else {
        seq![
            (Rect {
                x: x as i64,
                y: (bottom_y - t) as i64,
                width: width as i64,
                height: t as i64,
            }),
        ]
    };
    let side_h = imin(height - 2 * t, panely - y - t);
    let sides: Seq<Rect> = if side_h > 0 {
        seq![
            (Rect { x: x as i64, y: (y + t) as i64, width: t as i64, height: side_h as i64 }),
            (Rect {
                x: (x + width - t) as i64,
                y: (y + t) as i64,
                width: t as i64,
                height: side_h as i64,
            }),
        ]
    } else {
        Seq::empty()
    };
    top + bottom + sides
}

/// Computes the outline ring for a dragged window, clipped against the
/// panel band: no returned rectangle reaches past `panely`, and each stays
/// within the window's own span.
pub fn outlinerects(x: i64, y: i64, width: i64, height: i64, panely: i64) -> (r: Vec<Rect>)
    requires
        -0x10000 <= x <= 0x10000,
        -0x10000 <= y <= 0x10000,
        8 <= width <= 0x10000,
        8 <= height <= 0x10000,
        0 <= panely <= 0x10000,
    ensures
        r@ == outline_rects_spec(x as int, y as int, width as int, height as int, panely as int),
        forall|i: int|
            0 <= i < r@.len() ==> (#[trigger] r@[i]).y + r@[i].height <= panely,
        forall|i: int|
            0 <= i < r@.len() ==> x <= (#[trigger] r@[i]).x && r@[i].x + r@[i].width <= x + width
                && y <= r@[i].y && r@[i].y + r@[i].height <= y + height && r@[i].width > 0
                && r@[i].height > 0,
{
    let mut r: Vec<Rect> = Vec::new();
    if y < panely {
        let vth = if panely - y <= OUTLINE_THICKNESS {
            panely - y
        } else {
            OUTLINE_THICKNESS
        };
        if vth > 0 {
            r.push(Rect { x, y, width, height: vth });
        }
    }
    let bottom_y = y + height;
    if bottom_y > panely {
        let vbh = OUTLINE_THICKNESS - (bottom_y - panely);
        if vbh > 0 {
            r.push(Rect { x, y: panely - vbh, width, height: vbh });
        }
    } else {
        r.push(Rect { x, y: bottom_y - OUTLINE_THICKNESS, width, height: OUTLINE_THICKNESS });
    }
    let cap = panely - y - OUTLINE_THICKNESS;
    let vlh = if height - 2 * OUTLINE_THICKNESS <= cap {
        height - 2 * OUTLINE_THICKNESS
    } else {
        cap
    };
    if vlh > 0 {
        r.push(Rect { x, y: y + OUTLINE_THICKNESS, width: OUTLINE_THICKNESS, height: vlh });
        r.push(
            Rect {
                x: x + width - OUTLINE_THICKNESS,
                y: y + OUTLINE_THICKNESS,
                width: OUTLINE_THICKNESS,
                height: vlh,
            },
        );
    }
    proof {
        assert(r@ =~= outline_rects_spec(
            x as int,
            y as int,
            width as int,
            height as int,
            panely as int,
        ));
    }
    r
}

} // verus!
