//! The scroll/viewport controller: a two-dimensional pixel offset,
//! never positive on either axis, clamped so the content never
//! drifts away from the viewport; scrollbar visibility driven by
//! epoch-token timers; and scrollbar geometry.
//!
//! Pixels are integers here. A method that schedules a timer
//! returns the epoch token the wake-up must hand back; a wake-up
//! whose token no longer matches is stale and changes nothing.

use vstd::prelude::*;

use crate::layout::{height_before, width_from, Lines, MAX_ADVANCE, MAX_LAYOUT_CHARS};

verus! {

/// Upper bound on window coordinates handed to the controller.
pub const MAX_DIM: i64 = 0x4000_0000;

/// Upper bound on the magnitude of a scroll offset.
pub const MAX_OFF: i64 = 0x100_0000_0000;

/// A point in pixels.
#[derive(Clone, Copy, PartialEq, Eq, Structural, Debug)]
pub struct PointPx {
    pub x: i64,
    pub y: i64,
}

impl PointPx {
    pub fn new(x: i64, y: i64) -> (r: Self)
        ensures
            r.x == x && r.y == y,
    {
        PointPx { x, y }
    }

    pub open spec fn small(&self) -> bool {
        -MAX_DIM <= self.x <= MAX_DIM && -MAX_DIM <= self.y <= MAX_DIM
    }

    /// Runtime check for `small`.
    pub fn check_small(&self) -> (r: bool)
        ensures
            r == self.small(),
    {
        -MAX_DIM <= self.x && self.x <= MAX_DIM && -MAX_DIM <= self.y && self.y <= MAX_DIM
    }
}

/// An axis-aligned pixel rectangle.
#[derive(Clone, Copy, PartialEq, Eq, Structural, Debug)]
pub struct RectPx {
    pub origin: PointPx,
    pub width: i64,
    pub height: i64,
}

impl RectPx {
    pub open spec fn wf(&self) -> bool {
        &&& 0 <= self.origin.x <= MAX_DIM
        &&& 0 <= self.origin.y <= MAX_DIM
        &&& 0 <= self.width <= MAX_DIM
        &&& 0 <= self.height <= MAX_DIM
    }

    pub fn new(x: i64, y: i64, width: i64, height: i64) -> (r: Self)
        ensures
            r.origin.x == x && r.origin.y == y && r.width == width && r.height == height,
    {
        RectPx { origin: PointPx { x, y }, width, height }
    }

    /// Runtime check for `wf`.
    pub fn check_wf(&self) -> (r: bool)
        ensures
            r == self.wf(),
    {
        0 <= self.origin.x && self.origin.x <= MAX_DIM && 0 <= self.origin.y && self.origin.y
            <= MAX_DIM && 0 <= self.width && self.width <= MAX_DIM && 0 <= self.height
            && self.height <= MAX_DIM
    }

    pub open spec fn spec_right(&self) -> int {
        self.origin.x + self.width
    }

    pub fn right(&self) -> (r: i64)
        requires
            self.wf(),
        ensures
            r == self.spec_right(),
    {
        self.origin.x + self.width
    }

    pub open spec fn spec_bottom(&self) -> int {
        self.origin.y + self.height
    }

    pub fn bottom(&self) -> (r: i64)
        requires
            self.wf(),
        ensures
            r == self.spec_bottom(),
    {
        self.origin.y + self.height
    }
}

/// What the horizontal offset becomes after the cursor moves to
/// pixel `cursor_x`: unchanged while the cursor stays within the
/// horizontal margin band, otherwise shifted so the cursor sits at
/// the band's edge.
pub open spec fn offset_x_after_move(off_x: int, cursor_x: int, bounds: RectPx, ph: int) -> int {
    let screen_x = cursor_x + off_x;
    if screen_x < bounds.origin.x + ph {
        if 0 <= -(cursor_x - (bounds.origin.x + ph)) {
            0
        } else {
            -(cursor_x - (bounds.origin.x + ph))
        }
    } else if screen_x > bounds.origin.x + bounds.width - ph {
        -(cursor_x - bounds.width + ph)
    } else {
        off_x
    }
}

/// Vertical margin in lines, shrunk to one line for small viewports.
pub open spec fn effective_padding(bounds: RectPx, pv: int, lh: int) -> int {
    if bounds.height < pv * lh + pv * lh {
        1
    } else {
        pv
    }
}

/// What the vertical offset becomes after the cursor moves to pixel
/// `cursor_y` (measured from the top of the content): unchanged
/// while the cursor stays within the vertical margin band.
pub open spec fn offset_y_after_move(
    off_y: int,
    cursor_y: int,
    bounds: RectPx,
    pv: int,
    lh: int,
) -> int {
    let p = effective_padding(bounds, pv, lh);
    let cy = bounds.origin.y + cursor_y + lh / 2;
    let margin_top = bounds.origin.y + lh * p;
    let margin_bottom = bounds.origin.y + bounds.height - lh * p;
    let lower = -off_y + margin_top;
    let upper = -off_y + margin_bottom;
    if cy < lower {
        if 0 <= -(cy - margin_top) {
            0
        } else {
            -(cy - margin_top)
        }
    } else if cy > upper {
        -(cy - margin_bottom)
    } else {
        off_y
    }
}

/// One axis of a wheel scroll: the offset moves by the delta and is
/// clamped to `[-(content - viewport extent), 0]`, or to 0 when the
/// content fits.
pub open spec fn offset_after_scroll(off: int, d: int, content: int, viewport: int) -> int {
    let moved = off + d;
    let lowest = -(content - viewport);
    let held = if moved >= lowest {
        moved
    } else {
        lowest
    };
    if held <= 0 {
        held
    } else {
        0
    }
}

/// The vertical offset of an absolute drag to `pos_y` within the
/// scrollbar: the fraction of the bar above the pointer, applied to
/// the content height less half a viewport.
pub open spec fn offset_y_after_drag(content_h: int, bounds: RectPx, pos_y: int) -> int {
    let diff_raw: int = pos_y - bounds.origin.y;
    let diff: int = if diff_raw < 0 {
        0int
    } else if diff_raw > bounds.height {
        bounds.height as int
    } else {
        diff_raw
    };
    let span: int = content_h - (bounds.height as int) / 2;
    let num: int = span * diff;
    if num <= 0 {
        0int
    } else {
        -(num / (bounds.height as int))
    }
}

/// Maintains the viewport offset and the scrollbar's visibility.
pub struct ScrollManager {
    /// Whether the scrollbar is currently visible.
    pub show: bool,
    /// Epoch for visibility fade wake-ups.
    pub show_epoch: usize,
    /// Epoch for deliberate offset recomputations; a recomputation
    /// scheduled under an older epoch is stale and does nothing.
    pub calc_epoch: usize,
    /// Width of the scrollbar strip.
    pub width: i64,
    /// Current offset; both axes are at most zero.
    pub offset: PointPx,
    /// Vertical margin, in lines, the cursor is kept clear of.
    pub padding_vertical: i64,
    /// Horizontal margin, in pixels, the cursor is kept clear of.
    pub padding_horizontal: i64,
}

impl ScrollManager {
    /// The offset never leaves the lower-right quadrant's closure
    /// and stays within machine range; the paddings and bar width
    /// are the fixed configuration.
    pub open spec fn wf(&self) -> bool {
        &&& -MAX_OFF <= self.offset.x <= 0
        &&& -MAX_OFF <= self.offset.y <= 0
        &&& self.width == 16
        &&& self.padding_vertical == 2
        &&& self.padding_horizontal == 32
    }

    pub fn new() -> (r: Self)
        ensures
            r.wf(),
            r.show,
            r.show_epoch == 0,
            r.calc_epoch == 0,
            r.offset.x == 0 && r.offset.y == 0,
    {
        ScrollManager {
            show: true,
            show_epoch: 0,
            calc_epoch: 0,
            width: 16,
            offset: PointPx { x: 0, y: 0 },
            padding_vertical: 2,
            padding_horizontal: 32,
        }
    }

    pub fn next_show_epoch(&mut self) -> (r: usize)
        requires
            old(self).show_epoch < usize::MAX,
        ensures
            *final(self) == (ScrollManager { show_epoch: (old(self).show_epoch + 1) as usize, ..*old(self) }),
            r == final(self).show_epoch,
    {
        self.show_epoch = self.show_epoch + 1;
        self.show_epoch
    }

    pub fn next_calc_epoch(&mut self) -> (r: usize)
        requires
            old(self).calc_epoch < usize::MAX,
        ensures
            *final(self) == (ScrollManager { calc_epoch: (old(self).calc_epoch + 1) as usize, ..*old(self) }),
            r == final(self).calc_epoch,
    {
        self.calc_epoch = self.calc_epoch + 1;
        self.calc_epoch
    }

    /// A fresh show wake-up makes the bar visible and schedules the
    /// fade under the returned token; a stale one changes nothing.
    pub fn show(&mut self, epoch: usize) -> (r: Option<usize>)
        requires
            old(self).show_epoch < usize::MAX,
        ensures
            epoch == old(self).show_epoch ==> *final(self) == (ScrollManager {
                show: true,
                show_epoch: (old(self).show_epoch + 1) as usize,
                ..*old(self)
            }) && r == Some(final(self).show_epoch),
            epoch != old(self).show_epoch ==> *final(self) == *old(self) && r is None,
    {
        if epoch == self.show_epoch {
            self.show = true;
            let next = self.next_show_epoch();
            Some(next)
        } else {
            None
        }
    }

    /// A fresh fade wake-up hides the bar; a stale one changes
    /// nothing.
    pub fn fade(&mut self, epoch: usize)
        ensures
            epoch == old(self).show_epoch ==> *final(self) == (ScrollManager {
                show: false,
                ..*old(self)
            }),
            epoch != old(self).show_epoch ==> *final(self) == *old(self),
    {
        if epoch == self.show_epoch {
            self.show = false;
        }
    }

    /// Shows the bar on activation and schedules its fade.
    pub fn enable(&mut self) -> (r: Option<usize>)
        requires
            old(self).show_epoch < usize::MAX,
        ensures
            *final(self) == (ScrollManager {
                show: true,
                show_epoch: (old(self).show_epoch + 1) as usize,
                ..*old(self)
            }),
            r == Some(final(self).show_epoch),
    {
        let e = self.show_epoch;
        self.show(e)
    }

    /// Whether a pointer position falls on the scrollbar strip.
    pub fn is_in_scrollbar(&self, position: PointPx, bounds: &RectPx) -> (r: bool)
        requires
            self.wf(),
            bounds.wf(),
        ensures
            r == (position.x >= bounds.spec_right() - self.width),
    {
        position.x >= bounds.right() - self.width
    }

    /// The rectangle the scrollbar strip occupies.
    pub fn bounds(&self, bounds: &RectPx) -> (r: RectPx)
        requires
            self.wf(),
            bounds.wf(),
        ensures
            r.origin.x == bounds.spec_right() - self.width,
            r.origin.y == bounds.origin.y,
            r.width == self.width,
            r.height == bounds.height,
    {
        RectPx {
            origin: PointPx { x: bounds.right() - self.width, y: bounds.origin.y },
            width: self.width,
            height: bounds.height,
        }
    }
}


/// Pixel height of the thumb for a viewport of height `bh` over
/// content of height `th`: proportional to the visible share, with
/// minimum and maximum clamps.
pub open spec fn thumb_height_spec(bh: int, th: int) -> int {
    let maxh = bh * 9 / 10;
    let minh = if 42 <= maxh {
        42int
    } else {
        maxh
    };
    let raw = bh * bh / th;
    raw * (maxh - minh) / bh + minh
}

/// Pixel offset of the thumb within its track for scroll offset
/// magnitude `off_mag`, clamped to the track.
pub open spec fn thumb_offset_spec(bh: int, th: int, off_mag: int) -> int {
    let hgt = thumb_height_spec(bh, th);
    let sat = if bh > hgt + 2 {
        bh - hgt - 2
    } else {
        0int
    };
    let denom = th - bh * 8 / 10;
    let raw = sat * off_mag / denom;
    if raw <= sat {
        raw
    } else {
        sat
    }
}

impl ScrollManager {
    /// Repositions the viewport after a cursor move so the cursor
    /// stays within the margin bands, if the recomputation token is
    /// still current; shows the scrollbar only when the vertical
    /// offset actually changed. A stale token changes nothing.
    #[verifier::loop_isolation(false)]
    #[verifier::rlimit(60)]
    pub fn calc_offset_after_move(
        &mut self,
        epoch: usize,
        line_idx: usize,
        cursor_byte_idx: usize,
        lines: &Lines,
        bounds: &RectPx,
    ) -> (r: Option<usize>)
        requires
            old(self).wf(),
            old(self).show_epoch < usize::MAX,
            lines.wf(),
            bounds.wf(),
            line_idx < lines.lines@.len(),
        ensures
            final(self).wf(),
            final(self).calc_epoch == old(self).calc_epoch,
            epoch != old(self).calc_epoch ==> *final(self) == *old(self) && r is None,
            epoch == old(self).calc_epoch ==> ({
                let l = lines.lines@[line_idx as int];
                let c = crate::layout::char_idx_for_byte_from(l, cursor_byte_idx as int, 0);
                let k = crate::layout::row_of(l, c);
                let cursor_x = crate::layout::sum_widths(l.widths@, l.row_starts@[k] as int, c);
                let cursor_y = height_before(
                    lines.lines@,
                    line_idx as int,
                    lines.line_height as int,
                ) + k * lines.line_height;
                &&& final(self).offset.x == offset_x_after_move(
                    old(self).offset.x as int,
                    cursor_x,
                    *bounds,
                    32,
                )
                &&& final(self).offset.y == offset_y_after_move(
                    old(self).offset.y as int,
                    cursor_y,
                    *bounds,
                    2,
                    lines.line_height as int,
                )
                &&& (final(self).offset.y != old(self).offset.y ==> final(self).show
                    && final(self).show_epoch == old(self).show_epoch + 1
                    && r == Some(final(self).show_epoch))
                &&& (final(self).offset.y == old(self).offset.y ==> final(self).show == old(self).show
                    && final(self).show_epoch == old(self).show_epoch && r is None)
            }),
    {
        if epoch != self.calc_epoch {
            return None;
        }

        let (cx_u, cy_u) = lines.position_for_byte_idx_in_line(cursor_byte_idx, line_idx);
        proof {
            let l = lines.lines@[line_idx as int];
            assert(l.wf(lines.wrap_width));
            let c = crate::layout::char_idx_for_byte_from(l, cursor_byte_idx as int, 0);
            crate::layout::lemma_char_idx_for_byte_bounds(l, cursor_byte_idx as int, 0);
            crate::layout::lemma_row_starts_props(l, lines.wrap_width);
            let k = crate::layout::row_of(l, c);
            crate::layout::lemma_row_of_from_props(l, c, 0);
            crate::layout::lemma_sum_widths_bound(l.widths@, l.row_starts@[k] as int, c);
            vstd::arithmetic::mul::lemma_mul_inequality(
                c - l.row_starts@[k] as int,
                MAX_LAYOUT_CHARS as int,
                MAX_ADVANCE as int,
            );
            lines.lemma_height_fits(line_idx as int);
            crate::layout::lemma_line_rows_bound(l, lines.wrap_width);
            vstd::arithmetic::mul::lemma_mul_inequality(
                k,
                (MAX_LAYOUT_CHARS as int) + 1,
                lines.line_height as int,
            );
            vstd::arithmetic::mul::lemma_mul_inequality(
                lines.line_height as int,
                MAX_ADVANCE as int,
                (MAX_LAYOUT_CHARS as int) + 1,
            );
            vstd::arithmetic::mul::lemma_mul_inequality(0, k, lines.line_height as int);
            assert(cx_u as int <= 0x4000_0000);
            assert(cy_u as int <= 0x1_0000_0000 + 0x8000_0000);
        }
        let cursor_x: i64 = cx_u as i64;
        let cursor_y: i64 = cy_u as i64;
        assert(0 <= cursor_x <= 0x4000_0000);
        assert(0 <= cursor_y <= 0x1_8000_0000);

        let cursor_screen_x = cursor_x + self.offset.x;
        let new_x = if cursor_screen_x < bounds.origin.x + self.padding_horizontal {
            let v = -(cursor_x - (bounds.origin.x + self.padding_horizontal));
            if 0 <= v {
                0
            } else {
                v
            }
        } else if cursor_screen_x > bounds.origin.x + bounds.width - self.padding_horizontal {
            -(cursor_x - bounds.width + self.padding_horizontal)
        } else {
            self.offset.x
        };
        assert(-MAX_OFF <= new_x <= 0);
        self.offset.x = new_x;

        let lh: i64 = lines.line_height as i64;
        let padding = if bounds.height < self.padding_vertical * lh + self.padding_vertical * lh {
            1
        } else {
            self.padding_vertical
        };

        let cy = bounds.origin.y + cursor_y + lh / 2;
        let margin_top = bounds.origin.y + lh * padding;
        let margin_bottom = bounds.origin.y + bounds.height - lh * padding;
        let lower = -self.offset.y + margin_top;
        let upper = -self.offset.y + margin_bottom;

        let old_y = self.offset.y;
        let new_y = if cy < lower {
            let v = -(cy - margin_top);
            if 0 <= v {
                0
            } else {
                v
            }
        } else if cy > upper {
            -(cy - margin_bottom)
        } else {
            self.offset.y
        };
        assert(-MAX_OFF <= new_y <= 0);
        self.offset.y = new_y;

        if old_y != new_y {
            let e = self.show_epoch;
            self.show(e)
        } else {
            None
        }
    }

    /// Moves the viewport by a wheel delta, clamping each axis to
    /// the content's extent, and shows the scrollbar.
    pub fn calc_offset_after_scroll(
        &mut self,
        delta: PointPx,
        lines: &Lines,
        bounds: &RectPx,
    ) -> (r: Option<usize>)
        requires
            old(self).wf(),
            old(self).show_epoch < usize::MAX,
            delta.small(),
            lines.wf(),
            bounds.wf(),
        ensures
            final(self).wf(),
            final(self).calc_epoch == old(self).calc_epoch,
            final(self).offset.x == offset_after_scroll(
                old(self).offset.x as int,
                delta.x as int,
                width_from(lines.lines@, 0),
                bounds.width as int,
            ),
            final(self).offset.y == offset_after_scroll(
                old(self).offset.y as int,
                delta.y as int,
                height_before(lines.lines@, lines.lines@.len() as int, lines.line_height as int)
                    + lines.line_height * 2,
                bounds.height as int,
            ),
            final(self).show,
            final(self).show_epoch == old(self).show_epoch + 1,
            r == Some(final(self).show_epoch),
    {
        proof {
            lines.lemma_height_fits(lines.lines@.len() as int);
        }
        let content_width = lines.width() as i64;
        let moved_x = self.offset.x + delta.x;
        let lowest_x = -(content_width - bounds.width);
        let held_x = if moved_x >= lowest_x {
            moved_x
        } else {
            lowest_x
        };
        self.offset.x = if held_x <= 0 {
            held_x
        } else {
            0
        };
        assert(-MAX_OFF <= self.offset.x <= 0);

        let content_height = lines.height() as i64 + (lines.line_height as i64) * 2;
        let moved_y = self.offset.y + delta.y;
        let lowest_y = -(content_height - bounds.height);
        let held_y = if moved_y >= lowest_y {
            moved_y
        } else {
            lowest_y
        };
        self.offset.y = if held_y <= 0 {
            held_y
        } else {
            0
        };
        assert(-MAX_OFF <= self.offset.y <= 0);

        let e = self.show_epoch;
        self.show(e)
    }

    /// Absolute drag of the scrollbar thumb: maps the pointer's
    /// fraction of the bar to a vertical offset, and shows the bar.
    pub fn scroll_to(&mut self, position: PointPx, lines: &Lines, bounds: &RectPx) -> (r: Option<
        usize,
    >)
        requires
            old(self).wf(),
            old(self).show_epoch < usize::MAX,
            position.small(),
            lines.wf(),
            bounds.wf(),
            bounds.height >= 1,
        ensures
            final(self).wf(),
            final(self).calc_epoch == old(self).calc_epoch,
            final(self).offset.x == old(self).offset.x,
            final(self).offset.y == offset_y_after_drag(
                height_before(lines.lines@, lines.lines@.len() as int, lines.line_height as int),
                *bounds,
                position.y as int,
            ),
            final(self).show,
            final(self).show_epoch == old(self).show_epoch + 1,
            r == Some(final(self).show_epoch),
    {
        proof {
            lines.lemma_height_fits(lines.lines@.len() as int);
        }
        let h = lines.height() as i64;
        let diff_raw = position.y - bounds.origin.y;
        let diff = if diff_raw < 0 {
            0
        } else if diff_raw > bounds.height {
            bounds.height
        } else {
            diff_raw
        };
        let bh2: i64 = ((bounds.height as u64) / 2) as i64;
        let span = h - bh2;
        assert(span as int <= 0x1_0000_0000 && -0x4000_0000 <= span as int);
        assert(0 <= diff as int <= 0x4000_0000);
        proof {
            assert((span as int) * (diff as int) <= 0x4000_0000_0000_0000 && (span as int) * (
            diff as int) >= -0x4000_0000_0000_0000) by (nonlinear_arith)
                requires
                    span as int <= 0x1_0000_0000,
                    -0x4000_0000 <= span as int,
                    0 <= diff as int <= 0x4000_0000,
            ;
        }
        let num = span * diff;
        if num <= 0 {
            self.offset.y = 0;
        } else {
            let q = (num as u64) / (bounds.height as u64);
            proof {
                assert((num as int) / (bounds.height as int) <= span as int) by (nonlinear_arith)
                    requires
                        num as int == (span as int) * (diff as int),
                        0 < num as int,
                        0 <= diff as int <= bounds.height as int,
                        1 <= bounds.height as int,
                ;
                assert((num as int) / (bounds.height as int) >= 0) by (nonlinear_arith)
                    requires
                        0 < num as int,
                        1 <= bounds.height as int,
                ;
            }
            assert(q as int <= 0x2_0000_0000);
            self.offset.y = -(q as i64);
        }

        let e = self.show_epoch;
        self.show(e)
    }

    /// Scrollbar geometry for a paint pass: the track, the thumb
    /// and the cursor-position marker, or `None` when the bar is
    /// hidden or the content fits the viewport.
    pub fn paint_bar(&self, bounds: &RectPx, text_height: u64, cursor_y: u64) -> (r: Option<
        (RectPx, RectPx, RectPx),
    >)
        requires
            self.wf(),
            bounds.wf(),
            text_height <= 0x1_0000_0000_0000,
        ensures
            (r is Some) <==> (self.show && 1 <= bounds.height && (bounds.height as u64)
                < text_height),
            r is Some ==> ({
                let (track, thumb, marker) = r.unwrap();
                let bh = bounds.height as int;
                let th = text_height as int;
                &&& track.origin.x == bounds.spec_right() - self.width
                &&& track.origin.y == bounds.origin.y
                &&& track.width == self.width
                &&& track.height == bounds.height
                &&& thumb.origin.x == track.origin.x + 4
                &&& thumb.origin.y == bounds.origin.y + 1 + thumb_offset_spec(
                    bh,
                    th,
                    -self.offset.y,
                )
                &&& 0 <= thumb_offset_spec(bh, th, -self.offset.y) <= bh
                &&& thumb.width == self.width - 8
                &&& thumb.height == thumb_height_spec(bh, th)
                &&& 0 <= thumb_height_spec(bh, th) <= bh
                &&& marker.origin.x == track.origin.x + 3
                &&& marker.origin.y == bounds.origin.y + bh * (if cursor_y as int <= th {
                    cursor_y as int
                } else {
                    th
                }) / th
                &&& marker.width == self.width - 6
                &&& marker.height == 2
            }),
    {
        if bounds.height < 1 || (bounds.height as u64) >= text_height || !self.show {
            return None;
        }

        let bh: u64 = bounds.height as u64;
        proof {
            assert((bh as int) * (bh as int) <= 0x4000_0000 * 0x4000_0000) by (nonlinear_arith)
                requires
                    0 <= bh as int <= 0x4000_0000,
            ;
        }
        let maxh: u64 = bh * 9 / 10;
        let minh: u64 = if 42 <= maxh {
            42
        } else {
            maxh
        };
        let raw: u64 = bh * bh / text_height;
        proof {
            assert(raw <= bh && maxh <= bh && minh <= maxh) by (nonlinear_arith)
                requires
                    raw as int == ((bh as int) * (bh as int)) / (text_height as int),
                    maxh as int == (bh as int) * 9 / 10,
                    minh as int == (if 42 <= maxh as int {
                        42int
                    } else {
                        maxh as int
                    }),
                    1 <= bh as int,
                    (bh as int) < text_height as int,
                    bh as int <= MAX_DIM as int,
            ;
        }
        proof {
            assert((raw as int) * ((maxh - minh) as int) <= 0x4000_0000 * 0x4000_0000) by (nonlinear_arith)
                requires
                    0 <= raw as int <= 0x4000_0000,
                    0 <= (maxh - minh) as int <= 0x4000_0000,
            ;
        }
        let hgt: u64 = raw * (maxh - minh) / bh + minh;
        proof {
            assert((raw as int) * ((maxh - minh) as int) / (bh as int) + (minh as int) <= maxh as int)
                by (nonlinear_arith)
                requires
                    raw as int <= bh as int,
                    minh as int <= maxh as int,
                    1 <= bh as int,
            ;
        }
        let sat: u64 = if bh > hgt + 2 {
            bh - hgt - 2
        } else {
            0
        };
        let off_mag: u64 = (-self.offset.y) as u64;
        let denom: u64 = text_height - bh * 8 / 10;
        proof {
            assert(bh * 8 / 10 <= bh) by (nonlinear_arith)
                requires
                    1 <= bh,
                    bh <= MAX_DIM as u64,
            ;
        }
        proof {
            assert((sat as int) * (off_mag as int) <= 0x4000_0000 * 0x100_0000_0000) by (nonlinear_arith)
                requires
                    0 <= sat as int <= 0x4000_0000,
                    0 <= off_mag as int <= 0x100_0000_0000,
            ;
        }
        let raw_track: u128 = (sat as u128) * (off_mag as u128) / (denom as u128);
        let off_y_track: u64 = if raw_track <= (sat as u128) {
            raw_track as u64
        } else {
            sat
        };
        proof {
            assert(raw_track as int == (sat as int) * (off_mag as int) / (denom as int)) by (nonlinear_arith)
                requires
                    raw_track as int == ((sat as int) * (off_mag as int)) / (denom as int),
                    1 <= denom as int,
                    0 <= sat as int,
                    0 <= off_mag as int,
            ;
        }

        let cy_clamped: u64 = if cursor_y <= text_height {
            cursor_y
        } else {
            text_height
        };
        proof {
            assert((bh as int) * (cy_clamped as int) <= 0x4000_0000 * 0x1_0000_0000_0000) by (nonlinear_arith)
                requires
                    0 <= bh as int <= 0x4000_0000,
                    0 <= cy_clamped as int <= 0x1_0000_0000_0000,
            ;
        }
        let mark_raw: u128 = (bh as u128) * (cy_clamped as u128) / (text_height as u128);
        proof {
            assert(mark_raw as int <= bh as int && mark_raw as int == (bh as int) * (
            cy_clamped as int) / (text_height as int)) by (nonlinear_arith)
                requires
                    mark_raw as int == ((bh as int) * (cy_clamped as int)) / (text_height as int),
                    1 <= text_height as int,
                    cy_clamped as int <= text_height as int,
                    0 <= bh as int,
            ;
        }
        let mark_y: i64 = bounds.origin.y + (mark_raw as u64) as i64;

        let track = self.bounds(bounds);
        let thumb = RectPx {
            origin: PointPx { x: track.origin.x + 4, y: bounds.origin.y + 1 + off_y_track as i64 },
            width: self.width - 8,
            height: hgt as i64,
        };
        let marker = RectPx {
            origin: PointPx { x: track.origin.x + 3, y: mark_y },
            width: self.width - 6,
            height: 2,
        };
        Some((track, thumb, marker))
    }
}

} // verus!
