//! Where drawn content sits on the canvas, and the text orientation.

use vstd::prelude::*;
use crate::text::str_eq;

verus! {

/// Padding from the top for vertical text, so the cursor is not cut
/// off.
pub const VERTICAL_TOP_PADDING: i32 = 10;

/// Padding from the left for vertical text.
pub const VERTICAL_LEFT_PADDING: i32 = 10;

/// Width of the line-number gutter column in horizontal mode.
pub const GUTTER_WIDTH: i32 = 44;

/// Height of the column-number strip in vertical mode.
pub const GUTTER_HEIGHT: i32 = 26;

/// The left/top offset of everything drawn: the base padding, widened
/// on the side the gutter occupies when line numbers are shown (a top
/// strip in vertical mode, a left column otherwise).
pub open spec fn spec_content_padding(show_line_numbers: bool, orientation: Seq<char>) -> (i32, i32) {
    if !show_line_numbers {
        (VERTICAL_LEFT_PADDING, VERTICAL_TOP_PADDING)
    } else if orientation == "vertical"@ {
        (VERTICAL_LEFT_PADDING, (VERTICAL_TOP_PADDING + GUTTER_HEIGHT) as i32)
    } else {
        ((VERTICAL_LEFT_PADDING + GUTTER_WIDTH) as i32, VERTICAL_TOP_PADDING)
    }
}

/// How far (in device pixels) everything painted, text and overlays
/// alike, is shifted right and down; pointer positions are shifted back
/// by the same amounts.
pub fn content_padding(show_line_numbers: bool, orientation: &str) -> (r: (i32, i32))
    ensures
        r == spec_content_padding(show_line_numbers, orientation@),
{
    if !show_line_numbers {
        return (VERTICAL_LEFT_PADDING, VERTICAL_TOP_PADDING);
    }
    if str_eq(orientation, "vertical") {
        (VERTICAL_LEFT_PADDING, VERTICAL_TOP_PADDING + GUTTER_HEIGHT)
    } else {
        (VERTICAL_LEFT_PADDING + GUTTER_WIDTH, VERTICAL_TOP_PADDING)
    }
}

/// The orientation a toggle switches to: vertical becomes horizontal;
/// anything else becomes vertical.
pub open spec fn spec_toggled_orientation(current: Seq<char>) -> Seq<char> {
    if current == "vertical"@ {
        "horizontal"@
    } else {
        "vertical"@
    }
}

/// The orientation a toggle switches to.
pub fn toggled_orientation(current: &str) -> (r: &'static str)
    ensures
        r@ == spec_toggled_orientation(current@),
{
    if str_eq(current, "vertical") {
        "horizontal"
    } else {
        "vertical"
    }
}

/// Whether an orientation setting lays text out in vertical columns.
pub fn is_vertical(orientation: &str) -> (r: bool)
    ensures
        r == (orientation@ == "vertical"@),
{
    str_eq(orientation, "vertical")
}

/// Toggling twice returns to where one started, from either
/// orientation.
pub proof fn lemma_toggle_twice(current: Seq<char>)
    requires
        current == "vertical"@ || current == "horizontal"@,
    ensures
        spec_toggled_orientation(spec_toggled_orientation(current)) == current,
{
    reveal_strlit("vertical");
    reveal_strlit("horizontal");
    assert("vertical"@ != "horizontal"@) by {
        assert("vertical"@.len() != "horizontal"@.len());
    }
}


/// The part of the rectangle at `(x, y)` of size `w` x `h` that lies on
/// a `width` x `height` pixel buffer, as `(x_start, y_start, x_end,
/// y_end)` with exclusive ends; `None` when none of it does. Sizes are
/// read as `i32` (wrapping, as `as` casts do), so a size beyond
/// `i32::MAX` counts as negative.
pub open spec fn spec_clip_rect(width: u32, height: u32, x: i32, y: i32, w: u32, h: u32) -> Option<
    (u32, u32, u32, u32),
> {
    let bw = #[verifier::truncate] (width as i32);
    let bh = #[verifier::truncate] (height as i32);
    let right = x + #[verifier::truncate] (w as i32);
    let bottom = y + #[verifier::truncate] (h as i32);
    if right <= 0 || x >= bw || bottom <= 0 || y >= bh {
        None
    } else {
        Some(
            (
                (if x > 0 {
                    x
                } else {
                    0
                }) as u32,
                (if y > 0 {
                    y
                } else {
                    0
                }) as u32,
                (if right < bw {
                    right
                } else {
                    bw as int
                }) as u32,
                (if bottom < bh {
                    bottom
                } else {
                    bh as int
                }) as u32,
            ),
        )
    }
}

/// Clip a rectangle to a pixel buffer before painting it. Within `i32`
/// every size is as given; see [`spec_clip_rect`] for larger ones.
pub fn clip_rect(width: u32, height: u32, x: i32, y: i32, w: u32, h: u32) -> (r: Option<(u32, u32, u32, u32)>)
    requires
        i32::MIN <= x + (w as i32) <= i32::MAX,
        i32::MIN <= y + (h as i32) <= i32::MAX,
    ensures
        r == spec_clip_rect(width, height, x, y, w, h),
        width <= i32::MAX && height <= i32::MAX && w <= i32::MAX && h <= i32::MAX ==> (r matches Some(
            (x0, y0, x1, y1),
        ) ==> x0 <= x1 <= width && y0 <= y1 <= height),
{
    proof {
        assert(width <= i32::MAX ==> #[verifier::truncate] (width as i32) == width) by (bit_vector);
        assert(height <= i32::MAX ==> #[verifier::truncate] (height as i32) == height) by (bit_vector);
        assert(w <= i32::MAX ==> #[verifier::truncate] (w as i32) == w) by (bit_vector);
        assert(h <= i32::MAX ==> #[verifier::truncate] (h as i32) == h) by (bit_vector);
    }
    let bw = #[verifier::truncate] (width as i32);
    let bh = #[verifier::truncate] (height as i32);
    let right = x + #[verifier::truncate] (w as i32);
    let bottom = y + #[verifier::truncate] (h as i32);
    if right <= 0 || x >= bw || bottom <= 0 || y >= bh {
        return None;
    }
    let x_start = if x > 0 {
        x
    } else {
        0
    };
    let y_start = if y > 0 {
        y
    } else {
        0
    };
    let x_end = if right < bw {
        right
    } else {
        bw
    };
    let y_end = if bottom < bh {
        bottom
    } else {
        bh
    };
    Some((x_start as u32, y_start as u32, x_end as u32, y_end as u32))
}

} // verus!
