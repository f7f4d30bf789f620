//! Where a scrollbar and its thumb are, in pixels.

use vstd::prelude::*;

verus! {

pub const MAX_SCROLLBAR_THUMB_WIDTH: usize = 11;

pub const MIN_SCROLLBAR_THUMB_WIDTH: usize = 8;

pub const MIN_SCROLLBAR_TRACK_INSET: usize = 8;

pub const MAX_SCROLLBAR_TRACK_INSET: usize = 12;

pub const SCROLLBAR_EDGE_INSET: usize = 3;

pub const SCROLLBAR_HOVER_SLOP: isize = 12;

/// The thumb of a scrollbar.
#[derive(Clone, Copy, PartialEq, Eq, Debug, Structural)]
pub struct ScrollHit {
    /// Offset from the top of the window in pixels.
    pub top: usize,
    /// Height of the thumb, in pixels.
    pub height: usize,
}

/// The track of a scrollbar, and where its thumb is across it.
#[derive(Clone, Copy, PartialEq, Eq, Debug, Structural)]
pub struct ScrollbarTrack {
    pub x: usize,
    pub width: usize,
    pub top: usize,
    pub height: usize,
    pub thumb_x: usize,
    pub thumb_width: usize,
}

/// The rows of a pane.
#[derive(Clone, Copy, PartialEq, Eq, Debug, Structural)]
pub struct PaneDimensions {
    /// Rows that are visible.
    pub viewport_rows: usize,
    /// Rows that are kept, the visible ones among them.
    pub scrollback_rows: usize,
    /// The first row of the screen at the bottom of the scrollback.
    pub physical_top: isize,
    /// The first row of the scrollback.
    pub scrollback_top: isize,
}

// ─── Numbers ─────────────────────────────────────────────────────────────────

/// The smaller of two numbers.
pub open spec fn at_most(a: int, limit: int) -> int {
    if a < limit {
        a
    } else {
        limit
    }
}

/// The larger of two numbers.
pub open spec fn at_least(a: int, limit: int) -> int {
    if a > limit {
        a
    } else {
        limit
    }
}

/// What is left of `a` without `b`, and at least nothing.
pub open spec fn without(a: int, b: int) -> int {
    at_least(a - b, 0)
}

/// A number that is held within the range of `isize`.
pub open spec fn saturated(a: int) -> int {
    at_least(at_most(a, isize::MAX as int), isize::MIN as int)
}

/// The signed number with the bits of `a`: the upper half of the range counts as negative.
pub open spec fn signed(a: usize) -> int {
    if a <= isize::MAX {
        a as int
    } else {
        a - usize::MAX - 1
    }
}

fn to_signed(a: usize) -> (r: isize)
    ensures
        r == signed(a),
{
    if a <= isize::MAX as usize {
        a as isize
    } else {
        let below: usize = usize::MAX - a;
        -(below as isize) - 1
    }
}

fn held_difference(a: isize, b: isize) -> (r: isize)
    ensures
        r == saturated(a - b),
{
    match a.checked_sub(b) {
        Some(r) => r,
        None => if b < 0 {
            isize::MAX
        } else {
            isize::MIN
        },
    }
}

fn held_sum(a: isize, b: isize) -> (r: isize)
    ensures
        r == saturated(a + b),
{
    match a.checked_add(b) {
        Some(r) => r,
        None => if b > 0 {
            isize::MAX
        } else {
            isize::MIN
        },
    }
}

fn min_of(a: usize, b: usize) -> (r: usize)
    ensures
        r == at_most(a as int, b as int),
{
    if a < b {
        a
    } else {
        b
    }
}

fn max_of(a: usize, b: usize) -> (r: usize)
    ensures
        r == at_least(a as int, b as int),
{
    if a > b {
        a
    } else {
        b
    }
}

// ─── Thumb ───────────────────────────────────────────────────────────────────

impl PaneDimensions {
    /// How many rows there are to scroll through.
    pub open spec fn extent(self) -> int {
        saturated(self.physical_top - self.scrollback_top)
    }

    /// How many rows there are to scroll through.
    pub fn scroll_extent(&self) -> (r: isize)
        ensures
            r == self.extent(),
    {
        held_difference(self.physical_top, self.scrollback_top)
    }

    /// How far the view is scrolled up. Without a position of its own it is not.
    pub fn scroll_distance(&self, viewport: Option<isize>) -> (r: isize)
        ensures
            r == saturated(
                self.physical_top - (match viewport {
                    Some(row) => row,
                    None => self.physical_top,
                }),
            ),
    {
        let row: isize = match viewport {
            Some(row) => row,
            None => self.physical_top,
        };
        held_difference(self.physical_top, row)
    }

    /// All rows of the pane.
    pub fn scroll_size(&self) -> (r: usize)
        ensures
            r == at_least(self.scrollback_rows as int, self.viewport_rows as int),
    {
        max_of(self.scrollback_rows, self.viewport_rows)
    }
}

/// The height of the thumb: `wanted`, but at most `max_visual` unless the least height is larger,
/// and never higher than the track.
pub open spec fn thumb_height_spec(
    wanted: usize,
    max_visual: usize,
    min_thumb_size: usize,
    max_thumb_height: usize,
) -> int {
    at_most(
        wanted as int,
        at_most(at_least(max_visual as int, min_thumb_size as int), max_thumb_height as int),
    )
}

/// The thumb in its track: it rests at the top where there is nothing to scroll through or no room
/// to move.
pub open spec fn thumb_spec(
    dims: PaneDimensions,
    max_thumb_height: usize,
    height: usize,
    travelled: usize,
) -> ScrollHit {
    if max_thumb_height == 0 {
        ScrollHit { top: 0, height: 0 }
    } else if dims.extent() <= 0 || height >= max_thumb_height {
        ScrollHit { top: 0, height }
    } else {
        ScrollHit { top: travelled, height }
    }
}

/// The row to which the thumb scrolls, `travelled` being the rows that it has come.
pub open spec fn scroll_top_spec(
    thumb: ScrollHit,
    dims: PaneDimensions,
    max_thumb_height: usize,
    travelled: isize,
) -> int {
    if max_thumb_height <= thumb.height || dims.extent() == 0 {
        dims.scrollback_top as int
    } else {
        saturated(dims.scrollback_top + travelled)
    }
}

impl ScrollHit {
    /// The height of the thumb. `wanted` is its share of the track, `max_visual` the largest share
    /// that looks well.
    pub fn thumb_height(
        wanted: usize,
        max_visual: usize,
        min_thumb_size: usize,
        max_thumb_height: usize,
    ) -> (r: usize)
        ensures
            r == thumb_height_spec(wanted, max_visual, min_thumb_size, max_thumb_height),
            r <= max_thumb_height,
    {
        min_of(wanted, min_of(max_of(max_visual, min_thumb_size), max_thumb_height))
    }

    /// The thumb, `travelled` being the pixels that it has come down its track.
    pub fn thumb(
        dims: &PaneDimensions,
        max_thumb_height: usize,
        height: usize,
        travelled: usize,
    ) -> (r: ScrollHit)
        ensures
            r == thumb_spec(*dims, max_thumb_height, height, travelled),
    {
        if max_thumb_height == 0 {
            return ScrollHit { top: 0, height: 0 };
        }
        if dims.scroll_extent() <= 0 || height >= max_thumb_height {
            return ScrollHit { top: 0, height };
        }
        ScrollHit { top: travelled, height }
    }

    /// How far down a dragged thumb is, and how far it can go.
    pub fn drag_position(&self, thumb_top: usize, max_thumb_height: usize) -> (r: (usize, usize))
        ensures
            r.1 == without(max_thumb_height as int, self.height as int),
            r.0 == at_most(thumb_top as int, r.1 as int),
    {
        let available: usize = max_thumb_height.saturating_sub(self.height);
        (min_of(thumb_top, available), available)
    }

    /// The row to which a dragged thumb scrolls, `travelled` being the rows that it has come.
    pub fn thumb_top_to_scroll_top(
        &self,
        dims: &PaneDimensions,
        max_thumb_height: usize,
        travelled: isize,
    ) -> (r: isize)
        ensures
            r == scroll_top_spec(*self, *dims, max_thumb_height, travelled),
    {
        let available: usize = max_thumb_height.saturating_sub(self.height);
        if available == 0 || dims.scroll_extent() == 0 {
            return dims.scrollback_top;
        }
        held_sum(dims.scrollback_top, travelled)
    }
}

// ─── Track ───────────────────────────────────────────────────────────────────

/// The width of the thumb.
pub open spec fn thumb_width_spec(track_width: int) -> int {
    at_most(
        at_most(
            at_least(without(track_width, 5), MIN_SCROLLBAR_THUMB_WIDTH as int),
            MAX_SCROLLBAR_THUMB_WIDTH as int,
        ),
        track_width,
    )
}

/// The width of the thumb: a little less than that of the track, within limits.
pub fn scrollbar_thumb_width(track_width: usize) -> (r: usize)
    ensures
        r == thumb_width_spec(track_width as int),
        r <= track_width,
{
    let wanted: usize = max_of(track_width.saturating_sub(5), MIN_SCROLLBAR_THUMB_WIDTH);
    min_of(min_of(wanted, MAX_SCROLLBAR_THUMB_WIDTH), track_width)
}

/// The left edge of the thumb.
pub open spec fn thumb_x_spec(track_x: int, track_width: int, thumb_width: int) -> int {
    track_x + without(track_width, thumb_width + SCROLLBAR_EDGE_INSET)
}

/// The left edge of the thumb: a gap is left between it and the right edge of the track.
pub fn scrollbar_thumb_x(track_x: usize, track_width: usize, thumb_width: usize) -> (r: usize)
    requires
        thumb_x_spec(track_x as int, track_width as int, thumb_width as int) <= usize::MAX,
    ensures
        r == thumb_x_spec(track_x as int, track_width as int, thumb_width as int),
{
    track_x + track_width.saturating_sub(thumb_width.saturating_add(SCROLLBAR_EDGE_INSET))
}

/// Whether `p` is at most the slop in front of `start` or behind `end`.
pub open spec fn near(p: int, start: int, end: int) -> bool {
    start - SCROLLBAR_HOVER_SLOP <= p <= end + SCROLLBAR_HOVER_SLOP
}

/// Whether the slop around a stretch can be told in machine numbers, as far as `p` needs it.
pub open spec fn near_fits(p: int, start: usize, len: usize) -> bool {
    &&& signed(start) - SCROLLBAR_HOVER_SLOP >= isize::MIN
    &&& p >= signed(start) - SCROLLBAR_HOVER_SLOP ==> {
        &&& start + len <= usize::MAX
        &&& signed((start + len) as usize) + SCROLLBAR_HOVER_SLOP <= isize::MAX
    }
}

/// Whether the pointer is on the track, or close to it.
pub fn scrollbar_hover_hit(
    track_x: usize,
    track_top: usize,
    track_width: usize,
    track_height: usize,
    x: isize,
    y: isize,
) -> (r: bool)
    requires
        near_fits(x as int, track_x, track_width),
        near(x as int, signed(track_x), signed((track_x + track_width) as usize)) ==> near_fits(
            y as int,
            track_top,
            track_height,
        ),
    ensures
        r == (near(x as int, signed(track_x), signed((track_x + track_width) as usize)) && near(
            y as int,
            signed(track_top),
            signed((track_top + track_height) as usize),
        )),
{
    x >= to_signed(track_x) - SCROLLBAR_HOVER_SLOP && x <= to_signed(track_x + track_width)
        + SCROLLBAR_HOVER_SLOP && y >= to_signed(track_top) - SCROLLBAR_HOVER_SLOP && y
        <= to_signed(track_top + track_height) + SCROLLBAR_HOVER_SLOP
}

/// The gap at both ends of the track.
pub open spec fn inset_spec(cell_height: usize) -> int {
    at_most(
        at_least((cell_height / 5) as int, MIN_SCROLLBAR_TRACK_INSET as int),
        MAX_SCROLLBAR_TRACK_INSET as int,
    )
}

/// The top of the track.
pub open spec fn track_top_spec(track_top: usize, cell_height: usize) -> int {
    at_most(track_top + inset_spec(cell_height), usize::MAX as int)
}

/// The track at the right edge of a window.
pub fn scrollbar_track(
    window_width: usize,
    window_height: usize,
    track_top: usize,
    bottom_reserved: usize,
    cell_height: usize,
    track_width: usize,
    right_reserved: usize,
) -> (r: ScrollbarTrack)
    requires
        track_top_spec(track_top, cell_height) + bottom_reserved + inset_spec(cell_height)
            <= usize::MAX,
    ensures
        r.x == without(window_width as int, track_width + right_reserved),
        r.width == track_width,
        r.top == track_top_spec(track_top, cell_height),
        r.height == without(
            window_height as int,
            track_top_spec(track_top, cell_height) + bottom_reserved + inset_spec(cell_height),
        ),
        r.thumb_width == thumb_width_spec(track_width as int),
        r.thumb_x == thumb_x_spec(r.x as int, track_width as int, r.thumb_width as int),
{
    let inset: usize = min_of(
        max_of(cell_height / 5, MIN_SCROLLBAR_TRACK_INSET),
        MAX_SCROLLBAR_TRACK_INSET,
    );
    let top: usize = track_top.saturating_add(inset);
    let height: usize = window_height.saturating_sub(top + bottom_reserved + inset);
    let width: usize = track_width;
    let x: usize = window_width.saturating_sub(width.saturating_add(right_reserved));
    let thumb_width: usize = scrollbar_thumb_width(width);
    let thumb_x: usize = scrollbar_thumb_x(x, width, thumb_width);
    ScrollbarTrack { x, width, top, height, thumb_x, thumb_width }
}

// ─── Laws ────────────────────────────────────────────────────────────────────

/// The thumb lies across its track: it does not stick out on either side.
pub proof fn law_thumb_lies_within_track(track_x: int, track_width: int)
    requires
        track_width >= 0,
    ensures
        ({
            let width = thumb_width_spec(track_width);
            let x = thumb_x_spec(track_x, track_width, width);
            &&& track_x <= x
            &&& x + width <= track_x + track_width
            &&& track_width >= width + SCROLLBAR_EDGE_INSET ==> x + width + SCROLLBAR_EDGE_INSET
                == track_x + track_width
        }),
{
}

/// The thumb lies along its track: it is never higher than the track, and where it rests it starts
/// at the top.
pub proof fn law_thumb_is_no_higher_than_track(
    dims: PaneDimensions,
    wanted: usize,
    max_visual: usize,
    min_thumb_size: usize,
    max_thumb_height: usize,
    travelled: usize,
)
    requires
        travelled <= max_thumb_height - thumb_height_spec(
            wanted,
            max_visual,
            min_thumb_size,
            max_thumb_height,
        ),
    ensures
        ({
            let height = thumb_height_spec(wanted, max_visual, min_thumb_size, max_thumb_height);
            let thumb = thumb_spec(dims, max_thumb_height, height as usize, travelled);
            &&& thumb.top + thumb.height <= max_thumb_height
            &&& dims.extent() <= 0 ==> thumb.top == 0
        }),
{
}

/// Whatever is on the track is near it.
pub proof fn law_track_is_hit(p: int, start: int, end: int)
    requires
        start <= p <= end,
    ensures
        near(p, start, end),
{
}

/// How wide the thumb is: five pixels less than its track, but at least eight and at most eleven,
/// and never wider than the track. Three pixels are left at its right where the track has them.
pub proof fn law_thumb_width(track_x: int, track_width: int)
    requires
        track_width >= 0,
    ensures
        track_width <= 8 ==> thumb_width_spec(track_width) == track_width,
        8 <= track_width <= 13 ==> thumb_width_spec(track_width) == 8,
        13 <= track_width <= 16 ==> thumb_width_spec(track_width) == track_width - 5,
        track_width >= 16 ==> thumb_width_spec(track_width) == 11,
        track_width >= 11 ==> thumb_x_spec(track_x, track_width, thumb_width_spec(track_width))
            == track_x + track_width - thumb_width_spec(track_width) - 3,
{
}

/// How high the thumb is: as high as its share, up to what looks well or the least height,
/// whichever is more, and up to the height of the track.
pub proof fn law_thumb_height(
    wanted: usize,
    max_visual: usize,
    min_thumb_size: usize,
    max_thumb_height: usize,
)
    ensures
        ({
            let h = thumb_height_spec(wanted, max_visual, min_thumb_size, max_thumb_height);
            &&& h <= wanted && h <= max_thumb_height && (h <= max_visual || h <= min_thumb_size)
            &&& h == wanted || h == max_thumb_height || h == max_visual || h == min_thumb_size
            &&& wanted <= max_thumb_height && (wanted <= max_visual || wanted <= min_thumb_size)
                ==> h == wanted
            &&& max_visual <= max_thumb_height && max_visual >= min_thumb_size && wanted
                >= max_visual ==> h == max_visual
            &&& min_thumb_size <= max_thumb_height && max_visual <= min_thumb_size && wanted
                >= min_thumb_size ==> h == min_thumb_size
        }),
{
}

/// Where the thumb is: as far down as it has come, wherever there is something to scroll through
/// and room to move; otherwise at the top. A track without height has no thumb.
pub proof fn law_thumb_position(
    dims: PaneDimensions,
    max_thumb_height: usize,
    height: usize,
    travelled: usize,
)
    ensures
        ({
            let thumb = thumb_spec(dims, max_thumb_height, height, travelled);
            &&& max_thumb_height == 0 ==> thumb.top == 0 && thumb.height == 0
            &&& max_thumb_height > 0 ==> thumb.height == height
            &&& dims.physical_top > dims.scrollback_top && height < max_thumb_height ==> thumb.top
                == travelled
            &&& dims.physical_top <= dims.scrollback_top || height >= max_thumb_height ==> thumb.top
                == 0
        }),
{
}

/// Dragging the thumb to the top scrolls to the first row, to the bottom to the last screen, and
/// in between as many rows as the thumb has come.
pub proof fn law_dragging_scrolls(
    thumb: ScrollHit,
    dims: PaneDimensions,
    max_thumb_height: usize,
    travelled: isize,
)
    requires
        dims.scrollback_top <= dims.physical_top,
        dims.physical_top - dims.scrollback_top <= isize::MAX,
        0 <= travelled <= dims.physical_top - dims.scrollback_top,
    ensures
        ({
            let row = scroll_top_spec(thumb, dims, max_thumb_height, travelled);
            &&& dims.extent() == dims.physical_top - dims.scrollback_top
            &&& travelled == 0 || max_thumb_height <= thumb.height ==> row == dims.scrollback_top
            &&& max_thumb_height > thumb.height ==> row == dims.scrollback_top + travelled
            &&& dims.scrollback_top <= row <= dims.physical_top
        }),
{
}

/// The pointer hits the scrollbar up to twelve pixels outside it, and no further.
pub proof fn law_hover_slop(p: int, start: int, end: int)
    requires
        start <= end,
    ensures
        near(p, start, end) <==> p >= start - 12 && p <= end + 12,
{
}

/// The gap at both ends of the track is a fifth of the height of a cell, but at least eight pixels
/// and at most twelve.
pub proof fn law_track_inset(cell_height: usize)
    ensures
        cell_height < 45 ==> inset_spec(cell_height) == 8,
        45 <= cell_height < 65 ==> inset_spec(cell_height) == cell_height / 5,
        cell_height >= 60 ==> inset_spec(cell_height) == 12,
{
}

} // verus!
