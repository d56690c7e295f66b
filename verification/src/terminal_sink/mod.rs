//! The terminal rendering sink: pixel storage and scaling, the ANSI cell
//! renderer, the latest-wins sample hand-off, and the terminal-size cache
//! encoding used by the render loop.

use vstd::prelude::*;

pub mod diff;
pub mod resize;
pub mod video_pipe;

use crate::terminal_sink::diff::{
    cell_rows, clear_all_bytes, diff_bytes, diff_grid, goto_bytes, overwrite_bytes, push_decimal,
    reset_bytes, target_grid, RenderedFrame,
};
use crate::terminal_sink::resize::{resized_bytes, ImageRef, Resizer};
use crate::resize_image::{
    lemma_fit_within_box, resize_dimensions, spec_resize_dimensions,
};
use vstd::arithmetic::div_mod::{
    lemma_div_is_ordered, lemma_div_multiples_vanish_fancy, lemma_div_nonincreasing,
};

verus! {

/// Appends `ESC [ y+1 ; x+1 H`, moving the cursor to the zero-based position
/// `(x, y)`; the one-based coordinates saturate at the largest 16-bit value
/// instead of wrapping.
pub fn cursor_goto(out: &mut Vec<u8>, x: u16, y: u16)
    ensures
        final(out)@ == old(out)@ + goto_bytes(x as int, y as int),
{
    out.push(27);
    out.push(91);
    let ysat: u16 = if y == 65535 {
        65535
    } else {
        y + 1
    };
    push_decimal(out, ysat);
    out.push(59);
    let xsat: u16 = if x == 65535 {
        65535
    } else {
        x + 1
    };
    push_decimal(out, xsat);
    out.push(72);
    assert(out@ =~= old(out)@ + goto_bytes(x as int, y as int));
}


/// The bit that marks the size cache as freshly written.
pub const SIZE_TAG_BIT: u64 = 0x8000_0000_0000_0000;

/// A terminal size packed into the cache word: columns in the low sixteen
/// bits, rows in the next sixteen, and the tag bit set to say the value is
/// newly stored.
pub open spec fn spec_pack_size(cols: u16, rows: u16) -> u64 {
    (cols as u64) | ((rows as u64) << 16u64) | SIZE_TAG_BIT
}

/// A cache word read back: the size it carries and whether the tag bit was
/// still set, meaning nobody had consumed the update yet.
pub open spec fn spec_decode_size(value: u64) -> ((u16, u16), bool) {
    (((value & 0xffff) as u16, ((value >> 16u64) & 0xffff) as u16), value & SIZE_TAG_BIT != 0)
}

/// Packs a terminal size for the cache, marked fresh.
pub fn pack_size(size: (u16, u16)) -> (r: u64)
    ensures
        r == spec_pack_size(size.0, size.1),
{
    (size.0 as u64) | ((size.1 as u64) << 16u64) | SIZE_TAG_BIT
}

/// Unpacks a cache word into the size it carries and the freshness mark.
pub fn decode_size(value: u64) -> (r: ((u16, u16), bool))
    ensures
        r == spec_decode_size(value),
{
    (((value & 0xffff) as u16, ((value >> 16u64) & 0xffff) as u16), value & SIZE_TAG_BIT != 0)
}

/// A stored size reads back exactly, marked fresh; after the reader clears
/// the tag bit the same size reads back unmarked, so one store is seen as a
/// change exactly once.
pub proof fn lemma_size_cache_round_trip(cols: u16, rows: u16)
    ensures
        spec_decode_size(spec_pack_size(cols, rows)) == ((cols, rows), true),
        spec_decode_size(spec_pack_size(cols, rows) & !SIZE_TAG_BIT) == ((cols, rows), false),
{
    let packed = spec_pack_size(cols, rows);
    assert((packed & 0xffff) as u16 == cols && ((packed >> 16u64) & 0xffff) as u16 == rows
        && packed & 0x8000_0000_0000_0000 != 0) by (bit_vector)
        requires
            packed == (cols as u64) | ((rows as u64) << 16u64) | 0x8000_0000_0000_0000u64,
    ;
    let cleared = packed & !0x8000_0000_0000_0000u64;
    assert((cleared & 0xffff) as u16 == cols && ((cleared >> 16u64) & 0xffff) as u16 == rows
        && cleared & 0x8000_0000_0000_0000 == 0) by (bit_vector)
        requires
            packed == (cols as u64) | ((rows as u64) << 16u64) | 0x8000_0000_0000_0000u64,
            cleared == packed & !0x8000_0000_0000_0000u64,
    ;
}

/// A fixed terminal size supplied by the user instead of the live terminal;
/// it reads as changed only on the first load.
pub struct StaticSize {
    size: (u16, u16),
    first_fetch: bool,
}

impl StaticSize {
    /// The fixed size this loader always reports.
    pub closed spec fn spec_size(&self) -> (u16, u16) {
        self.size
    }

    /// Whether the next load is the first.
    pub closed spec fn spec_first_fetch(&self) -> bool {
        self.first_fetch
    }

    /// A loader for a fixed size whose first load reports a change.
    pub fn new(size: (u16, u16)) -> (r: Self)
        ensures
            r.spec_size() == size,
            r.spec_first_fetch(),
    {
        Self { size, first_fetch: true }
    }

    /// The fixed size, marked changed exactly on the first load.
    pub fn load(&mut self) -> (r: ((u16, u16), bool))
        ensures
            r == (old(self).spec_size(), old(self).spec_first_fetch()),
            final(self).spec_size() == old(self).spec_size(),
            !final(self).spec_first_fetch(),
    {
        let first: bool = self.first_fetch;
        self.first_fetch = false;
        (self.size, first)
    }
}

/// Twice the row count, two pixels per cell, held at the largest 16-bit
/// value.
pub open spec fn sat_double(rows: int) -> int {
    if 2 * rows > 65535 {
        65535
    } else {
        2 * rows
    }
}

/// Pixels available on a terminal of `term` cells: its columns, and twice its
/// rows.
pub fn available_pixels(term: (u16, u16)) -> (r: (u16, u16))
    ensures
        r.0 == term.0,
        r.1 as int == sat_double(term.1 as int),
{
    (
        term.0,
        if term.1 > 32767 {
            65535
        } else {
            term.1 * 2
        },
    )
}

/// How one sample is laid out on a terminal of `term` cells: the pixel size
/// to scale it to, fitting the cell grid at two pixels per row, and the cell
/// offset that centers it.
pub fn plan_layout(sample_w: u32, sample_h: u32, term: (u16, u16)) -> (r: ((u16, u16), (
    u16,
    u16,
)))
    requires
        term.0 >= 1,
        term.1 >= 1,
    ensures
        ({
            let d = spec_resize_dimensions(
                false,
                sample_w as int,
                sample_h as int,
                term.0 as int,
                sat_double(term.1 as int),
            );
            &&& (r.0).0 as int == d.0
            &&& (r.0).1 as int == d.1
            &&& 1 <= d.0 <= term.0
            &&& 1 <= d.1 <= sat_double(term.1 as int)
            &&& cell_rows(d.1) <= term.1
            &&& (r.1).0 as int == (term.0 as int - d.0) / 2
            &&& (r.1).1 as int == (term.1 as int - cell_rows(d.1)) / 2
            &&& (r.1).0 as int + d.0 <= 65535
            &&& (r.1).1 as int + cell_rows(d.1) <= 65535
        }),
{
    let avail: (u16, u16) = available_pixels(term);
    let d32: (u32, u32) = resize_dimensions(
        false,
        sample_w,
        sample_h,
        term.0 as u32,
        avail.1 as u32,
    );
    proof {
        lemma_fit_within_box(
            sample_w as int,
            sample_h as int,
            term.0 as int,
            sat_double(term.1 as int),
        );
    }
    let dw: u16 = d32.0 as u16;
    let dh: u16 = d32.1 as u16;
    let crows: u16 = dh / 2 + dh % 2;
    proof {
        assert(crows as int == cell_rows(dh as int));
        assert(cell_rows(dh as int) <= term.1 as int) by {
            lemma_div_is_ordered(dh as int + 1, 2 * (term.1 as int) + 1, 2);
            lemma_div_multiples_vanish_fancy(term.1 as int, 1, 2);
        }
        lemma_div_nonincreasing(term.0 as int - dw as int, 2);
        lemma_div_nonincreasing(term.1 as int - crows as int, 2);
    }
    let offx: u16 = (term.0 - dw) / 2;
    let offy: u16 = (term.1 - crows) / 2;
    ((dw, dh), (offx, offy))
}

/// How many bytes to reserve for one frame's commands: an allowance per
/// pixel byte, one per row cursor move, and a constant margin.
pub fn command_buffer_budget(pixel_bytes: usize, rows: u16) -> (r: usize)
    ensures
        r as int == ({
            let want = 48 * (pixel_bytes as int) + 24 * (rows as int) + 512;
            if want > usize::MAX {
                usize::MAX as int
            } else {
                want
            }
        }),
{
    let want: u128 = 48u128 * (pixel_bytes as u128) + 24u128 * (rows as u128) + 512u128;
    if want > usize::MAX as u128 {
        usize::MAX
    } else {
        want as usize
    }
}

/// What the rendering path itself can reject; failures of the sample's
/// transport and mapping stay with the caller.
#[derive(Clone, Copy, PartialEq, Eq, Structural, Debug)]
pub enum RenderError {
    /// The buffer does not hold three bytes for each claimed pixel.
    InvalidDimensions,
}

/// Renders one decoded sample into a cleared command buffer: checks the
/// buffer against its claimed dimensions, picks the display size that fits
/// the terminal, scales the pixels, and appends the ANSI commands that bring
/// the terminal to the new frame, centered, ending in a color reset.
///
/// Succeeds exactly when the buffer holds three bytes per pixel; on failure
/// the command buffer is left empty and the stored frame untouched.
pub fn render_sample(
    width: u32,
    height: u32,
    buffer: &[u8],
    term_size: (u16, u16),
    fresh_redraw: bool,
    command_buffer: &mut Vec<u8>,
    resizer: &mut Resizer,
    last_frame: &mut RenderedFrame,
) -> (r: Result<(), RenderError>)
    requires
        term_size.0 >= 1,
        term_size.1 >= 1,
        old(resizer).well_formed(),
        old(last_frame).well_formed(),
        6 * (term_size.0 as int) * (term_size.1 as int) <= usize::MAX,
    ensures
        final(resizer).well_formed(),
        final(last_frame).well_formed(),
        r is Ok <==> buffer@.len() == 3 * (width as int) * (height as int),
        r is Err ==> final(command_buffer)@.len() == 0 && *final(last_frame) == *old(last_frame)
            && *final(resizer) == *old(resizer),
        r is Ok ==> ({
            let d = spec_resize_dimensions(
                false,
                width as int,
                height as int,
                term_size.0 as int,
                sat_double(term_size.1 as int),
            );
            let offx = (term_size.0 as int - d.0) / 2;
            let offy = (term_size.1 as int - cell_rows(d.1)) / 2;
            let scaled = resized_bytes(buffer@, width as int, height as int, d.0, d.1);
            let ow = fresh_redraw || old(last_frame).grid_width() != d.0 || old(
                last_frame,
            ).grid_height() != cell_rows(d.1);
            &&& final(last_frame).grid_width() == d.0
            &&& final(last_frame).grid_height() == cell_rows(d.1)
            &&& if ow {
                &&& final(command_buffer)@ == clear_all_bytes() + overwrite_bytes(
                    scaled,
                    d.0,
                    d.1,
                    offx,
                    offy,
                ) + reset_bytes()
                &&& final(last_frame).grid() == target_grid(scaled, d.0, d.1)
            } else {
                &&& final(command_buffer)@ == diff_bytes(
                    old(last_frame).grid(),
                    scaled,
                    d.0,
                    d.1,
                    offx,
                    offy,
                ) + reset_bytes()
                &&& final(last_frame).grid() == diff_grid(old(last_frame).grid(), scaled, d.0, d.1)
            }
        }),
{
    command_buffer.clear();
    let image = match ImageRef::from_buffer(width, height, buffer) {
        Some(img) => img,
        None => {
            return Err(RenderError::InvalidDimensions);
        },
    };
    let plan: ((u16, u16), (u16, u16)) = plan_layout(width, height, term_size);
    let display: (u16, u16) = plan.0;
    let offset: (u16, u16) = plan.1;
    proof {
        assert(3 * (display.0 as int) * (display.1 as int) <= 6 * (term_size.0 as int) * (
        term_size.1 as int)) by (nonlinear_arith)
            requires
                1 <= display.0 as int <= term_size.0 as int,
                1 <= display.1 as int <= sat_double(term_size.1 as int),
                sat_double(term_size.1 as int) <= 2 * (term_size.1 as int),
        ;
    }
    let resized = resizer.resize(image, display);
    let budget: usize = command_buffer_budget(
        resized.byte_len(),
        display.1 / 2 + display.1 % 2,
    );
    command_buffer.reserve(budget);
    last_frame.render(resized, fresh_redraw, offset, command_buffer);
    Ok(())
}

} // verus!
