//! ANSI cell rendering: decimal emission, half-block cells with quantized
//! truecolor, and the differential repaint against the last drawn frame.

use vstd::prelude::*;
use crate::terminal_sink::cursor_goto;
use crate::terminal_sink::resize::{px_at, ImageRef, PodMatrix, Px, Zeroed};

verus! {

/// One color channel quantized to its top five bits. Quantizing both caps the
/// worst-case ANSI payload and stabilizes the differential repaint against
/// upstream dithering.
pub open spec fn quant(x: u8) -> u8 {
    x & 0xf8
}

/// A pixel with every channel quantized.
pub open spec fn quant_px(p: Px) -> Px {
    Px { r: quant(p.r), g: quant(p.g), b: quant(p.b) }
}

/// Quantization hits a fixed point after one application.
pub proof fn lemma_quant_idempotent(x: u8)
    ensures
        quant(quant(x)) == quant(x),
{
    assert((x & 0xf8) & 0xf8 == x & 0xf8) by (bit_vector);
}

/// The decimal digits of `n`, most significant first, no leading zeros.
pub open spec fn dec_bytes(n: int) -> Seq<u8>
    recommends
        n >= 0,
    decreases n,
{
    if n < 10 {
        seq![(48 + n) as u8]
    } else {
        dec_bytes(n / 10).push((48 + n % 10) as u8)
    }
}

/// `x + 1`, held at the largest 16-bit value; cursor coordinates saturate
/// rather than wrap.
pub open spec fn sat_inc(x: int) -> int {
    if x + 1 > 65535 {
        65535
    } else {
        x + 1
    }
}

/// `ESC [ y+1 ; x+1 H` for zero-based terminal coordinates `(x, y)`.
pub open spec fn goto_bytes(x: int, y: int) -> Seq<u8> {
    seq![27u8, 91u8] + dec_bytes(sat_inc(y)) + seq![59u8] + dec_bytes(sat_inc(x)) + seq![72u8]
}

/// `ESC [ 38 ; 2 ; r ; g ; b m`: truecolor foreground.
pub open spec fn sgr_fg_bytes(p: Px) -> Seq<u8> {
    seq![27u8, 91u8, 51u8, 56u8, 59u8, 50u8, 59u8] + dec_bytes(p.r as int) + seq![59u8]
        + dec_bytes(p.g as int) + seq![59u8] + dec_bytes(p.b as int) + seq![109u8]
}

/// `ESC [ 48 ; 2 ; r ; g ; b m`: truecolor background.
pub open spec fn sgr_bg_bytes(p: Px) -> Seq<u8> {
    seq![27u8, 91u8, 52u8, 56u8, 59u8, 50u8, 59u8] + dec_bytes(p.r as int) + seq![59u8]
        + dec_bytes(p.g as int) + seq![59u8] + dec_bytes(p.b as int) + seq![109u8]
}

/// One drawn cell: foreground from the top pixel, background from the bottom
/// pixel, then the upper-half-block glyph in UTF-8.
pub open spec fn cell_bytes(c: Cell) -> Seq<u8> {
    sgr_fg_bytes(c.rgb_top) + sgr_bg_bytes(c.rgb_bottom) + seq![226u8, 150u8, 128u8]
}

/// `ESC [ 2 J`: clear the whole screen.
pub open spec fn clear_all_bytes() -> Seq<u8> {
    seq![27u8, 91u8, 50u8, 74u8]
}

/// `ESC [ 0 m`: reset colors.
pub open spec fn reset_bytes() -> Seq<u8> {
    seq![27u8, 91u8, 48u8, 109u8]
}

/// Terminal rows needed for `h` pixel rows, two pixels per cell.
pub open spec fn cell_rows(h: int) -> int {
    (h + 1) / 2
}

/// The cell a `w x h` image paints at cell column `i`, cell row `j`: the
/// quantized pixel of row `2j` on top and of row `2j+1` on the bottom, black
/// below the final row of an odd-height image.
pub open spec fn target_cell(bytes: Seq<u8>, w: int, h: int, i: int, j: int) -> Cell {
    Cell {
        rgb_top: quant_px(px_at(bytes, w, i, 2 * j)),
        rgb_bottom: if 2 * j + 1 < h {
            quant_px(px_at(bytes, w, i, 2 * j + 1))
        } else {
            Px { r: 0, g: 0, b: 0 }
        },
    }
}

/// The whole cell grid a `w x h` image paints, row-major.
pub open spec fn target_grid(bytes: Seq<u8>, w: int, h: int) -> Seq<Cell> {
    Seq::new((w * cell_rows(h)) as nat, |k: int| target_cell(bytes, w, h, k % w, k / w))
}

/// The first `i` cells of row `j` as a full repaint emits them.
pub open spec fn ow_row_to(bytes: Seq<u8>, w: int, h: int, j: int, i: int) -> Seq<u8>
    decreases i,
{
    if i <= 0 {
        Seq::empty()
    } else {
        ow_row_to(bytes, w, h, j, i - 1) + cell_bytes(target_cell(bytes, w, h, i - 1, j))
    }
}

/// The first `j` rows as a full repaint emits them: each row a cursor move to
/// its start, then every cell.
pub open spec fn ow_rows_to(bytes: Seq<u8>, w: int, h: int, off_x: int, off_y: int, j: int) -> Seq<
    u8,
>
    decreases j,
{
    if j <= 0 {
        Seq::empty()
    } else {
        ow_rows_to(bytes, w, h, off_x, off_y, j - 1) + goto_bytes(off_x, off_y + (j - 1))
            + ow_row_to(bytes, w, h, j - 1, w)
    }
}

/// Everything a full repaint of a `w x h` image emits after the clear.
pub open spec fn overwrite_bytes(bytes: Seq<u8>, w: int, h: int, off_x: int, off_y: int) -> Seq<
    u8,
> {
    ow_rows_to(bytes, w, h, off_x, off_y, cell_rows(h))
}

/// Whether a differential repaint touches this cell: a full cell row compares
/// both halves, the trailing half row of an odd-height image only the top.
pub open spec fn diff_cell_changed(oldc: Cell, newc: Cell, full: bool) -> bool {
    if full {
        oldc != newc
    } else {
        oldc.rgb_top != newc.rgb_top
    }
}

/// What a differential repaint stores and draws for a touched cell: the new
/// cell, or on the trailing half row the new top over the stored bottom.
pub open spec fn diff_cell_new(oldc: Cell, newc: Cell, full: bool) -> Cell {
    if full {
        newc
    } else {
        Cell { rgb_top: newc.rgb_top, rgb_bottom: oldc.rgb_bottom }
    }
}

/// What a differential repaint of row `j` emits over its first `i` columns,
/// and whether column `i - 1` was emitted: a changed cell is preceded by a
/// cursor move unless the previous column was also changed, so runs of
/// changed cells are drawn without intermediate moves.
pub open spec fn diff_row_to(
    old_cells: Seq<Cell>,
    bytes: Seq<u8>,
    w: int,
    h: int,
    off_x: int,
    off_y: int,
    j: int,
    full: bool,
    i: int,
) -> (Seq<u8>, bool)
    decreases i,
{
    if i <= 0 {
        (Seq::empty(), false)
    } else {
        let prev = diff_row_to(old_cells, bytes, w, h, off_x, off_y, j, full, i - 1);
        let oldc = old_cells[j * w + (i - 1)];
        let newc = target_cell(bytes, w, h, i - 1, j);
        if diff_cell_changed(oldc, newc, full) {
            let mv = if prev.1 {
                Seq::<u8>::empty()
            } else {
                goto_bytes(off_x + (i - 1), off_y + j)
            };
            (prev.0 + mv + cell_bytes(diff_cell_new(oldc, newc, full)), true)
        } else {
            (prev.0, false)
        }
    }
}

/// What a differential repaint emits over the first `j` full cell rows.
pub open spec fn diff_rows_to(
    old_cells: Seq<Cell>,
    bytes: Seq<u8>,
    w: int,
    h: int,
    off_x: int,
    off_y: int,
    j: int,
) -> Seq<u8>
    decreases j,
{
    if j <= 0 {
        Seq::empty()
    } else {
        diff_rows_to(old_cells, bytes, w, h, off_x, off_y, j - 1) + diff_row_to(
            old_cells,
            bytes,
            w,
            h,
            off_x,
            off_y,
            j - 1,
            true,
            w,
        ).0
    }
}

/// Everything a differential repaint of a `w x h` image emits against the
/// stored cells: all full cell rows, then the trailing half row of an
/// odd-height image compared by tops alone.
pub open spec fn diff_bytes(
    old_cells: Seq<Cell>,
    bytes: Seq<u8>,
    w: int,
    h: int,
    off_x: int,
    off_y: int,
) -> Seq<u8> {
    diff_rows_to(old_cells, bytes, w, h, off_x, off_y, h / 2) + if h % 2 == 1 {
        diff_row_to(old_cells, bytes, w, h, off_x, off_y, h / 2, false, w).0
    } else {
        Seq::empty()
    }
}

/// The stored cells after a differential repaint: every full row matches the
/// image; on the trailing half row of an odd-height image only the tops do,
/// the stored bottoms stay.
pub open spec fn diff_grid(old_cells: Seq<Cell>, bytes: Seq<u8>, w: int, h: int) -> Seq<Cell> {
    Seq::new(
        old_cells.len(),
        |k: int|
            {
                let newc = target_cell(bytes, w, h, k % w, k / w);
                if h % 2 == 1 && k / w == h / 2 {
                    Cell { rgb_top: newc.rgb_top, rgb_bottom: old_cells[k].rgb_bottom }
                } else {
                    newc
                }
            },
    )
}

/// Two stacked half-pixels making up one terminal character position,
/// rendered as the upper-half-block glyph with the top pixel as foreground
/// and the bottom pixel as background.
#[derive(Clone, Copy, PartialEq, Eq, Structural, Debug)]
pub struct Cell {
    pub rgb_top: Px,
    pub rgb_bottom: Px,
}

impl Zeroed for Cell {
    open spec fn zero_spec() -> Self {
        Cell { rgb_top: Px { r: 0, g: 0, b: 0 }, rgb_bottom: Px { r: 0, g: 0, b: 0 } }
    }

    fn zeroed() -> (r: Self) {
        Cell { rgb_top: Px::zeroed(), rgb_bottom: Px::zeroed() }
    }
}

/// Quantizes every channel of a pixel to its top five bits.
pub fn quantize(p: Px) -> (r: Px)
    ensures
        r == quant_px(p),
{
    Px { r: p.r & 0xf8, g: p.g & 0xf8, b: p.b & 0xf8 }
}

/// Appends the decimal digits of `n`, most significant first, without leading
/// zeros.
pub fn push_decimal(out: &mut Vec<u8>, n: u16)
    ensures
        final(out)@ == old(out)@ + dec_bytes(n as int),
    decreases n,
{
    if n < 10 {
        out.push(48 + n as u8);
    } else {
        push_decimal(out, n / 10);
        out.push(48 + (n % 10) as u8);
    }
    assert(out@ =~= old(out)@ + dec_bytes(n as int));
}

/// Appends the decimal digits of one color channel.
pub fn write_u8_ascii(buf: &mut Vec<u8>, n: u8)
    ensures
        final(buf)@ == old(buf)@ + dec_bytes(n as int),
{
    push_decimal(buf, n as u16);
}

/// Appends `r ; g ; b m`, the color triplet that ends an SGR color sequence.
fn push_color_triplet(out: &mut Vec<u8>, p: Px)
    ensures
        final(out)@ == old(out)@ + dec_bytes(p.r as int) + seq![59u8] + dec_bytes(p.g as int)
            + seq![59u8] + dec_bytes(p.b as int) + seq![109u8],
{
    write_u8_ascii(out, p.r);
    out.push(59);
    write_u8_ascii(out, p.g);
    out.push(59);
    write_u8_ascii(out, p.b);
    out.push(109);
    assert(out@ =~= old(out)@ + dec_bytes(p.r as int) + seq![59u8] + dec_bytes(p.g as int)
        + seq![59u8] + dec_bytes(p.b as int) + seq![109u8]);
}

/// Appends the truecolor foreground sequence for `p`.
fn push_sgr_fg(out: &mut Vec<u8>, p: Px)
    ensures
        final(out)@ == old(out)@ + sgr_fg_bytes(p),
{
    out.push(27);
    out.push(91);
    out.push(51);
    out.push(56);
    out.push(59);
    out.push(50);
    out.push(59);
    push_color_triplet(out, p);
    assert(out@ =~= old(out)@ + sgr_fg_bytes(p));
}

/// Appends the truecolor background sequence for `p`.
fn push_sgr_bg(out: &mut Vec<u8>, p: Px)
    ensures
        final(out)@ == old(out)@ + sgr_bg_bytes(p),
{
    out.push(27);
    out.push(91);
    out.push(52);
    out.push(56);
    out.push(59);
    out.push(50);
    out.push(59);
    push_color_triplet(out, p);
    assert(out@ =~= old(out)@ + sgr_bg_bytes(p));
}

impl Cell {
    /// Appends the escape sequences and glyph that paint this cell at the
    /// cursor: truecolor foreground, truecolor background, upper half-block.
    pub fn draw(self, command_buffer: &mut Vec<u8>)
        ensures
            final(command_buffer)@ == old(command_buffer)@ + cell_bytes(self),
    {
        push_sgr_fg(command_buffer, self.rgb_top);
        push_sgr_bg(command_buffer, self.rgb_bottom);
        command_buffer.push(226);
        command_buffer.push(150);
        command_buffer.push(128);
        assert(command_buffer@ =~= old(command_buffer)@ + cell_bytes(self));
    }
}


/// A row-major index splits back into its column and row.
proof fn lemma_row_major_split(w: int, i: int, j: int)
    requires
        0 <= i < w,
        0 <= j,
    ensures
        (j * w + i) % w == i,
        (j * w + i) / w == j,
        j * w + i >= 0,
        j * w >= 0,
{
    vstd::arithmetic::div_mod::lemma_fundamental_div_mod_converse(j * w + i, w, j, i);
    assert(j * w >= 0) by (nonlinear_arith)
        requires
            j >= 0,
            w > 0,
    ;
}

/// Reads the cell that `image_ref` paints at cell column `i`, cell row `j`.
fn load_cell(image_ref: &ImageRef, i: u16, j: u16) -> (c: Cell)
    requires
        image_ref.well_formed(),
        (i as int) < image_ref.spec_width(),
        2 * (j as int) < image_ref.spec_height(),
    ensures
        c == target_cell(
            image_ref.bytes(),
            image_ref.spec_width(),
            image_ref.spec_height(),
            i as int,
            j as int,
        ),
{
    let jj: u32 = (j as u32) * 2;
    let rgb_top: Px = quantize(image_ref.get_pixel_unchecked(i as u32, jj));
    let sz: (u32, u32) = image_ref.size();
    let rgb_bottom: Px = if jj + 1 < sz.1 {
        quantize(image_ref.get_pixel_unchecked(i as u32, jj + 1))
    } else {
        Px::zeroed()
    };
    Cell { rgb_top, rgb_bottom }
}

/// Holds the last cell grid the terminal was told to display, and computes
/// the ANSI command stream that takes the terminal to a new frame.
pub struct RenderedFrame {
    frame: PodMatrix<Cell>,
}

impl RenderedFrame {
    /// The stored cells, row-major.
    pub closed spec fn grid(&self) -> Seq<Cell> {
        self.frame.cells_seq()
    }

    /// Stored grid width in cells.
    pub closed spec fn grid_width(&self) -> int {
        self.frame.spec_width()
    }

    /// Stored grid height in cells.
    pub closed spec fn grid_height(&self) -> int {
        self.frame.spec_height()
    }

    /// The stored grid holds one cell per position, and its dimensions are
    /// 16-bit values.
    pub open spec fn well_formed(&self) -> bool {
        &&& self.grid().len() == self.grid_width() * self.grid_height()
        &&& 0 <= self.grid_width() <= 65535
        &&& 0 <= self.grid_height() <= 65535
    }

    /// The stored grid dimensions in cells.
    pub fn size(&self) -> (r: (u16, u16))
        ensures
            r.0 as int == self.grid_width(),
            r.1 as int == self.grid_height(),
    {
        self.frame.size()
    }

    /// Reads the stored cell at column `i`, row `j`.
    pub fn cell(&self, i: u16, j: u16) -> (r: Cell)
        requires
            self.well_formed(),
            i < self.grid_width(),
            j < self.grid_height(),
        ensures
            r == self.grid()[(j as int) * self.grid_width() + (i as int)],
    {
        self.frame.get(i, j)
    }

    /// A renderer that has drawn nothing yet.
    pub fn new() -> (r: Self)
        ensures
            r.well_formed(),
            r.grid_width() == 0,
            r.grid_height() == 0,
    {
        Self { frame: PodMatrix::new() }
    }

    /// Appends the ANSI commands that take the terminal from the stored frame
    /// to `image_ref`, and stores the new frame: a full clear-and-repaint when
    /// `overwrite` is set or the cell grid size changed, otherwise a
    /// differential repaint that touches only changed cells. Ends with a color
    /// reset either way.
    pub fn render(
        &mut self,
        image_ref: ImageRef,
        overwrite: bool,
        offset: (u16, u16),
        command_buffer: &mut Vec<u8>,
    )
        requires
            old(self).well_formed(),
            image_ref.well_formed(),
            image_ref.spec_width() <= 65535,
            cell_rows(image_ref.spec_height()) <= 65535,
            offset.0 as int + image_ref.spec_width() <= 65535,
            offset.1 as int + cell_rows(image_ref.spec_height()) <= 65535,
        ensures
            final(self).well_formed(),
            final(self).grid_width() == image_ref.spec_width(),
            final(self).grid_height() == cell_rows(image_ref.spec_height()),
            ({
                let w = image_ref.spec_width();
                let h = image_ref.spec_height();
                let ow = overwrite || old(self).grid_width() != w || old(self).grid_height()
                    != cell_rows(h);
                if ow {
                    &&& final(command_buffer)@ == old(command_buffer)@ + clear_all_bytes()
                        + overwrite_bytes(
                        image_ref.bytes(),
                        w,
                        h,
                        offset.0 as int,
                        offset.1 as int,
                    ) + reset_bytes()
                    &&& final(self).grid() == target_grid(image_ref.bytes(), w, h)
                } else {
                    &&& final(command_buffer)@ == old(command_buffer)@ + diff_bytes(
                        old(self).grid(),
                        image_ref.bytes(),
                        w,
                        h,
                        offset.0 as int,
                        offset.1 as int,
                    ) + reset_bytes()
                    &&& final(self).grid() == diff_grid(old(self).grid(), image_ref.bytes(), w, h)
                }
            }),
    {
        self.render_inner(image_ref, overwrite, offset, command_buffer);
        command_buffer.push(27);
        command_buffer.push(91);
        command_buffer.push(48);
        command_buffer.push(109);
        proof {
            let w = image_ref.spec_width();
            let h = image_ref.spec_height();
            let ow = overwrite || old(self).grid_width() != w || old(self).grid_height()
                != cell_rows(h);
            if ow {
                assert(command_buffer@ =~= old(command_buffer)@ + clear_all_bytes()
                    + overwrite_bytes(image_ref.bytes(), w, h, offset.0 as int, offset.1 as int)
                    + reset_bytes());
            } else {
                assert(command_buffer@ =~= old(command_buffer)@ + diff_bytes(
                    old(self).grid(),
                    image_ref.bytes(),
                    w,
                    h,
                    offset.0 as int,
                    offset.1 as int,
                ) + reset_bytes());
            }
        }
    }

    /// The repaint itself, without the trailing color reset.
    fn render_inner(
        &mut self,
        image_ref: ImageRef,
        overwrite: bool,
        offset: (u16, u16),
        command_buffer: &mut Vec<u8>,
    )
        requires
            old(self).well_formed(),
            image_ref.well_formed(),
            image_ref.spec_width() <= 65535,
            cell_rows(image_ref.spec_height()) <= 65535,
            offset.0 as int + image_ref.spec_width() <= 65535,
            offset.1 as int + cell_rows(image_ref.spec_height()) <= 65535,
        ensures
            final(self).well_formed(),
            final(self).grid_width() == image_ref.spec_width(),
            final(self).grid_height() == cell_rows(image_ref.spec_height()),
            ({
                let w = image_ref.spec_width();
                let h = image_ref.spec_height();
                let ow = overwrite || old(self).grid_width() != w || old(self).grid_height()
                    != cell_rows(h);
                if ow {
                    &&& final(command_buffer)@ == old(command_buffer)@ + clear_all_bytes()
                        + overwrite_bytes(
                        image_ref.bytes(),
                        w,
                        h,
                        offset.0 as int,
                        offset.1 as int,
                    )
                    &&& final(self).grid() == target_grid(image_ref.bytes(), w, h)
                } else {
                    &&& final(command_buffer)@ == old(command_buffer)@ + diff_bytes(
                        old(self).grid(),
                        image_ref.bytes(),
                        w,
                        h,
                        offset.0 as int,
                        offset.1 as int,
                    )
                    &&& final(self).grid() == diff_grid(old(self).grid(), image_ref.bytes(), w, h)
                }
            }),
    {
        let sz: (u32, u32) = image_ref.size();
        let terminal_width: u16 = sz.0 as u16;
        let th32: u32 = sz.1 / 2 + sz.1 % 2;
        proof {
            assert(th32 as int == cell_rows(image_ref.spec_height()));
        }
        let terminal_height: u16 = th32 as u16;
        let fsz: (u16, u16) = self.frame.size();
        let size_differs: bool = fsz.0 != terminal_width || fsz.1 != terminal_height;
        let ow: bool = overwrite || size_differs;
        if size_differs {
            self.frame.resize((terminal_width, terminal_height));
        }
        if ow {
            command_buffer.push(27);
            command_buffer.push(91);
            command_buffer.push(50);
            command_buffer.push(74);
            proof {
                assert(command_buffer@ =~= old(command_buffer)@ + clear_all_bytes());
            }
            self.paint_full(&image_ref, offset, command_buffer);
            proof {
                assert(command_buffer@ =~= old(command_buffer)@ + clear_all_bytes()
                    + overwrite_bytes(
                    image_ref.bytes(),
                    image_ref.spec_width(),
                    image_ref.spec_height(),
                    offset.0 as int,
                    offset.1 as int,
                ));
            }
        } else {
            self.paint_diff(&image_ref, offset, command_buffer);
        }
    }

    /// Repaints every cell: for each row a cursor move to its start, then
    /// every cell of the row; the stored grid afterwards shows the image.
    #[verifier::loop_isolation(false)]
    fn paint_full(&mut self, image_ref: &ImageRef, offset: (u16, u16), command_buffer: &mut Vec<
        u8,
    >)
        requires
            old(self).well_formed(),
            image_ref.well_formed(),
            old(self).grid_width() == image_ref.spec_width(),
            old(self).grid_height() == cell_rows(image_ref.spec_height()),
            image_ref.spec_width() <= 65535,
            cell_rows(image_ref.spec_height()) <= 65535,
            offset.0 as int + image_ref.spec_width() <= 65535,
            offset.1 as int + cell_rows(image_ref.spec_height()) <= 65535,
        ensures
            final(self).well_formed(),
            final(self).grid_width() == old(self).grid_width(),
            final(self).grid_height() == old(self).grid_height(),
            final(command_buffer)@ == old(command_buffer)@ + overwrite_bytes(
                image_ref.bytes(),
                image_ref.spec_width(),
                image_ref.spec_height(),
                offset.0 as int,
                offset.1 as int,
            ),
            final(self).grid() == target_grid(image_ref.bytes(), image_ref.spec_width(), image_ref.spec_height()),
    {
        let ghost bytes: Seq<u8> = image_ref.bytes();
        let ghost w: int = image_ref.spec_width();
        let ghost h: int = image_ref.spec_height();
        let ghost offx: int = offset.0 as int;
        let ghost offy: int = offset.1 as int;
        let ghost old_grid: Seq<Cell> = self.frame.cells_seq();
        let sz: (u32, u32) = image_ref.size();
        let terminal_width: u16 = sz.0 as u16;
        let terminal_height: u16 = self.frame.height();
        let mut j: u16 = 0;
        while j < terminal_height
            invariant
                j <= terminal_height,
                self.frame.well_formed(),
                self.frame.spec_width() == w,
                self.frame.spec_height() == cell_rows(h),
                command_buffer@ == old(command_buffer)@ + ow_rows_to(
                    bytes,
                    w,
                    h,
                    offx,
                    offy,
                    j as int,
                ),
                forall|k: int|
                    0 <= k < self.frame.cells_seq().len()
                        ==> #[trigger] self.frame.cells_seq()[k] == if k < (j as int) * w {
                        target_cell(bytes, w, h, k % w, k / w)
                    } else {
                        old_grid[k]
                    },
            decreases terminal_height - j,
        {
            self.paint_full_row(image_ref, offset, j, command_buffer);
            proof {
                assert(command_buffer@ =~= old(command_buffer)@ + ow_rows_to(
                    bytes,
                    w,
                    h,
                    offx,
                    offy,
                    j as int + 1,
                ));
                assert((j as int + 1) * w == (j as int) * w + w) by (nonlinear_arith);
            }
            j = j + 1;
        }
        proof {
            assert((terminal_height as int) * w == w * (terminal_height as int))
                by (nonlinear_arith);
            assert(self.frame.cells_seq() =~= target_grid(bytes, w, h));
        }
    }

    /// Repaints one cell row in full: a cursor move to its start, then every
    /// cell, stored as drawn.
    #[verifier::loop_isolation(false)]
    fn paint_full_row(
        &mut self,
        image_ref: &ImageRef,
        offset: (u16, u16),
        j: u16,
        command_buffer: &mut Vec<u8>,
    )
        requires
            old(self).well_formed(),
            image_ref.well_formed(),
            old(self).grid_width() == image_ref.spec_width(),
            old(self).grid_height() == cell_rows(image_ref.spec_height()),
            image_ref.spec_width() <= 65535,
            cell_rows(image_ref.spec_height()) <= 65535,
            offset.0 as int + image_ref.spec_width() <= 65535,
            offset.1 as int + cell_rows(image_ref.spec_height()) <= 65535,
            (j as int) < cell_rows(image_ref.spec_height()),
        ensures
            final(self).well_formed(),
            final(self).grid_width() == old(self).grid_width(),
            final(self).grid_height() == old(self).grid_height(),
            final(self).grid().len() == old(self).grid().len(),
            final(command_buffer)@ == old(command_buffer)@ + goto_bytes(
                offset.0 as int,
                offset.1 as int + j as int,
            ) + ow_row_to(
                image_ref.bytes(),
                image_ref.spec_width(),
                image_ref.spec_height(),
                j as int,
                image_ref.spec_width(),
            ),
            forall|k: int|
                0 <= k < final(self).grid().len() ==> #[trigger] final(self).grid()[k] == if (
                j as int) * old(self).grid_width() <= k < (j as int) * old(self).grid_width()
                    + old(self).grid_width() {
                    target_cell(
                        image_ref.bytes(),
                        image_ref.spec_width(),
                        image_ref.spec_height(),
                        k % old(self).grid_width(),
                        k / old(self).grid_width(),
                    )
                } else {
                    old(self).grid()[k]
                },
    {
        let ghost bytes: Seq<u8> = image_ref.bytes();
        let ghost w: int = image_ref.spec_width();
        let ghost h: int = image_ref.spec_height();
        let ghost old_grid: Seq<Cell> = self.frame.cells_seq();
        let ghost row_start: int = (j as int) * w;
        proof {
            lemma_row_start_bounds(w, cell_rows(h), j as int);
            assert(2 * (j as int) < h);
        }
        let sz: (u32, u32) = image_ref.size();
        let terminal_width: u16 = sz.0 as u16;
        cursor_goto(command_buffer, offset.0, offset.1 + j);
        let ghost row_base: Seq<u8> = command_buffer@;
        let mut i: u16 = 0;
        while i < terminal_width
            invariant
                i <= terminal_width,
                self.frame.well_formed(),
                self.frame.spec_width() == w,
                self.frame.spec_height() == cell_rows(h),
                command_buffer@ == row_base + ow_row_to(bytes, w, h, j as int, i as int),
                forall|k: int|
                    0 <= k < self.frame.cells_seq().len()
                        ==> #[trigger] self.frame.cells_seq()[k] == if row_start <= k < row_start
                        + (i as int) {
                        target_cell(bytes, w, h, k % w, k / w)
                    } else {
                        old_grid[k]
                    },
            decreases terminal_width - i,
        {
            proof {
                lemma_row_major_split(w, i as int, j as int);
            }
            let c: Cell = load_cell(image_ref, i, j);
            self.frame.set(i, j, c);
            c.draw(command_buffer);
            proof {
                assert(command_buffer@ =~= row_base + ow_row_to(
                    bytes,
                    w,
                    h,
                    j as int,
                    i as int + 1,
                ));
            }
            i = i + 1;
        }
        proof {
            assert(command_buffer@ =~= old(command_buffer)@ + goto_bytes(
                offset.0 as int,
                offset.1 as int + j as int,
            ) + ow_row_to(bytes, w, h, j as int, w));
        }
    }

    /// Repaints by differences: walks the stored grid against the image and
    /// redraws only the cells that differ, with one cursor move in front of
    /// each run of changed cells, then the trailing half row of an odd-height
    /// image by tops alone.
    #[verifier::loop_isolation(false)]
    fn paint_diff(&mut self, image_ref: &ImageRef, offset: (u16, u16), command_buffer: &mut Vec<
        u8,
    >)
        requires
            old(self).well_formed(),
            image_ref.well_formed(),
            old(self).grid_width() == image_ref.spec_width(),
            old(self).grid_height() == cell_rows(image_ref.spec_height()),
            image_ref.spec_width() <= 65535,
            cell_rows(image_ref.spec_height()) <= 65535,
            offset.0 as int + image_ref.spec_width() <= 65535,
            offset.1 as int + cell_rows(image_ref.spec_height()) <= 65535,
        ensures
            final(self).well_formed(),
            final(self).grid_width() == old(self).grid_width(),
            final(self).grid_height() == old(self).grid_height(),
            final(command_buffer)@ == old(command_buffer)@ + diff_bytes(
                old(self).grid(),
                image_ref.bytes(),
                image_ref.spec_width(),
                image_ref.spec_height(),
                offset.0 as int,
                offset.1 as int,
            ),
            final(self).grid() == diff_grid(
                old(self).grid(),
                image_ref.bytes(),
                image_ref.spec_width(),
                image_ref.spec_height(),
            ),
    {
        let ghost bytes: Seq<u8> = image_ref.bytes();
        let ghost w: int = image_ref.spec_width();
        let ghost h: int = image_ref.spec_height();
        let ghost offx: int = offset.0 as int;
        let ghost offy: int = offset.1 as int;
        let ghost old_cells: Seq<Cell> = self.frame.cells_seq();
        let ghost new_grid: Seq<Cell> = diff_grid(old_cells, bytes, w, h);
        let sz: (u32, u32) = image_ref.size();
        let full_rows32: u32 = sz.1 / 2;
        let full_rows: u16 = full_rows32 as u16;
        let mut j: u16 = 0;
        while j < full_rows
            invariant
                j <= full_rows,
                self.frame.well_formed(),
                self.frame.spec_width() == w,
                self.frame.spec_height() == cell_rows(h),
                command_buffer@ == old(command_buffer)@ + diff_rows_to(
                    old_cells,
                    bytes,
                    w,
                    h,
                    offx,
                    offy,
                    j as int,
                ),
                forall|k: int|
                    0 <= k < self.frame.cells_seq().len()
                        ==> #[trigger] self.frame.cells_seq()[k] == if k < (j as int) * w {
                        new_grid[k]
                    } else {
                        old_cells[k]
                    },
            decreases full_rows - j,
        {
            proof {
                assert(2 * (j as int) + 1 < h);
                lemma_row_start_bounds(w, cell_rows(h), j as int);
                assert(cell_rows(h) * w == w * cell_rows(h)) by (nonlinear_arith);
            }
            self.diff_one_row(image_ref, offset, j, true, command_buffer, Ghost(old_cells), Ghost(new_grid));
            proof {
                assert(command_buffer@ =~= old(command_buffer)@ + diff_rows_to(
                    old_cells,
                    bytes,
                    w,
                    h,
                    offx,
                    offy,
                    j as int + 1,
                ));
                assert((j as int + 1) * w == (j as int) * w + w) by (nonlinear_arith);
            }
            j = j + 1;
        }
        if sz.1 % 2 == 1 {
            proof {
                assert(2 * (full_rows as int) < h);
                assert(!(2 * (full_rows as int) + 1 < h));
                lemma_row_start_bounds(w, cell_rows(h), full_rows as int);
                assert(cell_rows(h) * w == w * cell_rows(h)) by (nonlinear_arith);
            }
            self.diff_one_row(
                image_ref,
                offset,
                full_rows,
                false,
                command_buffer,
                Ghost(old_cells),
                Ghost(new_grid),
            );
            proof {
                assert((full_rows as int + 1) * w == (full_rows as int) * w + w)
                    by (nonlinear_arith);
            }
        }
        proof {
            assert(command_buffer@ =~= old(command_buffer)@ + diff_bytes(
                old_cells,
                bytes,
                w,
                h,
                offx,
                offy,
            ));
            assert((cell_rows(h)) * w == w * cell_rows(h)) by (nonlinear_arith);
            assert(self.frame.cells_seq() =~= new_grid);
        }
    }

    /// Walks one cell row against the image, storing and drawing only the
    /// cells that differ. A full row compares both halves; the trailing half
    /// row of an odd-height image compares tops alone and keeps the stored
    /// bottoms.
    #[verifier::loop_isolation(false)]
    fn diff_one_row(
        &mut self,
        image_ref: &ImageRef,
        offset: (u16, u16),
        j: u16,
        full: bool,
        command_buffer: &mut Vec<u8>,
        Ghost(old_cells): Ghost<Seq<Cell>>,
        Ghost(new_grid): Ghost<Seq<Cell>>,
    )
        requires
            old(self).well_formed(),
            image_ref.well_formed(),
            old(self).grid_width() == image_ref.spec_width(),
            old(self).grid_height() == cell_rows(image_ref.spec_height()),
            image_ref.spec_width() <= 65535,
            cell_rows(image_ref.spec_height()) <= 65535,
            offset.0 as int + image_ref.spec_width() <= 65535,
            offset.1 as int + cell_rows(image_ref.spec_height()) <= 65535,
            (j as int) < cell_rows(image_ref.spec_height()),
            2 * (j as int) < image_ref.spec_height(),
            full <==> 2 * (j as int) + 1 < image_ref.spec_height(),
            old_cells.len() == old(self).grid().len(),
            new_grid == diff_grid(
                old_cells,
                image_ref.bytes(),
                image_ref.spec_width(),
                image_ref.spec_height(),
            ),
            forall|k: int|
                (j as int) * image_ref.spec_width() <= k < (j as int) * image_ref.spec_width()
                    + image_ref.spec_width() ==> #[trigger] old(self).grid()[k] == old_cells[k],
        ensures
            final(self).well_formed(),
            final(self).grid_width() == old(self).grid_width(),
            final(self).grid_height() == old(self).grid_height(),
            final(command_buffer)@ == old(command_buffer)@ + diff_row_to(
                old_cells,
                image_ref.bytes(),
                image_ref.spec_width(),
                image_ref.spec_height(),
                offset.0 as int,
                offset.1 as int,
                j as int,
                full,
                image_ref.spec_width(),
            ).0,
            final(self).grid().len() == old(self).grid().len(),
            forall|k: int|
                0 <= k < final(self).grid().len() ==> #[trigger] final(self).grid()[k] == if (
                j as int) * old(self).grid_width() <= k < (j as int) * old(self).grid_width()
                    + old(self).grid_width() {
                    new_grid[k]
                } else {
                    old(self).grid()[k]
                },
    {
        let ghost bytes: Seq<u8> = image_ref.bytes();
        let ghost w: int = image_ref.spec_width();
        let ghost h: int = image_ref.spec_height();
        let ghost offx: int = offset.0 as int;
        let ghost offy: int = offset.1 as int;
        let ghost entry_grid: Seq<Cell> = self.frame.cells_seq();
        let ghost row_start: int = (j as int) * w;
        proof {
            lemma_row_start_bounds(w, cell_rows(h), j as int);
        }
        let sz: (u32, u32) = image_ref.size();
        let terminal_width: u16 = sz.0 as u16;
        let mut last_changed: bool = false;
        let mut i: u16 = 0;
        while i < terminal_width
            invariant
                i <= terminal_width,
                self.frame.well_formed(),
                self.frame.spec_width() == w,
                self.frame.spec_height() == cell_rows(h),
                command_buffer@ == old(command_buffer)@ + diff_row_to(
                    old_cells,
                    bytes,
                    w,
                    h,
                    offx,
                    offy,
                    j as int,
                    full,
                    i as int,
                ).0,
                last_changed == diff_row_to(
                    old_cells,
                    bytes,
                    w,
                    h,
                    offx,
                    offy,
                    j as int,
                    full,
                    i as int,
                ).1,
                forall|k: int|
                    0 <= k < self.frame.cells_seq().len()
                        ==> #[trigger] self.frame.cells_seq()[k] == if row_start <= k < row_start
                        + (i as int) {
                        new_grid[k]
                    } else {
                        entry_grid[k]
                    },
            decreases terminal_width - i,
        {
            proof {
                lemma_row_major_split(w, i as int, j as int);
            }
            let newc: Cell = load_cell(image_ref, i, j);
            let oldc: Cell = self.frame.get(i, j);
            let changed: bool = if full {
                oldc.rgb_top != newc.rgb_top || oldc.rgb_bottom != newc.rgb_bottom
            } else {
                oldc.rgb_top != newc.rgb_top
            };
            if changed {
                if !last_changed {
                    cursor_goto(command_buffer, offset.0 + i, offset.1 + j);
                }
                last_changed = true;
                let stored: Cell = if full {
                    newc
                } else {
                    Cell { rgb_top: newc.rgb_top, rgb_bottom: oldc.rgb_bottom }
                };
                self.frame.set(i, j, stored);
                stored.draw(command_buffer);
            } else {
                last_changed = false;
            }
            proof {
                assert(command_buffer@ =~= old(command_buffer)@ + diff_row_to(
                    old_cells,
                    bytes,
                    w,
                    h,
                    offx,
                    offy,
                    j as int,
                    full,
                    i as int + 1,
                ).0);
            }
            i = i + 1;
        }
    }
}

/// A row lies inside the grid: its start is nonnegative and its end at most
/// the grid length.
proof fn lemma_row_start_bounds(w: int, th: int, j: int)
    requires
        0 <= w,
        0 <= j < th,
    ensures
        0 <= j * w,
        j * w + w <= th * w,
{
    assert(0 <= j * w && j * w + w <= th * w) by (nonlinear_arith)
        requires
            0 <= w,
            0 <= j < th,
    ;
}

/// The grid covering `w x h`, every cell black, as a fresh clear leaves it.
pub open spec fn zero_grid(w: int, h: int) -> Seq<Cell> {
    Seq::new((w * cell_rows(h)) as nat, |k: int| Cell::zero_spec())
}

/// Rendering by differences over a freshly cleared, all-black frame stores
/// the same grid as a full overwrite repaint: the two paths agree on the
/// final terminal state.
pub proof fn lemma_diff_from_cleared_matches_overwrite(bytes: Seq<u8>, w: int, h: int)
    requires
        w >= 0,
        h >= 0,
    ensures
        diff_grid(zero_grid(w, h), bytes, w, h) == target_grid(bytes, w, h),
{
    let z = zero_grid(w, h);
    assert forall|k: int| 0 <= k < z.len() implies #[trigger] diff_grid(z, bytes, w, h)[k]
        == target_grid(bytes, w, h)[k] by {
        if h % 2 == 1 && k / w == h / 2 {
            assert(h == 2 * (h / 2) + h % 2) by {
                vstd::arithmetic::div_mod::lemma_fundamental_div_mod(h, 2);
            }
            assert(!(2 * (k / w) + 1 < h));
        }
    }
    assert(diff_grid(z, bytes, w, h) =~= target_grid(bytes, w, h));
}

/// A row whose cells already match the image emits nothing in a differential
/// repaint.
proof fn lemma_diff_row_unchanged(
    cells: Seq<Cell>,
    bytes: Seq<u8>,
    w: int,
    h: int,
    off_x: int,
    off_y: int,
    j: int,
    full: bool,
    i: int,
)
    requires
        forall|c: int|
            0 <= c < i ==> !diff_cell_changed(
                #[trigger] cells[j * w + c],
                target_cell(bytes, w, h, c, j),
                full,
            ),
    ensures
        diff_row_to(cells, bytes, w, h, off_x, off_y, j, full, i) == (Seq::<u8>::empty(), false),
    decreases i,
{
    if i > 0 {
        lemma_diff_row_unchanged(cells, bytes, w, h, off_x, off_y, j, full, i - 1);
    }
}

/// Full rows that already match the image emit nothing in a differential
/// repaint.
proof fn lemma_diff_rows_unchanged(
    cells: Seq<Cell>,
    bytes: Seq<u8>,
    w: int,
    h: int,
    off_x: int,
    off_y: int,
    j: int,
)
    requires
        0 <= w,
        0 <= h,
        cells.len() == w * cell_rows(h),
        cells == diff_grid(cells, bytes, w, h),
        j <= h / 2,
    ensures
        diff_rows_to(cells, bytes, w, h, off_x, off_y, j) == Seq::<u8>::empty(),
    decreases j,
{
    if j > 0 {
        lemma_diff_rows_unchanged(cells, bytes, w, h, off_x, off_y, j - 1);
        assert(h / 2 <= cell_rows(h)) by {
            vstd::arithmetic::div_mod::lemma_div_is_ordered(h, h + 1, 2);
        }
        assert forall|c: int| 0 <= c < w implies !diff_cell_changed(
            #[trigger] cells[(j - 1) * w + c],
            target_cell(bytes, w, h, c, j - 1),
            true,
        ) by {
            lemma_row_major_split(w, c, j - 1);
            lemma_row_start_bounds(w, cell_rows(h), j - 1);
            assert(cell_rows(h) * w == w * cell_rows(h)) by (nonlinear_arith);
            assert(cells[(j - 1) * w + c] == diff_grid(cells, bytes, w, h)[(j - 1) * w + c]);
        }
        lemma_diff_row_unchanged(cells, bytes, w, h, off_x, off_y, j - 1, true, w);
        assert(diff_rows_to(cells, bytes, w, h, off_x, off_y, j) =~= Seq::<u8>::empty());
    }
}

/// A frame that already shows the image emits no cursor move and no cell in a
/// differential repaint: the diff is empty, so a render adds only the color
/// reset.
pub proof fn lemma_unchanged_frame_emits_nothing(
    cells: Seq<Cell>,
    bytes: Seq<u8>,
    w: int,
    h: int,
    off_x: int,
    off_y: int,
)
    requires
        w >= 0,
        h >= 0,
        cells.len() == w * cell_rows(h),
        cells == diff_grid(cells, bytes, w, h),
    ensures
        diff_bytes(cells, bytes, w, h, off_x, off_y) == Seq::<u8>::empty(),
{
    lemma_diff_rows_unchanged(cells, bytes, w, h, off_x, off_y, h / 2);
    if h % 2 == 1 {
        let j0 = h / 2;
        assert(h == 2 * (h / 2) + h % 2) by {
            vstd::arithmetic::div_mod::lemma_fundamental_div_mod(h, 2);
        }
        assert(j0 < cell_rows(h));
        assert forall|c: int| 0 <= c < w implies !diff_cell_changed(
            #[trigger] cells[j0 * w + c],
            target_cell(bytes, w, h, c, j0),
            false,
        ) by {
            lemma_row_major_split(w, c, j0);
            lemma_row_start_bounds(w, cell_rows(h), j0);
            assert(cell_rows(h) * w == w * cell_rows(h)) by (nonlinear_arith);
            assert(cells[j0 * w + c] == diff_grid(cells, bytes, w, h)[j0 * w + c]);
        }
        lemma_diff_row_unchanged(cells, bytes, w, h, off_x, off_y, j0, false, w);
    }
    assert(diff_bytes(cells, bytes, w, h, off_x, off_y) =~= Seq::<u8>::empty());
}

} // verus!
