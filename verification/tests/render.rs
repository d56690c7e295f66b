use std::collections::HashMap;
use videoplayer::terminal_sink::diff::{quantize, Cell, RenderedFrame};
use videoplayer::terminal_sink::resize::{ImageRef, PodMatrix, Px, Resizer};
use videoplayer::terminal_sink::{cursor_goto, plan_layout, render_sample, RenderError};

fn solid(w: usize, h: usize, px: (u8, u8, u8)) -> Vec<u8> {
    let mut v = Vec::new();
    for _ in 0..w * h {
        v.push(px.0);
        v.push(px.1);
        v.push(px.2);
    }
    v
}

fn cell_seq(top: (u8, u8, u8), bottom: (u8, u8, u8)) -> Vec<u8> {
    let mut v = Vec::new();
    v.extend_from_slice(format!("\x1b[38;2;{};{};{}m", top.0, top.1, top.2).as_bytes());
    v.extend_from_slice(format!("\x1b[48;2;{};{};{}m", bottom.0, bottom.1, bottom.2).as_bytes());
    v.extend_from_slice("\u{2580}".as_bytes());
    v
}

fn goto_seq(x: u16, y: u16) -> Vec<u8> {
    format!("\x1b[{};{}H", y as u32 + 1, x as u32 + 1).into_bytes()
}

#[test]
fn pod_matrix_resize_zeroes_every_cell() {
    let mut m: PodMatrix<Px> = PodMatrix::new();
    assert_eq!(m.size(), (0, 0));
    m.resize((3, 2));
    assert_eq!((m.width(), m.height()), (3, 2));
    for j in 0..2 {
        for i in 0..3 {
            assert_eq!(m.get(i, j), Px { r: 0, g: 0, b: 0 });
        }
    }
    m.set(2, 1, Px { r: 9, g: 8, b: 7 });
    assert_eq!(m.get(2, 1), Px { r: 9, g: 8, b: 7 });
    m.resize((2, 2));
    for j in 0..2 {
        for i in 0..2 {
            assert_eq!(m.get(i, j), Px { r: 0, g: 0, b: 0 });
        }
    }
}

#[test]
fn image_ref_exposes_pixels_of_matching_buffer() {
    let bytes: Vec<u8> = (0..12).collect();
    let img = ImageRef::from_buffer(2, 2, &bytes).expect("2x2 buffer");
    assert_eq!(img.size(), (2, 2));
    assert_eq!(img.get_pixel_unchecked(0, 0), Px { r: 0, g: 1, b: 2 });
    assert_eq!(img.get_pixel_unchecked(1, 0), Px { r: 3, g: 4, b: 5 });
    assert_eq!(img.get_pixel_unchecked(0, 1), Px { r: 6, g: 7, b: 8 });
    assert_eq!(img.get_pixel_unchecked(1, 1), Px { r: 9, g: 10, b: 11 });
    assert!(ImageRef::from_buffer(2, 2, &bytes[..9]).is_none());
    assert!(ImageRef::from_buffer(3, 2, &bytes).is_none());
}

#[test]
fn resizer_returns_requested_size() {
    let mut rz = Resizer::new();
    let src_bytes = solid(1, 1, (0, 0, 0));
    let src = ImageRef::from_buffer(1, 1, &src_bytes).unwrap();
    let out = rz.resize(src, (2, 2));
    assert_eq!(out.size(), (2, 2));
    assert_eq!(out.byte_len(), 12);
}

#[test]
fn resizer_passes_matching_size_through() {
    let mut rz = Resizer::new();
    let src_bytes: Vec<u8> = (0..12).collect();
    let src = ImageRef::from_buffer(2, 2, &src_bytes).unwrap();
    let out = rz.resize(src, (2, 2));
    assert_eq!(out.size(), (2, 2));
    assert_eq!(out.get_pixel_unchecked(1, 1), Px { r: 9, g: 10, b: 11 });
}

#[test]
fn resizer_empty_exactly_on_zero_axis() {
    let mut rz = Resizer::new();
    let src_bytes = solid(2, 2, (5, 5, 5));
    let src = ImageRef::from_buffer(2, 2, &src_bytes).unwrap();
    let out = rz.resize(src, (3, 0));
    assert_eq!(out.byte_len(), 0);
    let src = ImageRef::from_buffer(2, 2, &src_bytes).unwrap();
    let out = rz.resize(src, (0, 3));
    assert_eq!(out.byte_len(), 0);
    let src = ImageRef::from_buffer(2, 2, &src_bytes).unwrap();
    let out = rz.resize(src, (3, 3));
    assert!(out.byte_len() > 0);
}

#[test]
fn resizer_zeroes_destination_for_empty_source() {
    let mut rz = Resizer::new();
    let empty = ImageRef::empty();
    let out = rz.resize(empty, (2, 3));
    assert_eq!(out.size(), (2, 3));
    assert_eq!(out.byte_len(), 18);
    for i in 0..2 {
        for j in 0..3 {
            assert_eq!(out.get_pixel_unchecked(i, j), Px { r: 0, g: 0, b: 0 });
        }
    }
}

#[test]
fn quantization_is_idempotent() {
    for x in 0..=255u8 {
        let p = Px { r: x, g: x ^ 0x5a, b: 255 - x };
        assert_eq!(quantize(quantize(p)), quantize(p));
    }
}

#[test]
fn cursor_goto_saturates_at_max() {
    let mut v = Vec::new();
    cursor_goto(&mut v, u16::MAX, u16::MAX);
    assert_eq!(v, b"\x1b[65535;65535H");
    let mut v = Vec::new();
    cursor_goto(&mut v, 0, 2);
    assert_eq!(v, b"\x1b[3;1H");
}

#[test]
fn still_red_frame_paints_four_rows() {
    let bytes = solid(4, 8, (255, 0, 0));
    let img = ImageRef::from_buffer(4, 8, &bytes).unwrap();
    let mut frame = RenderedFrame::new();
    let mut out = Vec::new();
    frame.render(img, true, (0, 0), &mut out);

    let mut expected: Vec<u8> = b"\x1b[2J".to_vec();
    for j in 0..4u16 {
        expected.extend_from_slice(&goto_seq(0, j));
        for _ in 0..4 {
            expected.extend_from_slice(&cell_seq((248, 0, 0), (248, 0, 0)));
        }
    }
    expected.extend_from_slice(b"\x1b[0m");
    assert_eq!(out, expected);
}

#[test]
fn identical_frame_emits_only_reset() {
    let bytes = solid(3, 4, (10, 200, 30));
    let img = ImageRef::from_buffer(3, 4, &bytes).unwrap();
    let mut frame = RenderedFrame::new();
    let mut out = Vec::new();
    frame.render(img, true, (1, 1), &mut out);
    let img = ImageRef::from_buffer(3, 4, &bytes).unwrap();
    let mut second = Vec::new();
    frame.render(img, false, (1, 1), &mut second);
    assert_eq!(second, b"\x1b[0m");
}

#[test]
fn single_pixel_change_emits_one_goto_and_one_cell() {
    let bytes = solid(4, 4, (64, 64, 64));
    let img = ImageRef::from_buffer(4, 4, &bytes).unwrap();
    let mut frame = RenderedFrame::new();
    let mut out = Vec::new();
    frame.render(img, true, (0, 0), &mut out);

    // one pixel changes: column 2, pixel row 1, the bottom half of cell (2, 0)
    let mut changed = bytes.clone();
    let idx = 3 * (1 * 4 + 2);
    changed[idx] = 255;
    changed[idx + 1] = 0;
    changed[idx + 2] = 0;
    let img = ImageRef::from_buffer(4, 4, &changed).unwrap();
    let mut second = Vec::new();
    frame.render(img, false, (0, 0), &mut second);

    let mut expected = goto_seq(2, 0);
    expected.extend_from_slice(&cell_seq((64, 64, 64), (248, 0, 0)));
    expected.extend_from_slice(b"\x1b[0m");
    assert_eq!(second, expected);
}

#[test]
fn odd_height_uses_black_bottom_on_last_row() {
    let bytes = solid(2, 7, (100, 100, 100));
    let img = ImageRef::from_buffer(2, 7, &bytes).unwrap();
    let mut frame = RenderedFrame::new();
    let mut out = Vec::new();
    frame.render(img, true, (0, 0), &mut out);
    assert_eq!(frame.size(), (2, 4));
    // 100 quantized to 96; the last cell row keeps a black bottom half
    for i in 0..2 {
        let c = frame.cell(i, 3);
        assert_eq!(c.rgb_top, Px { r: 96, g: 96, b: 96 });
        assert_eq!(c.rgb_bottom, Px { r: 0, g: 0, b: 0 });
    }
    let payload = String::from_utf8_lossy(&out).into_owned();
    assert!(payload.contains("\x1b[48;2;0;0;0m"));
}

/// A minimal terminal: tracks colors, cursor and painted half-block cells.
struct MiniVt {
    cells: HashMap<(u16, u16), ((u8, u8, u8), (u8, u8, u8))>,
    cursor: (u16, u16),
    fg: (u8, u8, u8),
    bg: (u8, u8, u8),
}

impl MiniVt {
    fn new() -> Self {
        MiniVt { cells: HashMap::new(), cursor: (0, 0), fg: (0, 0, 0), bg: (0, 0, 0) }
    }

    fn feed(&mut self, bytes: &[u8]) {
        let mut k = 0;
        while k < bytes.len() {
            if bytes[k] == 0x1b {
                assert_eq!(bytes[k + 1], b'[');
                let mut j = k + 2;
                let mut args: Vec<u32> = Vec::new();
                let mut cur: u32 = 0;
                let fin = loop {
                    match bytes[j] {
                        b'0'..=b'9' => cur = cur * 10 + (bytes[j] - b'0') as u32,
                        b';' => {
                            args.push(cur);
                            cur = 0;
                        }
                        other => {
                            args.push(cur);
                            break other;
                        }
                    }
                    j += 1;
                };
                match fin {
                    b'J' => {
                        assert_eq!(args, vec![2]);
                        self.cells.clear();
                    }
                    b'H' => {
                        self.cursor = (args[1] as u16 - 1, args[0] as u16 - 1);
                    }
                    b'm' => match args[0] {
                        0 => {
                            self.fg = (0, 0, 0);
                            self.bg = (0, 0, 0);
                        }
                        38 => self.fg = (args[2] as u8, args[3] as u8, args[4] as u8),
                        48 => self.bg = (args[2] as u8, args[3] as u8, args[4] as u8),
                        other => panic!("unexpected SGR {other}"),
                    },
                    other => panic!("unexpected escape {other}"),
                }
                k = j + 1;
            } else {
                assert_eq!(&bytes[k..k + 3], "\u{2580}".as_bytes());
                self.cells.insert(self.cursor, (self.fg, self.bg));
                self.cursor.0 += 1;
                k += 3;
            }
        }
    }
}

#[test]
fn diff_render_reaches_same_terminal_state_as_overwrite() {
    let first = solid(3, 6, (20, 40, 60));
    let mut second = solid(3, 6, (200, 10, 90));
    second[0] = 33;
    second[31] = 77;

    // paint the first image, then the second by differences
    let mut vt_diff = MiniVt::new();
    let mut frame = RenderedFrame::new();
    let mut out = Vec::new();
    frame.render(ImageRef::from_buffer(3, 6, &first).unwrap(), true, (0, 0), &mut out);
    vt_diff.feed(&out);
    let mut out = Vec::new();
    frame.render(ImageRef::from_buffer(3, 6, &second).unwrap(), false, (0, 0), &mut out);
    vt_diff.feed(&out);

    // paint the second image alone with a full overwrite
    let mut vt_full = MiniVt::new();
    let mut fresh = RenderedFrame::new();
    let mut out = Vec::new();
    fresh.render(ImageRef::from_buffer(3, 6, &second).unwrap(), true, (0, 0), &mut out);
    vt_full.feed(&out);

    assert_eq!(vt_diff.cells, vt_full.cells);
}

#[test]
fn plan_layout_centers_fit() {
    let (display, offset) = plan_layout(100, 100, (10, 5));
    assert_eq!(display, (10, 10));
    assert_eq!(offset, (0, 0));
    let (display, offset) = plan_layout(10, 10, (41, 21));
    assert_eq!(display, (41, 41));
    assert_eq!(offset, (0, 0));
    let (display, offset) = plan_layout(2, 1, (80, 24));
    assert_eq!(display, (80, 40));
    assert_eq!(offset, (0, 2));
}

#[test]
fn render_sample_rejects_bad_buffer_and_paints_good_one() {
    let mut resizer = Resizer::new();
    let mut frame = RenderedFrame::new();
    let mut out = vec![1, 2, 3];

    let short = solid(4, 7, (255, 0, 0));
    let r = render_sample(4, 8, &short, (4, 4), true, &mut out, &mut resizer, &mut frame);
    assert_eq!(r, Err(RenderError::InvalidDimensions));
    assert!(out.is_empty());

    let bytes = solid(4, 8, (255, 0, 0));
    let r = render_sample(4, 8, &bytes, (4, 4), true, &mut out, &mut resizer, &mut frame);
    assert_eq!(r, Ok(()));
    let mut expected: Vec<u8> = b"\x1b[2J".to_vec();
    for j in 0..4u16 {
        expected.extend_from_slice(&goto_seq(0, j));
        for _ in 0..4 {
            expected.extend_from_slice(&cell_seq((248, 0, 0), (248, 0, 0)));
        }
    }
    expected.extend_from_slice(b"\x1b[0m");
    assert_eq!(out, expected);
}

#[test]
fn cells_draw_their_escape_sequences() {
    let c = Cell { rgb_top: Px { r: 1, g: 2, b: 3 }, rgb_bottom: Px { r: 250, g: 0, b: 128 } };
    let mut v = Vec::new();
    c.draw(&mut v);
    assert_eq!(v, cell_seq((1, 2, 3), (250, 0, 128)));
}
