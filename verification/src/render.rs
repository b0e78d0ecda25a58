use vstd::prelude::*;

use vstd::arithmetic::div_mod::lemma_fundamental_div_mod_converse;
use vstd::arithmetic::mul::lemma_mul_inequality;

use crate::cell::{classify, pixel_to_cell_color, Cell};
use crate::pixel::PixelGrid;
use crate::pixel::Rgba;

verus! {

/// The explicit `(top, right, bottom, left)` tuple of an optional padding:
/// zero on every side when no padding was given.
pub open spec fn pad_of(padding: Option<(u32, u32, u32, u32)>) -> (u32, u32, u32, u32) {
    match padding {
        Option::Some(p) => p,
        Option::None => ((0u32, 0u32, 0u32, 0u32)),
    }
}

/// Logical canvas width: the image width plus left and right padding.
pub open spec fn canvas_w(img_w: u32, padding: Option<(u32, u32, u32, u32)>) -> int {
    img_w + pad_of(padding).3 + pad_of(padding).1
}

/// Logical canvas height: the image height plus top and bottom padding.
pub open spec fn canvas_h(img_h: u32, padding: Option<(u32, u32, u32, u32)>) -> int {
    img_h + pad_of(padding).0 + pad_of(padding).2
}

/// The boundary test of the renderer: output column `x`, output row `y`
/// lies in the padding region.  The vertical test uses `2 * y`, the upper
/// sub-row of the pair, and is applied to both sub-rows of the cell.
pub open spec fn in_padding(
    img: &PixelGrid,
    padding: Option<(u32, u32, u32, u32)>,
    x: int,
    y: int,
) -> bool {
    let (top, right, bottom, left) = pad_of(padding);
    ||| 2 * y < top
    ||| 2 * y >= canvas_h(img.height, padding) - bottom
    ||| x < left
    ||| x >= canvas_w(img.width, padding) - right
}

/// The pixel sampled for the upper half of the cell at `(x, y)`: absent in
/// the padding region and outside the image bounds.
pub open spec fn upper_src(
    img: &PixelGrid,
    padding: Option<(u32, u32, u32, u32)>,
    x: int,
    y: int,
) -> Option<Rgba> {
    let (top, right, bottom, left) = pad_of(padding);
    if in_padding(img, padding, x, y) {
        Option::None
    } else {
        img.spec_lookup(x - left, 2 * y - top)
    }
}

/// The pixel sampled for the lower half of the cell at `(x, y)`.
pub open spec fn lower_src(
    img: &PixelGrid,
    padding: Option<(u32, u32, u32, u32)>,
    x: int,
    y: int,
) -> Option<Rgba> {
    let (top, right, bottom, left) = pad_of(padding);
    if in_padding(img, padding, x, y) {
        Option::None
    } else {
        img.spec_lookup(x - left, 2 * y + 1 - top)
    }
}

/// The cell the renderer stores at output column `x`, row `y`: a blank
/// glyph, no glyph color, and the two classified half-block colors.
pub open spec fn cell_at(
    img: &PixelGrid,
    padding: Option<(u32, u32, u32, u32)>,
    x: int,
    y: int,
) -> Cell {
    Cell {
        char: Option::Some(' '),
        char_color: Option::None,
        upper_block: classify(upper_src(img, padding, x, y)),
        lower_block: classify(lower_src(img, padding, x, y)),
    }
}

/// The logical canvas width as a `u32`, or `None` when it does not fit.
pub fn canvas_width(img_w: u32, padding: Option<(u32, u32, u32, u32)>) -> (r: Option<u32>)
    ensures
        canvas_w(img_w, padding) <= u32::MAX ==> r == Option::Some(
            canvas_w(img_w, padding) as u32,
        ),
        canvas_w(img_w, padding) > u32::MAX ==> r == Option::None::<u32>,
{
    let (_top, right, _bottom, left) = match padding {
        Some(p) => p,
        None => (0, 0, 0, 0),
    };
    let wide: u64 = img_w as u64 + left as u64 + right as u64;
    if wide > 0xFFFF_FFFFu64 {
        None
    } else {
        Some(wide as u32)
    }
}

/// The logical canvas height as a `u32`, or `None` when it does not fit.
pub fn canvas_height(img_h: u32, padding: Option<(u32, u32, u32, u32)>) -> (r: Option<u32>)
    ensures
        canvas_h(img_h, padding) <= u32::MAX ==> r == Option::Some(
            canvas_h(img_h, padding) as u32,
        ),
        canvas_h(img_h, padding) > u32::MAX ==> r == Option::None::<u32>,
{
    let (top, _right, bottom, _left) = match padding {
        Some(p) => p,
        None => (0, 0, 0, 0),
    };
    let tall: u64 = img_h as u64 + top as u64 + bottom as u64;
    if tall > 0xFFFF_FFFFu64 {
        None
    } else {
        Some(tall as u32)
    }
}

/// Walks the padded canvas at double vertical resolution and produces the
/// cell buffer, row-major: `width` columns by `height / 2` rows, where an
/// odd logical height drops the final unpaired row.  The cell stored at
/// index `y * width + x` is exactly `cell_at(img, padding, x, y)`.
pub fn render(img: &PixelGrid, padding: Option<(u32, u32, u32, u32)>) -> (buf: Vec<Cell>)
    requires
        img.wf(),
        canvas_w(img.width, padding) <= u32::MAX,
        canvas_h(img.height, padding) <= u32::MAX,
        canvas_w(img.width, padding) * (canvas_h(img.height, padding) / 2) <= usize::MAX,
    ensures
        buf@.len() == canvas_w(img.width, padding) * (canvas_h(img.height, padding) / 2),
        forall|x: int, y: int|
            0 <= x < canvas_w(img.width, padding) && 0 <= y < canvas_h(img.height, padding) / 2
                ==> buf@[y * canvas_w(img.width, padding) + x] == #[trigger] cell_at(
                img,
                padding,
                x,
                y,
            ),
{
    let (top, right, bottom, left) = match padding {
        Some(p) => p,
        None => (0, 0, 0, 0),
    };
    let w: u32 = img.width + left + right;
    let h: u32 = img.height + top + bottom;
    let rows: u32 = h / 2;
    let ghost cw = canvas_w(img.width, padding);
    let ghost ch = canvas_h(img.height, padding);
    proof {
        assert(w == cw);
        assert(h == ch);
        assert(rows == ch / 2);
    }
    let mut buf: Vec<Cell> = Vec::new();
    let mut y: u32 = 0;
    while y < rows
        invariant
            img.wf(),
            0 <= y <= rows,
            w == cw,
            h == ch,
            rows == ch / 2,
            cw == canvas_w(img.width, padding),
            ch == canvas_h(img.height, padding),
            (top, right, bottom, left) == pad_of(padding),
            cw * (ch / 2) <= usize::MAX,
            buf@.len() == y * cw,
            forall|i: int|
                0 <= i < buf@.len() ==> buf@[i] == #[trigger] cell_at(
                    img,
                    padding,
                    i % cw,
                    i / cw,
                ),
        decreases rows - y,
    {
        let mut x: u32 = 0;
        proof {
            lemma_mul_inequality(y as int, rows as int, cw);
        }
        while x < w
            invariant
                img.wf(),
                0 <= y < rows,
                0 <= x <= w,
                w == cw,
                h == ch,
                rows == ch / 2,
                cw == canvas_w(img.width, padding),
                ch == canvas_h(img.height, padding),
                (top, right, bottom, left) == pad_of(padding),
                cw * (ch / 2) <= usize::MAX,
                y * cw + x <= rows * cw,
                buf@.len() == y * cw + x,
                forall|i: int|
                    0 <= i < buf@.len() ==> buf@[i] == #[trigger] cell_at(
                        img,
                        padding,
                        i % cw,
                        i / cw,
                    ),
            decreases w - x,
        {
            let y2: u32 = y * 2;
            let blank: bool = y2 < top || y2 >= h - bottom || x < left || x >= w - right;
            let top_pixel: Option<Rgba> = if blank {
                None
            } else {
                img.get_pixel_checked(x - left, y2 - top)
            };
            let bot_pixel: Option<Rgba> = if blank {
                None
            } else {
                img.get_pixel_checked(x - left, y2 + 1 - top)
            };
            proof {
                assert(blank == in_padding(img, padding, x as int, y as int));
                assert(top_pixel == upper_src(img, padding, x as int, y as int));
                assert(bot_pixel == lower_src(img, padding, x as int, y as int));
            }
            let upper = pixel_to_cell_color(top_pixel);
            let lower = pixel_to_cell_color(bot_pixel);
            let ghost buf0 = buf@;
            buf.push(
                Cell { char: Some(' '), char_color: None, upper_block: upper, lower_block: lower },
            );
            proof {
                let i0 = y * cw + x;
                lemma_fundamental_div_mod_converse(i0 as int, cw, y as int, x as int);
                assert(buf@[i0 as int] == cell_at(img, padding, x as int, y as int));
                assert forall|i: int| 0 <= i < buf@.len() implies buf@[i] == #[trigger] cell_at(
                    img,
                    padding,
                    i % cw,
                    i / cw,
                ) by {
                    if i < buf0.len() {
                        assert(buf@[i] == buf0[i]);
                    }
                }
                assert((y + 1) * cw == y * cw + cw) by (nonlinear_arith);
                lemma_mul_inequality(y as int + 1, rows as int, cw);
            }
            x += 1;
        }
        proof {
            assert((y + 1) * cw == y * cw + cw) by (nonlinear_arith);
            lemma_mul_inequality(y as int + 1, rows as int, cw);
        }
        y += 1;
    }
    proof {
        assert(buf@.len() == rows * cw);
        assert(rows * cw == cw * (ch / 2)) by (nonlinear_arith)
            requires
                rows == ch / 2,
        ;
        assert forall|x: int, y: int|
            0 <= x < canvas_w(img.width, padding) && 0 <= y < canvas_h(img.height, padding)
                / 2 implies buf@[y * canvas_w(img.width, padding) + x] == #[trigger] cell_at(
            img,
            padding,
            x,
            y,
        ) by {
            assert(y * cw + x < rows * cw) by (nonlinear_arith)
                requires
                    0 <= x < cw,
                    0 <= y < rows,
            ;
            lemma_fundamental_div_mod_converse(y * cw + x, cw, y, x);
        }
    }
    buf
}

} // verus!
