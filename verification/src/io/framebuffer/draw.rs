//! Drawing on a back buffer.
use crate::io::framebuffer;
use crate::io::framebuffer::{BackBuffer, Font, FONT_HEIGHT, FONT_WIDTH};
use vstd::prelude::*;
use vstd::string::*;

verus! {

/// Painting twice is painting once, where the second painting goes over the
/// first.
pub(crate) proof fn lemma_repaint(
    pre: BackBuffer,
    mid: BackBuffer,
    post: BackBuffer,
    f: spec_fn(int, int) -> Option<u32>,
    g: spec_fn(int, int) -> Option<u32>,
    h: spec_fn(int, int) -> Option<u32>,
)
    requires
        BackBuffer::repainted(pre, mid, f),
        BackBuffer::repainted(mid, post, g),
        forall|x: int, y: int|
            pre.inside(x, y) ==> #[trigger] h(x, y) == (if g(x, y) is Some {
                g(x, y)
            } else {
                f(x, y)
            }),
    ensures
        BackBuffer::repainted(pre, post, h),
{
    assert forall|x: int, y: int| pre.inside(x, y) implies #[trigger] post.pixel(x, y) == (match h(
        x,
        y,
    ) {
        Some(color) => color,
        None => pre.pixel(x, y),
    }) by {
        assert(mid.inside(x, y));
        let _ = mid.pixel(x, y);
        let _ = h(x, y);
    }
}

/// Painting that agrees inside the buffer is the same.
proof fn lemma_same_paint(
    pre: BackBuffer,
    post: BackBuffer,
    f: spec_fn(int, int) -> Option<u32>,
    h: spec_fn(int, int) -> Option<u32>,
)
    requires
        BackBuffer::repainted(pre, post, f),
        forall|x: int, y: int| pre.inside(x, y) ==> #[trigger] h(x, y) == f(x, y),
    ensures
        BackBuffer::repainted(pre, post, h),
{
    assert forall|x: int, y: int| pre.inside(x, y) implies #[trigger] post.pixel(x, y) == (match h(
        x,
        y,
    ) {
        Some(color) => color,
        None => pre.pixel(x, y),
    }) by {
        let _ = h(x, y);
    }
}

/// Packs a colour.
pub fn pack_rgb(r: u8, g: u8, b: u8) -> (px: u32)
    ensures
        px == framebuffer::rgb(r, g, b),
{
    ((r as u32) << 16) | ((g as u32) << 8) | (b as u32)
}

/// Sets a pixel.
pub fn set_pixel(back: &mut BackBuffer, x: usize, y: usize, color: u32)
    requires
        old(back).wf(),
    ensures
        BackBuffer::repainted(*old(back), *final(back), pixel_paint(x as int, y as int, color)),
{
    back.set_pixel(x, y, color);
    proof {
        lemma_same_paint(
            *old(back),
            *back,
            |px: int, py: int|
                if px == x && py == y {
                    Some(color)
                } else {
                    None
                },
            pixel_paint(x as int, y as int, color),
        );
    }
}

/// One pixel.
pub open spec fn pixel_paint(x: int, y: int, color: u32) -> spec_fn(int, int) -> Option<u32> {
    |px: int, py: int|
        if px == x && py == y {
            Some(color)
        } else {
            None
        }
}

/// Gives every pixel the same colour.
pub fn clear(back: &mut BackBuffer, color: u32)
    requires
        old(back).wf(),
    ensures
        BackBuffer::repainted(*old(back), *final(back), |x: int, y: int| Some(color)),
{
    back.clear(color);
}

/// The colour inside a rectangle.
pub open spec fn rect_paint(
    x: int,
    y: int,
    w: int,
    h: int,
    color: u32,
) -> spec_fn(int, int) -> Option<u32> {
    |px: int, py: int|
        if x <= px < x + w && y <= py < y + h {
            Some(color)
        } else {
            None
        }
}

/// Fills the part of a rectangle that is in the buffer.
pub fn fill_rect(back: &mut BackBuffer, x: usize, y: usize, w: usize, h: usize, color: u32)
    requires
        old(back).wf(),
        x + w <= usize::MAX,
        y + h <= usize::MAX,
    ensures
        BackBuffer::repainted(
            *old(back),
            *final(back),
            rect_paint(x as int, y as int, w as int, h as int, color),
        ),
{
    let x2: usize = if x + w <= back.width {
        x + w
    } else {
        back.width
    };
    let y2: usize = if y + h <= back.height {
        y + h
    } else {
        back.height
    };
    let ghost pre = *back;
    let ghost f = rect_paint(x as int, y as int, w as int, h as int, color);
    if x >= x2 || y >= y2 {
        assert forall|px: int, py: int| pre.inside(px, py) implies f(px, py) is None by {}
        return;
    }
    let mut row: usize = y;
    while row < y2
        invariant
            pre.wf(),
            y <= row <= y2,
            y2 <= pre.height,
            x < x2 <= pre.width,
            back.width == pre.width,
            back.height == pre.height,
            back.wf(),
            BackBuffer::repainted(
                pre,
                *back,
                rect_paint(x as int, y as int, x2 - x, row - y, color),
            ),
        decreases y2 - row,
    {
        let mut col: usize = x;
        let ghost line = *back;
        while col < x2
            invariant
                pre.wf(),
                y <= row < y2,
                y2 <= pre.height,
                x <= col <= x2,
                x2 <= pre.width,
                back.width == pre.width,
                back.height == pre.height,
                line.width == pre.width,
                line.height == pre.height,
                back.wf(),
                BackBuffer::repainted(
                    line,
                    *back,
                    rect_paint(x as int, row as int, col - x, 1, color),
                ),
            decreases x2 - col,
        {
            let ghost mid = *back;
            back.set_pixel(col, row, color);
            proof {
                lemma_repaint(
                    line,
                    mid,
                    *back,
                    rect_paint(x as int, row as int, col - x, 1, color),
                    |px: int, py: int|
                        if px == col && py == row {
                            Some(color)
                        } else {
                            None
                        },
                    rect_paint(x as int, row as int, col + 1 - x, 1, color),
                );
            }
            col += 1;
        }
        proof {
            lemma_repaint(
                pre,
                line,
                *back,
                rect_paint(x as int, y as int, x2 - x, row - y, color),
                rect_paint(x as int, row as int, x2 - x, 1, color),
                rect_paint(x as int, y as int, x2 - x, row + 1 - y, color),
            );
        }
        row += 1;
    }
    proof {
        lemma_same_paint(
            pre,
            *back,
            rect_paint(x as int, y as int, x2 - x, y2 - y, color),
            f,
        );
    }
}

/// The bit of a glyph at a column and a row of its cell is set.
pub open spec fn lit(rows: Seq<u8>, col: int, row: int) -> bool {
    &&& 0 <= col < FONT_WIDTH
    &&& 0 <= row < rows.len()
    &&& (rows[row] >> ((FONT_WIDTH - 1 - col) as usize)) & 1 != 0
}

/// A glyph drawn with its cell at `left`, `top`.
pub open spec fn glyph_paint(
    rows: Seq<u8>,
    left: int,
    top: int,
    color: u32,
) -> spec_fn(int, int) -> Option<u32> {
    |px: int, py: int|
        if lit(rows, px - left, py - top) {
            Some(color)
        } else {
            None
        }
}

/// The columns up to `col` of row `row`, and the rows above it, of a glyph.
spec fn glyph_part(
    rows: Seq<u8>,
    left: int,
    top: int,
    row: int,
    col: int,
    color: u32,
) -> spec_fn(int, int) -> Option<u32> {
    |px: int, py: int|
        if lit(rows, px - left, py - top) && (py - top < row || (py - top == row && px - left
            < col)) {
            Some(color)
        } else {
            None
        }
}

fn draw_glyph(back: &mut BackBuffer, rows: &Vec<u8>, left: usize, top: usize, color: u32)
    requires
        old(back).wf(),
        rows@.len() == FONT_HEIGHT,
        left + FONT_WIDTH <= usize::MAX,
        top + FONT_HEIGHT <= usize::MAX,
    ensures
        BackBuffer::repainted(
            *old(back),
            *final(back),
            glyph_paint(rows@, left as int, top as int, color),
        ),
{
    let ghost pre = *back;
    let mut row: usize = 0;
    while row < FONT_HEIGHT
        invariant
            rows@.len() == FONT_HEIGHT,
            left + FONT_WIDTH <= usize::MAX,
            top + FONT_HEIGHT <= usize::MAX,
            row <= FONT_HEIGHT,
            back.wf(),
            BackBuffer::repainted(
                pre,
                *back,
                glyph_part(rows@, left as int, top as int, row as int, 0, color),
            ),
        decreases FONT_HEIGHT - row,
    {
        let data: u8 = rows[row];
        let mut col: usize = 0;
        while col < FONT_WIDTH
            invariant
                rows@.len() == FONT_HEIGHT,
                left + FONT_WIDTH <= usize::MAX,
                top + FONT_HEIGHT <= usize::MAX,
                row < FONT_HEIGHT,
                data == rows@[row as int],
                col <= FONT_WIDTH,
                back.wf(),
                BackBuffer::repainted(
                    pre,
                    *back,
                    glyph_part(rows@, left as int, top as int, row as int, col as int, color),
                ),
            decreases FONT_WIDTH - col,
        {
            let ghost mid = *back;
            if (data >> (FONT_WIDTH - 1 - col)) & 1 != 0 {
                back.set_pixel(left + col, top + row, color);
                proof {
                    lemma_repaint(
                        pre,
                        mid,
                        *back,
                        glyph_part(rows@, left as int, top as int, row as int, col as int, color),
                        |px: int, py: int|
                            if px == left + col && py == top + row {
                                Some(color)
                            } else {
                                None
                            },
                        glyph_part(rows@, left as int, top as int, row as int, col + 1, color),
                    );
                }
            } else {
                proof {
                    lemma_same_paint(
                        pre,
                        *back,
                        glyph_part(rows@, left as int, top as int, row as int, col as int, color),
                        glyph_part(rows@, left as int, top as int, row as int, col + 1, color),
                    );
                }
            }
            col += 1;
        }
        proof {
            lemma_same_paint(
                pre,
                *back,
                glyph_part(rows@, left as int, top as int, row as int, FONT_WIDTH as int, color),
                glyph_part(rows@, left as int, top as int, row + 1, 0, color),
            );
        }
        row += 1;
    }
    proof {
        lemma_same_paint(
            pre,
            *back,
            glyph_part(rows@, left as int, top as int, FONT_HEIGHT as int, 0, color),
            glyph_paint(rows@, left as int, top as int, color),
        );
    }
}

/// Text drawn with its first cell at `left`, `top`: one cell after the other, an
/// empty one for a character without a glyph.
pub open spec fn text_paint(
    font: Font,
    text: Seq<char>,
    left: int,
    top: int,
    color: u32,
) -> spec_fn(int, int) -> Option<u32> {
    |px: int, py: int|
        {
            let k = (px - left) / FONT_WIDTH as int;
            if px >= left && k < text.len() {
                match font.rows_from(text[k], 0) {
                    Some(rows) => if lit(rows, (px - left) % FONT_WIDTH as int, py - top) {
                        Some(color)
                    } else {
                        None
                    },
                    None => None,
                }
            } else {
                None
            }
        }
}

/// Draws text. The first character stands at twice `x`: the position counts both
/// as the offset of the text and as the place from which it starts.
pub fn draw_text(
    back: &mut BackBuffer,
    font: &Font,
    x: usize,
    y: usize,
    text: &str,
    color: u32,
)
    requires
        old(back).wf(),
        font.wf(),
        2 * x + FONT_WIDTH * text@.len() <= usize::MAX,
        y + FONT_HEIGHT <= usize::MAX,
    ensures
        BackBuffer::repainted(
            *old(back),
            *final(back),
            text_paint(*font, text@, 2 * x, y as int, color),
        ),
{
    let ghost pre = *back;
    let mut cx: usize = x;
    proof {
        let f = text_paint(*font, text@.take(0), 2 * x, y as int, color);
        assert forall|px: int, py: int| pre.inside(px, py) implies f(px, py) is None by {}
    }
    for ch in it: text.chars()
        invariant
            it.seq() == text@,
            font.wf(),
            2 * x + FONT_WIDTH * text@.len() <= usize::MAX,
            y + FONT_HEIGHT <= usize::MAX,
            cx == x + FONT_WIDTH * it.index(),
            back.wf(),
            BackBuffer::repainted(
                pre,
                *back,
                text_paint(*font, text@.take(it.index()), 2 * x, y as int, color),
            ),
    {
        let ghost k = it.index();
        let ghost mid = *back;
        let ghost f = text_paint(*font, text@.take(k), 2 * x, y as int, color);
        let ghost h = text_paint(*font, text@.take(k + 1), 2 * x, y as int, color);
        assert(text@.take(k + 1)[k] == ch);
        assert(forall|j: int| 0 <= j < k ==> text@.take(k)[j] == text@.take(k + 1)[j]);
        match font.get_glyph(ch) {
            Some(rows) => {
                draw_glyph(back, rows, x + cx, y, color);
                proof {
                    let g = glyph_paint(rows@, x + cx, y as int, color);
                    assert forall|px: int, py: int| pre.inside(px, py) implies #[trigger] h(px, py)
                        == (if g(px, py) is Some {
                        g(px, py)
                    } else {
                        f(px, py)
                    }) by {
                        let d = px - 2 * x;
                        if d >= 0 && d / 8 == k {
                            assert(d % 8 == px - (x + cx));
                        }
                    }
                    lemma_repaint(pre, mid, *back, f, g, h);
                }
            },
            None => {
                proof {
                    assert forall|px: int, py: int| pre.inside(px, py) implies #[trigger] h(px, py)
                        == f(px, py) by {}
                    lemma_same_paint(pre, *back, f, h);
                }
            },
        }
        cx += FONT_WIDTH;
    }
    assert(text@.take(text@.len() as int) =~= text@);
}

/// Draws text in a colour given by its parts.
pub fn draw_text_col(
    back: &mut BackBuffer,
    font: &Font,
    x: usize,
    y: usize,
    text: &str,
    r: u8,
    g: u8,
    b: u8,
)
    requires
        old(back).wf(),
        font.wf(),
        2 * x + FONT_WIDTH * text@.len() <= usize::MAX,
        y + FONT_HEIGHT <= usize::MAX,
    ensures
        BackBuffer::repainted(
            *old(back),
            *final(back),
            text_paint(*font, text@, 2 * x, y as int, framebuffer::rgb(r, g, b)),
        ),
{
    draw_text(back, font, x, y, text, pack_rgb(r, g, b));
}

/// Part of a colour over part of another, by `alpha` of 255.
pub open spec fn blended(over: u8, under: u8, alpha: u8) -> u8 {
    ((over * alpha + under * (255 - alpha)) / 255) as u8
}

fn blend(over: u8, under: u32, alpha: u8) -> (r: u8)
    requires
        under <= 255,
    ensures
        r == blended(over, under as u8, alpha),
{
    let a: u32 = alpha as u32;
    let ia: u32 = 255 - a;
    let o: u32 = over as u32;
    assert(o * a + under * ia <= 255 * 255) by (nonlinear_arith)
        requires
            o <= 255,
            under <= 255,
            a <= 255,
            ia == 255 - a,
    ;
    assert(0 <= o * a && 0 <= under * ia) by (nonlinear_arith)
        requires
            0 <= o,
            0 <= a,
            0 <= under,
            0 <= ia,
    ;
    ((o * a + under * ia) / 255) as u8
}

/// Blends a colour over a pixel of the buffer; others are ignored.
pub fn blend_pixel(
    back: &mut BackBuffer,
    x: usize,
    y: usize,
    r: u8,
    g: u8,
    b: u8,
    alpha: u8,
)
    requires
        old(back).wf(),
    ensures
        BackBuffer::repainted(*old(back), *final(back), blend_paint(*old(back), x, y, r, g, b, alpha)),
{
    if x >= back.width || y >= back.height {
        assert(BackBuffer::repainted(*old(back), *back, blend_paint(*old(back), x, y, r, g, b, alpha)));
        return;
    }
    let dst: u32 = back.get_pixel(x, y);
    assert((dst >> 16) & 0xFF <= 255 && (dst >> 8) & 0xFF <= 255 && dst & 0xFF <= 255)
        by (bit_vector);
    let nr: u8 = blend(r, (dst >> 16) & 0xFF, alpha);
    let ng: u8 = blend(g, (dst >> 8) & 0xFF, alpha);
    let nb: u8 = blend(b, dst & 0xFF, alpha);
    back.set_pixel(x, y, pack_rgb(nr, ng, nb));
    proof {
        lemma_same_paint(
            *old(back),
            *back,
            |px: int, py: int|
                if px == x && py == y {
                    Some(framebuffer::rgb(nr, ng, nb))
                } else {
                    None
                },
            blend_paint(*old(back), x, y, r, g, b, alpha),
        );
    }
}

/// A colour blended over one pixel.
pub open spec fn blend_paint(
    back: BackBuffer,
    x: usize,
    y: usize,
    r: u8,
    g: u8,
    b: u8,
    alpha: u8,
) -> spec_fn(int, int) -> Option<u32> {
    let dst = back.pixel(x as int, y as int);
    |px: int, py: int|
        if px == x && py == y {
            Some(
                framebuffer::rgb(
                    blended(r, framebuffer::red(dst), alpha),
                    blended(g, framebuffer::green(dst), alpha),
                    blended(b, framebuffer::blue(dst), alpha),
                ),
            )
        } else {
            None
        }
}

/// Full opacity replaces the pixel's part, none keeps it.
pub proof fn law_blend_extremes(over: u8, under: u8)
    ensures
        blended(over, under, 255) == over,
        blended(over, under, 0) == under,
{
}

/// A bit of a mask, row by row with `stride` bytes each, the highest bit leftmost.
pub open spec fn mask_bit(mask: Seq<u8>, stride: int, col: int, row: int) -> bool {
    let i = row * stride + col / 8;
    i < mask.len() && mask[i] & (0x80u8 >> ((col % 8) as usize)) != 0
}

/// A mask drawn at `x`, `y`.
pub open spec fn mask_paint(
    mask: Seq<u8>,
    stride: int,
    x: int,
    y: int,
    w: int,
    h: int,
    color: u32,
) -> spec_fn(int, int) -> Option<u32> {
    |px: int, py: int|
        if x <= px < x + w && y <= py < y + h && mask_bit(mask, stride, px - x, py - y) {
            Some(color)
        } else {
            None
        }
}

/// The part of a mask above `row`, and in that row left of `col`.
spec fn mask_part(
    mask: Seq<u8>,
    stride: int,
    x: int,
    y: int,
    w: int,
    row: int,
    col: int,
    color: u32,
) -> spec_fn(int, int) -> Option<u32> {
    |px: int, py: int|
        if x <= px < x + w && y <= py && (py - y < row || (py - y == row && px - x < col))
            && mask_bit(mask, stride, px - x, py - y) {
            Some(color)
        } else {
            None
        }
}

/// Draws the set bits of a mask in a colour.
pub fn blit_mask(
    back: &mut BackBuffer,
    px: usize,
    py: usize,
    w: usize,
    h: usize,
    mask: &[u8],
    color: u32,
    stride: usize,
)
    requires
        old(back).wf(),
        px + w <= usize::MAX,
        h * stride + w <= usize::MAX,
    ensures
        BackBuffer::repainted(
            *old(back),
            *final(back),
            mask_paint(mask@, stride as int, px as int, py as int, w as int, h as int, color),
        ),
{
    let ghost pre = *back;
    let ghost s = stride as int;
    let mut row: usize = 0;
    while row < h && row < back.height && py < back.height - row
        invariant
            pre.wf(),
            back.wf(),
            px + w <= usize::MAX,
            h * stride + w <= usize::MAX,
            s == stride,
            row <= h,
            row > 0 ==> py + row <= pre.height,
            BackBuffer::repainted(
                pre,
                *back,
                mask_part(mask@, s, px as int, py as int, w as int, row as int, 0, color),
            ),
        decreases h - row,
    {
        let sy: usize = py + row;
        let mut col: usize = 0;
        while col < w
            invariant
                pre.wf(),
                back.wf(),
                px + w <= usize::MAX,
                h * stride + w <= usize::MAX,
                s == stride,
                row < h,
                sy == py + row,
                sy < pre.height,
                col <= w,
                BackBuffer::repainted(
                    pre,
                    *back,
                    mask_part(mask@, s, px as int, py as int, w as int, row as int, col as int, color),
                ),
            decreases w - col,
        {
            let ghost mid = *back;
            assert(0 <= row * stride && row * stride + stride <= h * stride) by (nonlinear_arith)
                requires
                    row + 1 <= h,
                    0 <= stride,
                    0 <= row,
            ;
            let bi: usize = row * stride + col / 8;
            let hit: bool = bi < mask.len() && (mask[bi] & (0x80u8 >> (col % 8))) != 0;
            assert(hit == mask_bit(mask@, s, col as int, row as int));
            if hit {
                back.set_pixel(px + col, sy, color);
                proof {
                    lemma_repaint(
                        pre,
                        mid,
                        *back,
                        mask_part(
                            mask@,
                            s,
                            px as int,
                            py as int,
                            w as int,
                            row as int,
                            col as int,
                            color,
                        ),
                        |ax: int, ay: int|
                            if ax == px + col && ay == sy {
                                Some(color)
                            } else {
                                None
                            },
                        mask_part(
                            mask@,
                            s,
                            px as int,
                            py as int,
                            w as int,
                            row as int,
                            col + 1,
                            color,
                        ),
                    );
                }
            } else {
                proof {
                    lemma_same_paint(
                        pre,
                        *back,
                        mask_part(
                            mask@,
                            s,
                            px as int,
                            py as int,
                            w as int,
                            row as int,
                            col as int,
                            color,
                        ),
                        mask_part(
                            mask@,
                            s,
                            px as int,
                            py as int,
                            w as int,
                            row as int,
                            col + 1,
                            color,
                        ),
                    );
                }
            }
            col += 1;
        }
        proof {
            lemma_same_paint(
                pre,
                *back,
                mask_part(mask@, s, px as int, py as int, w as int, row as int, w as int, color),
                mask_part(mask@, s, px as int, py as int, w as int, row + 1, 0, color),
            );
        }
        row += 1;
    }
    proof {
        lemma_same_paint(
            pre,
            *back,
            mask_part(mask@, s, px as int, py as int, w as int, row as int, 0, color),
            mask_paint(mask@, s, px as int, py as int, w as int, h as int, color),
        );
    }
}

/// Pixels drawn at `x`, `y`, row by row with `stride` pixels each.
pub open spec fn pixels_paint(
    pixels: Seq<u32>,
    stride: int,
    x: int,
    y: int,
    w: int,
    h: int,
) -> spec_fn(int, int) -> Option<u32> {
    |px: int, py: int|
        {
            let i = (py - y) * stride + (px - x);
            if x <= px < x + w && y <= py < y + h && i < pixels.len() {
                Some(pixels[i])
            } else {
                None
            }
        }
}

/// Copies a rectangle of pixels into the buffer, as far as both reach.
pub fn blit_pixels(
    back: &mut BackBuffer,
    dx: usize,
    dy: usize,
    w: usize,
    h: usize,
    pixels: &[u32],
    stride: usize,
)
    requires
        old(back).wf(),
        dx + w <= usize::MAX,
        dy + h <= usize::MAX,
        h * stride + w <= usize::MAX,
    ensures
        BackBuffer::repainted(
            *old(back),
            *final(back),
            pixels_paint(pixels@, stride as int, dx as int, dy as int, w as int, h as int),
        ),
{
    let x2: usize = if dx + w <= back.width {
        dx + w
    } else {
        back.width
    };
    let y2: usize = if dy + h <= back.height {
        dy + h
    } else {
        back.height
    };
    let ghost pre = *back;
    let ghost s = stride as int;
    let ghost f = pixels_paint(pixels@, s, dx as int, dy as int, w as int, h as int);
    if dx >= x2 || dy >= y2 {
        assert forall|px: int, py: int| pre.inside(px, py) implies f(px, py) is None by {}
        return;
    }
    let mut row: usize = 0;
    while row < y2 - dy
        invariant
            pre.wf(),
            back.wf(),
            dx < x2 <= pre.width,
            dy < y2 <= pre.height,
            x2 <= dx + w,
            y2 <= dy + h,
            h * stride + w <= usize::MAX,
            s == stride,
            row <= y2 - dy,
            BackBuffer::repainted(
                pre,
                *back,
                pixels_paint(pixels@, s, dx as int, dy as int, x2 - dx, row as int),
            ),
        decreases y2 - dy - row,
    {
        let ghost line = *back;
        assert(0 <= row * stride && row * stride + stride <= h * stride) by (nonlinear_arith)
            requires
                row + 1 <= h,
                0 <= stride,
                0 <= row,
        ;
        let src: usize = row * stride;
        let mut col: usize = 0;
        while col < x2 - dx && src + col < pixels.len()
            invariant
                pre.wf(),
                back.wf(),
                line.width == pre.width,
                line.height == pre.height,
                dx < x2 <= pre.width,
                dy < y2 <= pre.height,
                x2 <= dx + w,
                y2 <= dy + h,
                h * stride + w <= usize::MAX,
                row < y2 - dy,
                src == row * stride,
                src + stride <= h * stride,
                s == stride,
                col <= x2 - dx,
                BackBuffer::repainted(
                    line,
                    *back,
                    pixel_row(pixels@, src as int, dx as int, dy + row, col as int),
                ),
            decreases x2 - dx - col,
        {
            let ghost mid = *back;
            let color: u32 = pixels[src + col];
            back.set_pixel(dx + col, dy + row, color);
            proof {
                lemma_repaint(
                    line,
                    mid,
                    *back,
                    pixel_row(pixels@, src as int, dx as int, dy + row, col as int),
                    |px: int, py: int|
                        if px == dx + col && py == dy + row {
                            Some(color)
                        } else {
                            None
                        },
                    pixel_row(pixels@, src as int, dx as int, dy + row, col + 1),
                );
            }
            col += 1;
        }
        proof {
            let g = pixel_row(pixels@, src as int, dx as int, dy + row, col as int);
            let before = pixels_paint(pixels@, s, dx as int, dy as int, x2 - dx, row as int);
            let after = pixels_paint(pixels@, s, dx as int, dy as int, x2 - dx, row + 1);
            assert forall|px: int, py: int| pre.inside(px, py) implies #[trigger] after(px, py) == (
            if g(px, py) is Some {
                g(px, py)
            } else {
                before(px, py)
            }) by {
                if py - dy == row {
                    assert((py - dy) * s == src);
                }
            }
            lemma_repaint(pre, line, *back, before, g, after);
        }
        row += 1;
    }
    proof {
        lemma_same_paint(
            pre,
            *back,
            pixels_paint(pixels@, s, dx as int, dy as int, x2 - dx, y2 - dy),
            f,
        );
    }
}

/// The first `n` pixels from `src` on in one row, as far as there are any.
spec fn pixel_row(
    pixels: Seq<u32>,
    src: int,
    x: int,
    y: int,
    n: int,
) -> spec_fn(int, int) -> Option<u32> {
    |px: int, py: int|
        if x <= px < x + n && py == y && src + px - x < pixels.len() {
            Some(pixels[src + px - x])
        } else {
            None
        }
}

/// The pixel in a row and a column: rows of the buffer's width lie one behind the other.
pub open spec fn at(back: BackBuffer, x: int, y: int) -> u32 {
    back.pixels@[y * back.width + x]
}

/// A colour is packed with red in the third byte, green in the second and blue in the
/// first.
pub proof fn law_colour_is_packed_in_bytes(r: u8, g: u8, b: u8, px: u32)
    requires
        call_ensures(pack_rgb, (r, g, b), px),
    ensures
        px == r * 65536 + g * 256 + b,
{
    assert((((r as u32) << 16) | ((g as u32) << 8) | (b as u32)) == r * 65536 + g * 256 + b)
        by (bit_vector);
}

/// Setting a pixel, clearing and filling a rectangle paint exactly the pixels they name
/// and leave every other one; the size of the picture stays.
pub proof fn law_painted_pixels_are_those_named(
    a: &mut BackBuffer,
    b: &mut BackBuffer,
    c: &mut BackBuffer,
    x: usize,
    y: usize,
    w: usize,
    h: usize,
    color: u32,
    qx: int,
    qy: int,
)
    requires
        old(a).wf(),
        call_ensures(set_pixel, (a, x, y, color), ()),
        *old(b) == *old(a),
        call_ensures(clear, (b, color), ()),
        *old(c) == *old(a),
        call_ensures(fill_rect, (c, x, y, w, h, color), ()),
        0 <= qx < old(a).width,
        0 <= qy < old(a).height,
    ensures
        at(*final(a), qx, qy) == (if qx == x && qy == y {
            color
        } else {
            at(*old(a), qx, qy)
        }),
        at(*final(b), qx, qy) == color,
        at(*final(c), qx, qy) == (if x <= qx && qx < x + w && y <= qy && qy < y + h {
            color
        } else {
            at(*old(a), qx, qy)
        }),
        final(a).width == old(a).width && final(a).height == old(a).height,
        final(b).width == old(a).width && final(b).height == old(a).height,
        final(c).width == old(a).width && final(c).height == old(a).height,
{
    assert(old(a).inside(qx, qy));
    assert(final(a).pixel(qx, qy) == at(*final(a), qx, qy));
    assert(final(b).pixel(qx, qy) == at(*final(b), qx, qy));
    assert(final(c).pixel(qx, qy) == at(*final(c), qx, qy));
}

/// A copied picture stands where it was put: the pixel at a row and a column of it is the
/// one that lies there, with rows as far apart as the stride. Every other pixel stays.
pub proof fn law_copied_pixels_keep_their_places(
    back: &mut BackBuffer,
    dx: usize,
    dy: usize,
    w: usize,
    h: usize,
    pixels: &[u32],
    stride: usize,
    qx: int,
    qy: int,
)
    requires
        old(back).wf(),
        call_ensures(blit_pixels, (back, dx, dy, w, h, pixels, stride), ()),
        w <= stride,
        pixels@.len() == h * stride,
        0 <= qx < old(back).width,
        0 <= qy < old(back).height,
    ensures
        ({
            let inside = dx <= qx && qx < dx + w && dy <= qy && qy < dy + h;
            &&& inside ==> at(*final(back), qx, qy) == pixels@[(qy - dy) * stride + (qx - dx)]
            &&& !inside ==> at(*final(back), qx, qy) == at(*old(back), qx, qy)
        }),
{
    assert(old(back).inside(qx, qy));
    assert(final(back).pixel(qx, qy) == at(*final(back), qx, qy));
    if dx <= qx && qx < dx + w && dy <= qy && qy < dy + h {
        let (r, c, n, s) = (qy - dy, qx - dx, h as int, stride as int);
        assert(r * s + c < n * s) by (nonlinear_arith)
            requires
                0 <= r < n,
                0 <= c < s,
        ;
    }
}

/// A bit of a byte, counted from the highest.
pub open spec fn bit_from_left(byte: u8, i: int) -> bool {
    let b = byte as int;
    if i == 0 {
        (b / 128) % 2 == 1
    } else if i == 1 {
        (b / 64) % 2 == 1
    } else if i == 2 {
        (b / 32) % 2 == 1
    } else if i == 3 {
        (b / 16) % 2 == 1
    } else if i == 4 {
        (b / 8) % 2 == 1
    } else if i == 5 {
        (b / 4) % 2 == 1
    } else if i == 6 {
        (b / 2) % 2 == 1
    } else {
        b % 2 == 1
    }
}

proof fn lemma_bits_from_left(byte: u8, i: int)
    requires
        0 <= i < 8,
    ensures
        bit_from_left(byte, i) <==> (byte >> ((7 - i) as usize)) & 1 != 0,
        bit_from_left(byte, i) <==> byte & (0x80u8 >> (i as usize)) != 0,
{
    assert(((byte >> 7usize) & 1 != 0) == ((byte / 128) % 2 == 1) && ((byte >> 6usize) & 1 != 0)
        == ((byte / 64) % 2 == 1) && ((byte >> 5usize) & 1 != 0) == ((byte / 32) % 2 == 1) && ((byte
        >> 4usize) & 1 != 0) == ((byte / 16) % 2 == 1) && ((byte >> 3usize) & 1 != 0) == ((byte / 8)
        % 2 == 1) && ((byte >> 2usize) & 1 != 0) == ((byte / 4) % 2 == 1) && ((byte >> 1usize) & 1
        != 0) == ((byte / 2) % 2 == 1) && ((byte >> 0usize) & 1 != 0) == (byte % 2 == 1))
        by (bit_vector);
    assert((byte & (0x80u8 >> 0usize) != 0) == ((byte / 128) % 2 == 1) && (byte & (0x80u8
        >> 1usize) != 0) == ((byte / 64) % 2 == 1) && (byte & (0x80u8 >> 2usize) != 0) == ((byte
        / 32) % 2 == 1) && (byte & (0x80u8 >> 3usize) != 0) == ((byte / 16) % 2 == 1) && (byte & (
    0x80u8 >> 4usize) != 0) == ((byte / 8) % 2 == 1) && (byte & (0x80u8 >> 5usize) != 0) == ((byte
        / 4) % 2 == 1) && (byte & (0x80u8 >> 6usize) != 0) == ((byte / 2) % 2 == 1) && (byte & (
    0x80u8 >> 7usize) != 0) == (byte % 2 == 1)) by (bit_vector);
}

/// A mask paints a pixel exactly where its bit is set: rows of so many bytes, each byte
/// eight pixels from its highest bit on. Every other pixel stays.
pub proof fn law_mask_paints_its_bits(
    back: &mut BackBuffer,
    px: usize,
    py: usize,
    w: usize,
    h: usize,
    mask: &[u8],
    color: u32,
    stride: usize,
    qx: int,
    qy: int,
)
    requires
        old(back).wf(),
        call_ensures(blit_mask, (back, px, py, w, h, mask, color, stride), ()),
        mask@.len() == h * stride,
        w <= 8 * stride,
        0 <= qx < old(back).width,
        0 <= qy < old(back).height,
    ensures
        ({
            let (row, col) = (qy - py, qx - px);
            let inside = 0 <= row < h && 0 <= col < w;
            let set = inside && bit_from_left(mask@[row * stride + col / 8], col % 8);
            &&& set ==> at(*final(back), qx, qy) == color
            &&& !set ==> at(*final(back), qx, qy) == at(*old(back), qx, qy)
        }),
{
    assert(old(back).inside(qx, qy));
    assert(final(back).pixel(qx, qy) == at(*final(back), qx, qy));
    let (row, col) = (qy - py, qx - px);
    if 0 <= row < h && 0 <= col < w {
        let (n, s, c) = (h as int, stride as int, col / 8);
        assert(row * s + c < n * s) by (nonlinear_arith)
            requires
                0 <= row < n,
                0 <= c < s,
        ;
        lemma_bits_from_left(mask@[row * stride + col / 8], col % 8);
    }
}

/// Text is painted character by character, each eight pixels wide from twice the given
/// column on: a pixel of a character gets the colour exactly where the bit of the
/// character's row is set, counted from the left. Where the font lacks a character nothing
/// is painted, nor left of the text, nor above or below it.
pub proof fn law_text_paints_its_characters(
    back: &mut BackBuffer,
    font: &Font,
    x: usize,
    y: usize,
    text: &str,
    color: u32,
    k: int,
    col: int,
    row: int,
)
    requires
        old(back).wf(),
        font.wf(),
        call_ensures(draw_text, (back, font, x, y, text, color), ()),
        0 <= k < text@.len(),
        0 <= col < 8,
        0 <= row < 16,
        2 * x + 8 * k + col < old(back).width,
        y + row < old(back).height,
    ensures
        ({
            let (qx, qy) = (2 * x + 8 * k + col, y + row);
            let rows = font.rows_from(text@[k], 0);
            let set = rows is Some && bit_from_left(rows->0[row], col);
            &&& set ==> at(*final(back), qx, qy) == color
            &&& !set ==> at(*final(back), qx, qy) == at(*old(back), qx, qy)
        }),
        forall|qx: int, qy: int|
            0 <= qx < old(back).width && 0 <= qy < old(back).height && (qx < 2 * x || qx >= 2 * x
                + 8 * text@.len() || qy < y || qy >= y + 16) ==> #[trigger] at(
                *final(back),
                qx,
                qy,
            ) == at(*old(back), qx, qy),
{
    let (qx, qy) = (2 * x + 8 * k + col, y + row);
    assert(old(back).inside(qx, qy));
    assert(final(back).pixel(qx, qy) == at(*final(back), qx, qy));
    assert((qx - 2 * x) / 8 == k && (qx - 2 * x) % 8 == col);
    lemma_rows_from(*font, text@[k], 0);
    if let Some(rows) = font.rows_from(text@[k], 0) {
        lemma_bits_from_left(rows[row], col);
    }
    assert forall|qx: int, qy: int|
        0 <= qx < old(back).width && 0 <= qy < old(back).height && (qx < 2 * x || qx >= 2 * x + 8
            * text@.len() || qy < y || qy >= y + 16) implies #[trigger] at(*final(back), qx, qy)
        == at(*old(back), qx, qy) by {
        assert(old(back).inside(qx, qy));
        assert(final(back).pixel(qx, qy) == at(*final(back), qx, qy));
        let j = (qx - 2 * x) / 8;
        if qx >= 2 * x && j < text@.len() {
            lemma_rows_from(*font, text@[j], 0);
        }
    }
}

proof fn lemma_rows_from(font: Font, ch: char, i: int)
    requires
        font.wf(),
        0 <= i,
    ensures
        font.rows_from(ch, i) matches Some(rows) ==> rows.len() == 16,
    decreases font.glyphs@.len() - i,
{
    if i < font.glyphs@.len() {
        assert(font.glyphs@[i].rows@.len() == FONT_HEIGHT);
        lemma_rows_from(font, ch, i + 1);
    }
}

/// A blended pixel lies between what was there and what is put over it, for each of red,
/// green and blue, and nearer to the latter the more opaque that is. Every other pixel
/// stays.
pub proof fn law_blend_lies_between(over: u8, under: u8, alpha: u8, more: u8)
    requires
        alpha <= more,
    ensures
        over <= under ==> over <= blended(over, under, alpha) <= under,
        over >= under ==> under <= blended(over, under, alpha) <= over,
        over <= under ==> blended(over, under, more) <= blended(over, under, alpha),
        over >= under ==> blended(over, under, more) >= blended(over, under, alpha),
        -255 < 255 * blended(over, under, alpha) - (over * alpha + under * (255 - alpha)) <= 0,
{
    let (o, u, a, m) = (over as int, under as int, alpha as int, more as int);
    let s = o * a + u * (255 - a);
    let t = o * m + u * (255 - m);
    assert(s == 255 * u + (o - u) * a) by (nonlinear_arith)
        requires
            s == o * a + u * (255 - a),
    ;
    assert(t == 255 * u + (o - u) * m) by (nonlinear_arith)
        requires
            t == o * m + u * (255 - m),
    ;
    if o >= u {
        assert(0 <= (o - u) * a <= (o - u) * m && (o - u) * m <= (o - u) * 255)
            by (nonlinear_arith)
            requires
                o >= u,
                0 <= a <= m <= 255,
        ;
    } else {
        assert((o - u) * 255 <= (o - u) * m && (o - u) * m <= (o - u) * a && (o - u) * a <= 0)
            by (nonlinear_arith)
            requires
                o < u,
                0 <= a <= m <= 255,
        ;
    }
}

/// Blending changes the one pixel, part by part: the red put over it meets its red, and so
/// for green and blue.
pub proof fn law_blended_pixel_is_the_one_named(
    back: &mut BackBuffer,
    x: usize,
    y: usize,
    r: u8,
    g: u8,
    b: u8,
    alpha: u8,
    qx: int,
    qy: int,
)
    requires
        old(back).wf(),
        call_ensures(blend_pixel, (back, x, y, r, g, b, alpha), ()),
        0 <= qx < old(back).width,
        0 <= qy < old(back).height,
    ensures
        ({
            let was = at(*old(back), qx, qy);
            let now = at(*final(back), qx, qy);
            let here = qx == x && qy == y;
            &&& !here ==> now == was
            &&& here && alpha == 0 ==> framebuffer::red(now) == framebuffer::red(was)
                && framebuffer::green(now) == framebuffer::green(was) && framebuffer::blue(now)
                == framebuffer::blue(was)
            &&& here && alpha == 255 ==> now == r * 65536 + g * 256 + b
            &&& here ==> framebuffer::red(now) == blended(r, framebuffer::red(was), alpha)
                && framebuffer::green(now) == blended(g, framebuffer::green(was), alpha)
                && framebuffer::blue(now) == blended(b, framebuffer::blue(was), alpha)
        }),
{
    assert(old(back).inside(qx, qy));
    assert(final(back).pixel(qx, qy) == at(*final(back), qx, qy));
    let was = at(*old(back), qx, qy);
    let (nr, ng, nb) = (
        blended(r, framebuffer::red(was), alpha),
        blended(g, framebuffer::green(was), alpha),
        blended(b, framebuffer::blue(was), alpha),
    );
    framebuffer::law_parts_of_packed(nr, ng, nb);
    law_blend_extremes(r, framebuffer::red(was));
    law_blend_extremes(g, framebuffer::green(was));
    law_blend_extremes(b, framebuffer::blue(was));
    assert((((r as u32) << 16) | ((g as u32) << 8) | (b as u32)) == r * 65536 + g * 256 + b)
        by (bit_vector);
}

} // verus!
