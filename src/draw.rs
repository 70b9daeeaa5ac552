//! Where a laid-out block puts its glyphs and rectangles. The presentation
//! layer turns these primitives into the rendering backend's.
use vstd::prelude::*;
use crate::document::Point;
use crate::layout::{tiles, BuiltChunk, BuiltTextBlock, GlyphRange};
use crate::style::{Color, ResourceKey};
use crate::MAX_BLOCK_BYTES;

verus! {

/// A rectangle in app units: top-left corner and size.
#[derive(Debug, Clone, Copy, PartialEq, Eq, Structural)]
pub struct Rect {
    pub x: i64,
    pub y: i64,
    pub width: i64,
    pub height: i64,
}

/// A glyph placed on its baseline.
#[derive(Debug, Clone, Copy, PartialEq, Eq, Structural)]
pub struct GlyphInstance {
    pub index: u32,
    pub x: i64,
    pub y: i64,
}

/// A drawing primitive.
#[derive(Debug, Clone, Copy, PartialEq, Eq)]
pub enum DrawItem {
    /// A filled rectangle with rounded corners of the given radius.
    Rect { rect: Rect, color: Color, radius: i64 },
    /// The glyphs at positions `glyphs` of the placed glyphs, in one font
    /// instance and color, within `rect`.
    Text { rect: Rect, glyphs: GlyphRange, font_instance: ResourceKey, color: Color },
}

/// Corner radius of backgrounds: 5 pixels.
pub const CORNER_RADIUS: i64 = 300;

/// How far a block's background reaches past its box: 3 pixels.
pub const BLOCK_MARGIN: i64 = 180;

/// How far a highlight reaches past its text on each side: 1.5 pixels.
pub const HIGHLIGHT_MARGIN: i64 = 90;

/// What has been drawn so far, and the pen position.
pub struct DrawState {
    pub items: Seq<DrawItem>,
    pub glyphs: Seq<GlyphInstance>,
    pub pen: Point,
}

/// Draws one fragment: a fragment that begins a line moves the pen down
/// by its height and back to the left edge `left`; its glyphs then
/// advance the pen by the fragment's character width each.
pub open spec fn draw_chunk_step(ds: DrawState, c: BuiltChunk, left: i64, buf: Seq<u32>) -> DrawState {
    let pen = if c.newline {
        Point { x: left, y: (ds.pen.y + c.height) as i64 }
    } else {
        ds.pen
    };
    let n = c.range.end - c.range.start;
    let cw = c.char_width as int;
    let h = c.height as int;
    let placed = Seq::new(
        n as nat,
        |k: int| GlyphInstance { index: buf[c.range.start + k], x: (pen.x + k * cw) as i64, y: pen.y },
    );
    let rect = Rect { x: pen.x, y: (pen.y - h) as i64, width: (n * cw) as i64, height: (h * 12 / 10) as i64 };
    let items = match c.bg_color {
        Some(color) => ds.items.push(
            DrawItem::Rect {
                rect: Rect {
                    x: (rect.x - HIGHLIGHT_MARGIN) as i64,
                    y: (rect.y + h / 10) as i64,
                    width: (rect.width + 2 * HIGHLIGHT_MARGIN) as i64,
                    height: rect.height,
                },
                color,
                radius: CORNER_RADIUS,
            },
        ),
        None => ds.items,
    };
    DrawState {
        items: items.push(
            DrawItem::Text { rect, glyphs: c.range, font_instance: c.font_instance, color: c.color },
        ),
        glyphs: ds.glyphs + placed,
        pen: Point { x: (pen.x + n * cw) as i64, y: pen.y },
    }
}

/// Draws the fragments `cs` in order.
pub open spec fn draw_run(ds: DrawState, cs: Seq<BuiltChunk>, left: i64, buf: Seq<u32>) -> DrawState
    decreases cs.len(),
{
    if cs.len() == 0 {
        ds
    } else {
        draw_chunk_step(draw_run(ds, cs.drop_last(), left, buf), cs.last(), left, buf)
    }
}

/// The background of a block whose box is `size` at `origin`.
pub open spec fn block_background(b: BuiltTextBlock, origin: Point) -> Seq<DrawItem> {
    match b.bg_color {
        Some(color) => seq![
            DrawItem::Rect {
                rect: Rect {
                    x: (origin.x - BLOCK_MARGIN) as i64,
                    y: (origin.y - BLOCK_MARGIN) as i64,
                    width: (b.size.width + 2 * BLOCK_MARGIN) as i64,
                    height: (b.size.height + 2 * BLOCK_MARGIN) as i64,
                },
                color,
                radius: CORNER_RADIUS,
            },
        ],
        None => Seq::empty(),
    }
}

/// The limit on coordinates of a block's origin and on its box.
pub const COORD_LIMIT: i64 = 0x4_0000_0000_0000;

impl BuiltTextBlock {
    /// A laid-out block: at most `MAX_BLOCK_BYTES` glyphs, tiled by its
    /// fragments, in a box of bounded size.
    pub open spec fn wf(&self) -> bool {
        &&& self.glyphs@.len() <= MAX_BLOCK_BYTES
        &&& tiles(self.chunks@, 0, self.glyphs@.len() as int)
        &&& self.size.width <= COORD_LIMIT
        &&& self.size.height <= COORD_LIMIT
    }

    /// The primitives that draw the block at `origin`, and the placed
    /// glyphs, one per glyph of the buffer, that its text items refer to.
    pub fn draw(&self, origin: Point) -> (r: (Vec<DrawItem>, Vec<GlyphInstance>))
        requires
            self.wf(),
            -COORD_LIMIT <= origin.x <= COORD_LIMIT,
            -COORD_LIMIT <= origin.y <= COORD_LIMIT,
        ensures
            ({
                let start = DrawState { items: block_background(*self, origin), glyphs: Seq::empty(), pen: origin };
                let ds = draw_run(start, self.chunks@, origin.x, self.glyphs@);
                &&& r.0@ == ds.items
                &&& r.1@ == ds.glyphs
            }),
    {
        let mut items: Vec<DrawItem> = Vec::new();
        if let Some(color) = self.bg_color {
            let rect = Rect {
                x: origin.x - BLOCK_MARGIN,
                y: origin.y - BLOCK_MARGIN,
                width: self.size.width as i64 + 2 * BLOCK_MARGIN,
                height: self.size.height as i64 + 2 * BLOCK_MARGIN,
            };
            items.push(DrawItem::Rect { rect, color, radius: CORNER_RADIUS });
        }
        let mut glyphs: Vec<GlyphInstance> = Vec::new();
        let mut pen = origin;
        let ghost cs = self.chunks@;
        let ghost m = u32::MAX as int;
        let ghost start = DrawState { items: items@, glyphs: glyphs@, pen };
        let mut i: usize = 0;
        assert(items@ == block_background(*self, origin));
        assert(cs.take(0) == Seq::<BuiltChunk>::empty());
        while i < self.chunks.len()
            invariant
                self.wf(),
                cs == self.chunks@,
                m == u32::MAX,
                -COORD_LIMIT <= origin.x <= COORD_LIMIT,
                -COORD_LIMIT <= origin.y <= COORD_LIMIT,
                start == (DrawState { items: block_background(*self, origin), glyphs: Seq::empty(), pen: origin }),
                0 <= i <= cs.len(),
                ({
                    let ds = draw_run(start, cs.take(i as int), origin.x, self.glyphs@);
                    &&& items@ == ds.items
                    &&& glyphs@ == ds.glyphs
                    &&& pen == ds.pen
                }),
                glyphs@.len() == if i == 0 { 0 } else { cs[i - 1].range.end as int },
                i <= glyphs@.len(),
                origin.x <= pen.x <= COORD_LIMIT + glyphs@.len() * m,
                -COORD_LIMIT <= pen.y <= COORD_LIMIT + i * m,
                glyphs@.len() <= self.glyphs@.len(),
            decreases cs.len() - i,
        {
            let c = self.chunks[i];
            proof {
                if i > 0 {
                    let k = i - 1;
                    assert(cs[k].range.end == cs[k + 1].range.start);
                }
                assert(c.range.start < c.range.end);
                assert(c.range.end <= self.glyphs@.len()) by {
                    if i < cs.len() - 1 {
                        lemma_tiles_end_bound(cs, self.glyphs@.len() as int, i as int);
                    }
                }
                assert(cs.take(i as int + 1).drop_last() == cs.take(i as int));
                assert(COORD_LIMIT + i * m <= COORD_LIMIT + 65535 * m) by (nonlinear_arith)
                    requires i <= 65535, m >= 0;
                assert(COORD_LIMIT + glyphs@.len() * m == COORD_LIMIT + c.range.start * m);
            }
            pen = self.draw_chunk(&mut items, &mut glyphs, pen, &c, origin.x);
            proof {
                assert(pen.y <= COORD_LIMIT + (i + 1) * m) by (nonlinear_arith)
                    requires pen.y <= COORD_LIMIT + i * m + c.height, c.height <= m;
            }
            i = i + 1;
        }
        assert(cs.take(i as int) == cs);
        (items, glyphs)
    }

    /// Draws one fragment with the pen at `pen`, lines starting at `left`:
    /// appends its highlight, if it has one, and its text to `items`, and its
    /// placed glyphs to `glyphs`; returns the pen after it.
    fn draw_chunk(
        &self,
        items: &mut Vec<DrawItem>,
        glyphs: &mut Vec<GlyphInstance>,
        pen: Point,
        chunk: &BuiltChunk,
        left: i64,
    ) -> (r: Point)
        requires
            chunk.range.start < chunk.range.end <= self.glyphs@.len() <= MAX_BLOCK_BYTES,
            -COORD_LIMIT <= left <= COORD_LIMIT,
            left <= pen.x <= COORD_LIMIT + chunk.range.start * u32::MAX,
            -COORD_LIMIT <= pen.y <= COORD_LIMIT + 65535 * u32::MAX,
        ensures
            ({
                let ds = draw_chunk_step(
                    DrawState { items: old(items)@, glyphs: old(glyphs)@, pen },
                    *chunk,
                    left,
                    self.glyphs@,
                );
                &&& final(items)@ == ds.items
                &&& final(glyphs)@ == ds.glyphs
                &&& r == ds.pen
            }),
            left <= r.x <= COORD_LIMIT + chunk.range.end * u32::MAX,
            pen.y <= r.y <= pen.y + chunk.height,
            final(glyphs)@.len() == old(glyphs)@.len() + chunk.range.end - chunk.range.start,
    {
        let ghost m = u32::MAX as int;
        let ghost before = DrawState { items: items@, glyphs: glyphs@, pen };
        let c = *chunk;
        proof {
            assert(pen.y + c.height <= COORD_LIMIT + 65536 * m) by (nonlinear_arith)
                requires pen.y <= COORD_LIMIT + 65535 * m, c.height <= m;
        }
        let pen0 = if c.newline {
            Point { x: left, y: pen.y + c.height as i64 }
        } else {
            pen
        };
        let n = c.range.end - c.range.start;
        let cw = c.char_width as i64;
        let h = c.height as i64;
        proof {
            assert(pen0.x <= COORD_LIMIT + c.range.start * m);
            assert(pen0.x + n * cw <= COORD_LIMIT + c.range.end * m) by (nonlinear_arith)
                requires pen0.x <= COORD_LIMIT + c.range.start * m, cw <= m, n == c.range.end - c.range.start,
                    cw >= 0, n >= 0;
            assert(COORD_LIMIT + c.range.end * m <= COORD_LIMIT + 65535 * m) by (nonlinear_arith)
                requires c.range.end <= 65535, m >= 0;
            assert(n * cw <= 65535 * m) by (nonlinear_arith)
                requires n <= 65535, cw <= m, cw >= 0, n >= 0;
            assert(n * cw >= 0) by (nonlinear_arith)
                requires cw >= 0, n >= 0;
        }
        let ghost g0 = glyphs@;
        let mut k: usize = 0;
        while k < n
            invariant
                0 <= k <= n,
                n == c.range.end - c.range.start,
                n <= 65535,
                n * cw <= 65535 * m,
                c.range.end <= self.glyphs@.len(),
                cw == c.char_width,
                cw <= m,
                m == u32::MAX,
                cw >= 0,
                pen0.x + n * cw <= COORD_LIMIT + 65535 * m,
                left <= pen0.x,
                -COORD_LIMIT <= left,
                glyphs@ == g0 + Seq::new(
                    k as nat,
                    |j: int|
                        GlyphInstance {
                            index: self.glyphs@[c.range.start + j],
                            x: (pen0.x + j * cw) as i64,
                            y: pen0.y,
                        },
                ),
            decreases n - k,
        {
            proof {
                assert(k * cw <= n * cw) by (nonlinear_arith)
                    requires k <= n, cw >= 0;
                assert(k * cw >= 0) by (nonlinear_arith)
                    requires k >= 0, cw >= 0;
            }
            let g = GlyphInstance { index: self.glyphs[c.range.start + k], x: pen0.x + k as i64 * cw, y: pen0.y };
            glyphs.push(g);
            k = k + 1;
            let ghost placed = Seq::new(
                k as nat,
                |j: int|
                    GlyphInstance {
                        index: self.glyphs@[c.range.start + j],
                        x: (pen0.x + j * cw) as i64,
                        y: pen0.y,
                    },
            );
            assert(glyphs@ == g0 + placed);
        }
        let rect = Rect { x: pen0.x, y: pen0.y - h, width: n as i64 * cw, height: h * 12 / 10 };
        if let Some(color) = c.bg_color {
            let highlight = Rect {
                x: rect.x - HIGHLIGHT_MARGIN,
                y: rect.y + h / 10,
                width: rect.width + 2 * HIGHLIGHT_MARGIN,
                height: rect.height,
            };
            items.push(DrawItem::Rect { rect: highlight, color, radius: CORNER_RADIUS });
        }
        items.push(DrawItem::Text { rect, glyphs: c.range, font_instance: c.font_instance, color: c.color });
        let r = Point { x: pen0.x + n as i64 * cw, y: pen0.y };
        assert(draw_chunk_step(before, c, left, self.glyphs@) == (DrawState { items: items@, glyphs: glyphs@, pen: r }));
        r
    }
}

/// Every fragment of a tiling of `0..hi` ends at or before `hi`.
proof fn lemma_tiles_end_bound(cs: Seq<BuiltChunk>, hi: int, i: int)
    requires
        tiles(cs, 0, hi),
        0 <= i < cs.len(),
    ensures
        cs[i].range.end <= hi,
    decreases cs.len() - i,
{
    if i < cs.len() - 1 {
        assert(cs[i].range.end == cs[i + 1].range.start);
        lemma_tiles_end_bound(cs, hi, i + 1);
    }
}

} // verus!
