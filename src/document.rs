//! The laid-out document: its blocks, their vertical placement, the
//! scrollable content height, and scrolling within it.
use vstd::prelude::*;
use crate::image::{image_height, BuiltImageBlock};
use crate::layout::BuiltTextBlock;

verus! {

/// The width of the text column: 680 pixels, in app units.
pub const COLUMN_WIDTH: u64 = 40800;

/// The space below each block: 20 pixels, in app units.
pub const PADDING: u64 = 1200;

/// The space above the first block: 10 pixels, in app units.
pub const TOP_MARGIN: i64 = 600;

/// One pixel in app units.
pub const AU_PER_PX: i64 = 60;

/// A laid-out block of the document.
#[derive(Debug, Clone)]
pub enum BuiltBlock {
    Text(BuiltTextBlock),
    Image(BuiltImageBlock),
}

impl BuiltBlock {
    /// The height of the block in a column `width` wide.
    pub open spec fn spec_height(&self, width: u64) -> int {
        match self {
            BuiltBlock::Text(t) => t.size.height as int,
            BuiltBlock::Image(i) => image_height(i.width, i.height, width),
        }
    }

    pub fn height(&self, width: u64) -> (r: u64)
        requires
            width <= u32::MAX,
        ensures
            r == self.spec_height(width),
    {
        match self {
            BuiltBlock::Text(t) => t.size.height,
            BuiltBlock::Image(i) => i.height(width),
        }
    }
}

/// The height of blocks `bs` stacked, each followed by the padding.
pub open spec fn stacked_height(bs: Seq<BuiltBlock>, width: u64) -> int
    decreases bs.len(),
{
    if bs.len() == 0 {
        0
    } else {
        stacked_height(bs.drop_last(), width) + bs.last().spec_height(width) + PADDING
    }
}

/// The scrollable height of the document, if it fits in 64 bits.
pub fn total_height(blocks: &Vec<BuiltBlock>, width: u64) -> (r: Option<u64>)
    requires
        width <= u32::MAX,
    ensures
        r == if stacked_height(blocks@, width) <= u64::MAX {
            Some(stacked_height(blocks@, width) as u64)
        } else {
            None::<u64>
        },
{
    let mut total: u64 = 0;
    let mut i: usize = 0;
    assert(blocks@.take(0) == Seq::<BuiltBlock>::empty());
    while i < blocks.len()
        invariant
            width <= u32::MAX,
            0 <= i <= blocks@.len(),
            total == stacked_height(blocks@.take(i as int), width),
        decreases blocks@.len() - i,
    {
        assert(blocks@.take(i as int + 1).drop_last() == blocks@.take(i as int));
        assert(blocks@.take(i as int + 1).last() == blocks@[i as int]);
        proof { lemma_stacked_height_prefix(blocks@, width, i as int + 1); }
        let h = blocks[i].height(width);
        if h > u64::MAX - PADDING || total > u64::MAX - PADDING - h {
            return None;
        }
        total = total + h + PADDING;
        i = i + 1;
    }
    assert(blocks@.take(i as int) == blocks@);
    Some(total)
}

proof fn lemma_height_nonneg(b: BuiltBlock, width: u64)
    ensures
        b.spec_height(width) >= 0,
{
    if let BuiltBlock::Image(i) = b {
        if i.width != 0 {
            assert(width as int * i.height as int >= 0) by (nonlinear_arith)
                requires width >= 0, i.height >= 0;
            assert(width as int * i.height as int / i.width as int >= 0) by (nonlinear_arith)
                requires width as int * i.height as int >= 0, i.width > 0;
        }
    }
}

proof fn lemma_stacked_height_prefix(bs: Seq<BuiltBlock>, width: u64, i: int)
    requires
        0 <= i <= bs.len(),
    ensures
        0 <= stacked_height(bs.take(i), width) <= stacked_height(bs, width),
    decreases bs.len(),
{
    if bs.len() > 0 {
        lemma_height_nonneg(bs.last(), width);
        assert(bs.drop_last().take(bs.len() - 1) == bs.drop_last());
        lemma_stacked_height_prefix(bs.drop_last(), width, bs.len() - 1);
    }
    if i < bs.len() {
        assert(bs.drop_last().take(i) == bs.take(i));
        lemma_stacked_height_prefix(bs.drop_last(), width, i);
    } else {
        assert(bs.take(i) == bs);
    }
}

/// A point in app units.
#[derive(Debug, Clone, Copy, PartialEq, Eq, Structural)]
pub struct Point {
    pub x: i64,
    pub y: i64,
}

/// Half of `d`, rounded toward zero.
pub open spec fn half(d: int) -> int {
    if d >= 0 {
        d / 2
    } else {
        -((-d) / 2)
    }
}

/// Where each block's top-left corner goes when the document is shown in
/// a view `view_width` wide: the column is centred, the first block sits
/// below the top margin, and each next one below the one before and its
/// padding.
pub fn block_origins(blocks: &Vec<BuiltBlock>, view_width: i64) -> (r: Vec<Point>)
    requires
        -0x1000_0000_0000 <= view_width <= 0x1000_0000_0000,
        stacked_height(blocks@, COLUMN_WIDTH) <= 0x1000_0000_0000,
    ensures
        r@.len() == blocks@.len(),
        forall|i: int|
            0 <= i < r@.len() ==> #[trigger] r@[i] == (Point {
                x: half(view_width - COLUMN_WIDTH) as i64,
                y: (TOP_MARGIN + stacked_height(blocks@.take(i), COLUMN_WIDTH)) as i64,
            }),
{
    let d = view_width - COLUMN_WIDTH as i64;
    let x = if d >= 0 {
        d / 2
    } else {
        -((-d) / 2)
    };
    let mut y: i64 = TOP_MARGIN;
    let mut r: Vec<Point> = Vec::new();
    let mut i: usize = 0;
    assert(blocks@.take(0) == Seq::<BuiltBlock>::empty());
    while i < blocks.len()
        invariant
            x == half(view_width - COLUMN_WIDTH),
            stacked_height(blocks@, COLUMN_WIDTH) <= 0x1000_0000_0000,
            0 <= i <= blocks@.len(),
            r@.len() == i,
            y == TOP_MARGIN + stacked_height(blocks@.take(i as int), COLUMN_WIDTH),
            forall|j: int|
                0 <= j < i ==> #[trigger] r@[j] == (Point {
                    x: half(view_width - COLUMN_WIDTH) as i64,
                    y: (TOP_MARGIN + stacked_height(blocks@.take(j), COLUMN_WIDTH)) as i64,
                }),
        decreases blocks@.len() - i,
    {
        r.push(Point { x, y });
        assert(blocks@.take(i as int + 1).drop_last() == blocks@.take(i as int));
        assert(blocks@.take(i as int + 1).last() == blocks@[i as int]);
        proof {
            lemma_stacked_height_prefix(blocks@, COLUMN_WIDTH, i as int);
            lemma_stacked_height_prefix(blocks@, COLUMN_WIDTH, i as int + 1);
        }
        let h = blocks[i].height(COLUMN_WIDTH);
        y = y + h as i64 + PADDING as i64;
        i = i + 1;
    }
    r
}

/// `v` app units rounded to whole pixels, halves away from zero.
pub open spec fn round_to_px(v: int) -> int {
    if v >= 0 {
        (v + 30) / 60 * 60
    } else {
        -((-v + 30) / 60 * 60)
    }
}

/// The scroll offset after scrolling `offset` by a wheel movement of
/// `delta` (positive moves the content down), in a document
/// `total_height` high seen through a view `view_height` high: not above
/// the top, then not past the bottom, then rounded to whole pixels.
pub open spec fn scrolled(offset: int, delta: int, total_height: int, view_height: int) -> int {
    let y = offset - delta;
    let max_y = total_height - view_height;
    round_to_px(
        if y < 0 {
            0
        } else if y > max_y {
            max_y
        } else {
            y
        },
    )
}

/// Scrolls `offset` by `delta`; see [`scrolled`].
pub fn scroll_offset(offset: i64, delta: i64, total_height: i64, view_height: i64) -> (r: i64)
    requires
        -0x1000_0000_0000 <= offset <= 0x1000_0000_0000,
        -0x1000_0000_0000 <= delta <= 0x1000_0000_0000,
        -0x1000_0000_0000 <= total_height <= 0x1000_0000_0000,
        -0x1000_0000_0000 <= view_height <= 0x1000_0000_0000,
    ensures
        r == scrolled(offset as int, delta as int, total_height as int, view_height as int),
{
    let y = offset - delta;
    let max_y = total_height - view_height;
    let clamped = if y < 0 {
        0
    } else if y > max_y {
        max_y
    } else {
        y
    };
    if clamped >= 0 {
        (clamped + 30) / 60 * 60
    } else {
        -((-clamped + 30) / 60 * 60)
    }
}

} // verus!
