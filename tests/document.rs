use fasternet::document::{block_origins, scroll_offset, total_height, BuiltBlock, Point, COLUMN_WIDTH, PADDING};
use fasternet::image::BuiltImageBlock;
use fasternet::layout::{BuiltTextBlock, Size};
use fasternet::style::ResourceKey;

fn text_block(height: u64) -> BuiltBlock {
    BuiltBlock::Text(BuiltTextBlock {
        glyphs: vec![],
        chunks: vec![],
        size: Size { width: COLUMN_WIDTH, height },
        bg_color: None,
    })
}

fn image_block(width: u32, height: u32) -> BuiltBlock {
    BuiltBlock::Image(BuiltImageBlock { key: ResourceKey { namespace: 0, id: 0 }, width, height })
}

#[test]
fn total_height_sums_blocks_and_padding() {
    let blocks = vec![text_block(1000), image_block(680, 340), text_block(0)];
    assert_eq!(total_height(&blocks, COLUMN_WIDTH), Some(1000 + 20400 + 3 * PADDING));
    assert_eq!(total_height(&vec![], COLUMN_WIDTH), Some(0));
    assert_eq!(total_height(&vec![text_block(u64::MAX - 100)], COLUMN_WIDTH), None);
}

#[test]
fn blocks_stack_below_the_margin() {
    let blocks = vec![text_block(1000), text_block(500)];
    let origins = block_origins(&blocks, 60000);
    assert_eq!(origins, vec![Point { x: 9600, y: 600 }, Point { x: 9600, y: 600 + 1000 + 1200 }]);
    let narrow = block_origins(&blocks, 40000);
    assert_eq!(narrow[0].x, -400);
}

#[test]
fn scrolling_clamps_and_rounds() {
    // Scrolling down by 100 app units, well inside the document.
    assert_eq!(scroll_offset(600, -100, 100000, 30000), 720);
    // Not above the top.
    assert_eq!(scroll_offset(60, 1000, 100000, 30000), 0);
    // Not past the bottom.
    assert_eq!(scroll_offset(69000, -5000, 100000, 30000), 70020);
    // A document shorter than the view scrolls to its (negative) bottom.
    assert_eq!(scroll_offset(0, -10, 1000, 30000), -28980);
}
