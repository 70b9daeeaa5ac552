use fasternet::document::Point;
use fasternet::draw::{DrawItem, GlyphInstance, Rect};
use fasternet::layout::{BuiltTextBlock, GlyphRange};
use fasternet::style::{rgb, BuiltTheme, ResourceKey, Theme};
use fasternet::{BlockBackground, Chunk, TextBlock, TextKind};

#[test]
fn draw_places_glyphs_and_backgrounds() {
    let theme = Theme::new();
    let fonts: Vec<ResourceKey> = (0..3).map(|i| ResourceKey { namespace: 1, id: i }).collect();
    let instances: Vec<ResourceKey> = (0..7).map(|i| ResourceKey { namespace: 2, id: i }).collect();
    let built_theme = BuiltTheme::new(&theme, &fonts, &instances, &vec![10; 7]);
    let block = TextBlock {
        content: "ab\ncd".to_string(),
        chunks: vec![Chunk { start: 0, end: 5, kind: TextKind::ParagraphCode }],
        bg: BlockBackground::Code,
    };
    let runs = vec![vec![Some(1), Some(2), Some(3), Some(4), Some(5)]];
    let built = BuiltTextBlock::new(&block, &built_theme, &runs, 1000);
    let (items, glyphs) = built.draw(Point { x: 100, y: 200 });
    let code = rgb(238, 232, 213);
    let text = rgb(101, 123, 131);
    let font = ResourceKey { namespace: 2, id: 5 };
    assert_eq!(
        items,
        vec![
            DrawItem::Rect { rect: Rect { x: -80, y: 20, width: 1360, height: 2532 }, color: code, radius: 300 },
            DrawItem::Rect { rect: Rect { x: 10, y: 296, width: 210, height: 1152 }, color: code, radius: 300 },
            DrawItem::Text {
                rect: Rect { x: 100, y: 200, width: 30, height: 1152 },
                glyphs: GlyphRange { start: 0, end: 3 },
                font_instance: font,
                color: text,
            },
            DrawItem::Rect { rect: Rect { x: 10, y: 1256, width: 200, height: 1152 }, color: code, radius: 300 },
            DrawItem::Text {
                rect: Rect { x: 100, y: 1160, width: 20, height: 1152 },
                glyphs: GlyphRange { start: 3, end: 5 },
                font_instance: font,
                color: text,
            },
        ]
    );
    assert_eq!(
        glyphs,
        vec![
            GlyphInstance { index: 1, x: 100, y: 1160 },
            GlyphInstance { index: 2, x: 110, y: 1160 },
            GlyphInstance { index: 3, x: 120, y: 1160 },
            GlyphInstance { index: 4, x: 100, y: 2120 },
            GlyphInstance { index: 5, x: 110, y: 2120 },
        ]
    );
}

#[test]
fn draw_continues_a_line_across_styles() {
    let theme = Theme::new();
    let fonts: Vec<ResourceKey> = (0..3).map(|i| ResourceKey { namespace: 1, id: i }).collect();
    let instances: Vec<ResourceKey> = (0..7).map(|i| ResourceKey { namespace: 2, id: i }).collect();
    let built_theme = BuiltTheme::new(&theme, &fonts, &instances, &vec![10, 10, 10, 12, 10, 10, 10]);
    let block = TextBlock {
        content: "a b".to_string(),
        chunks: vec![
            Chunk { start: 0, end: 2, kind: TextKind::Paragraph },
            Chunk { start: 2, end: 3, kind: TextKind::ParagraphBold },
        ],
        bg: BlockBackground::NoBackground,
    };
    let runs = vec![vec![Some(7), Some(8)], vec![Some(9)]];
    let built = BuiltTextBlock::new(&block, &built_theme, &runs, 1000);
    let (items, glyphs) = built.draw(Point { x: 0, y: 0 });
    assert_eq!(items.len(), 2);
    assert_eq!(glyphs[2], GlyphInstance { index: 9, x: 20, y: 960 });
}
