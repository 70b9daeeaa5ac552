use fasternet::markdown::{add_chunk, blocks_from_events, end_block, parse_markdown, tag_style, MdEvent};
use fasternet::{BlockBackground, Chunk, TextBlock, TextKind};

fn chunk(start: u16, end: u16, kind: TextKind) -> Chunk {
    Chunk { start, end, kind }
}

#[test]
fn heading_and_paragraph_become_blocks() {
    let blocks = parse_markdown("# Title\n\nSome *em* and **bold** text");
    assert_eq!(blocks.len(), 2);
    assert_eq!(blocks[0].content, "Title");
    assert_eq!(blocks[0].chunks, vec![chunk(0, 5, TextKind::Header1)]);
    assert_eq!(blocks[1].content, "Some em and bold text");
    assert_eq!(
        blocks[1].chunks,
        vec![
            chunk(0, 5, TextKind::Paragraph),
            chunk(5, 7, TextKind::ParagraphItalic),
            chunk(7, 12, TextKind::Paragraph),
            chunk(12, 16, TextKind::ParagraphBold),
            chunk(16, 21, TextKind::Paragraph),
        ]
    );
    assert_eq!(blocks[1].bg, BlockBackground::NoBackground);
}

#[test]
fn second_level_heading_and_link() {
    let blocks = parse_markdown("## Sub\n\nsee [here](http://x)");
    assert_eq!(blocks[0].chunks, vec![chunk(0, 3, TextKind::Header2)]);
    assert_eq!(blocks[1].content, "see here");
    // Closing the paragraph closes an empty chunk after the link.
    assert_eq!(
        blocks[1].chunks,
        vec![chunk(0, 4, TextKind::Paragraph), chunk(4, 8, TextKind::Link), chunk(8, 8, TextKind::Paragraph)]
    );
}

#[test]
fn code_block_has_code_background() {
    let blocks = parse_markdown("```\nlet x = 1;\n```\n");
    assert_eq!(blocks.len(), 1);
    assert_eq!(blocks[0].content, "let x = 1;\n");
    assert_eq!(blocks[0].bg, BlockBackground::Code);
    assert_eq!(blocks[0].chunks, vec![chunk(0, 11, TextKind::Paragraph)]);
}

#[test]
fn list_items_get_dashes_and_newlines() {
    let blocks = parse_markdown("- a\n- b\n");
    assert_eq!(blocks.len(), 1);
    assert_eq!(blocks[0].content, "- a\n- b\n");
    assert_eq!(blocks[0].chunks, vec![chunk(0, 8, TextKind::Paragraph)]);
}

#[test]
fn inline_code_is_its_own_chunk() {
    let blocks = parse_markdown("a `b` c");
    assert_eq!(blocks[0].content, "a b c");
    assert_eq!(
        blocks[0].chunks,
        vec![
            chunk(0, 2, TextKind::Paragraph),
            chunk(2, 3, TextKind::ParagraphCode),
            chunk(3, 5, TextKind::Paragraph)
        ]
    );
}

#[test]
fn offsets_are_bytes() {
    let blocks = parse_markdown("é *x*");
    assert_eq!(
        blocks[0].chunks,
        vec![chunk(0, 3, TextKind::Paragraph), chunk(3, 4, TextKind::ParagraphItalic), chunk(4, 4, TextKind::Paragraph)]
    );
    assert!(blocks[0].is_well_formed());
}

#[test]
fn events_fold_into_blocks() {
    let events = vec![
        MdEvent::Start("Paragraph".to_string()),
        MdEvent::Text("hi ".to_string()),
        MdEvent::Start("Strong".to_string()),
        MdEvent::Text("there".to_string()),
        MdEvent::End("Strong".to_string()),
        MdEvent::Other,
        MdEvent::End("Paragraph".to_string()),
    ];
    let blocks = blocks_from_events(&events);
    assert_eq!(
        blocks,
        vec![TextBlock {
            content: "hi there".to_string(),
            chunks: vec![
                chunk(0, 3, TextKind::Paragraph),
                chunk(3, 8, TextKind::ParagraphBold),
                chunk(8, 8, TextKind::Paragraph),
            ],
            bg: BlockBackground::NoBackground,
        }]
    );
}

#[test]
fn no_events_no_blocks() {
    assert!(blocks_from_events(&vec![]).is_empty());
    assert!(parse_markdown("").is_empty());
}

#[test]
fn tags_map_to_styles() {
    assert_eq!(tag_style("Paragraph"), Some(TextKind::Paragraph));
    assert_eq!(tag_style("CodeBlock(Indented)"), Some(TextKind::Paragraph));
    assert_eq!(tag_style("List(Some(1))"), Some(TextKind::Paragraph));
    assert_eq!(tag_style("Heading(H1, None, [])"), Some(TextKind::Header1));
    assert_eq!(tag_style("Heading(H3, None, [])"), Some(TextKind::Header2));
    assert_eq!(tag_style("Link(Inline, Borrowed(\"u\"), Borrowed(\"\"))"), Some(TextKind::Link));
    assert_eq!(tag_style("Strong"), Some(TextKind::ParagraphBold));
    assert_eq!(tag_style("Emphasis"), Some(TextKind::ParagraphItalic));
    assert_eq!(tag_style("Item"), None);
    assert_eq!(tag_style("BlockQuote"), None);
    assert_eq!(tag_style("Paragraphs"), None);
}

#[test]
fn add_chunk_closes_the_running_chunk() {
    let mut chunks = Vec::new();
    let mut stack = vec![TextKind::Paragraph, TextKind::Link];
    let mut last = 2usize;
    add_chunk(&mut chunks, &mut stack, &mut last, 7);
    assert_eq!(chunks, vec![chunk(2, 7, TextKind::Link)]);
    assert_eq!(last, 7);
    let mut empty = Vec::new();
    add_chunk(&mut chunks, &mut empty, &mut last, 9);
    assert_eq!(chunks.len(), 1);
    assert_eq!(last, 7);
}

#[test]
fn end_block_moves_text_and_chunks() {
    let mut blocks = Vec::new();
    let mut text = "abc".to_string();
    let mut chunks = vec![chunk(0, 3, TextKind::Paragraph)];
    end_block(&mut blocks, &mut text, &mut chunks, BlockBackground::Code);
    assert!(text.is_empty());
    assert!(chunks.is_empty());
    assert_eq!(blocks[0].content, "abc");
    assert_eq!(blocks[0].chunks, vec![chunk(0, 3, TextKind::Paragraph)]);
    assert_eq!(blocks[0].bg, BlockBackground::Code);
}
