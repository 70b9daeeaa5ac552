use fasternet::layout::{tokenize, BuiltChunk, BuiltTextBlock, Token};
use fasternet::style::{BuiltTheme, ResourceKey, Theme};
use fasternet::{BlockBackground, Chunk, TextBlock, TextKind};

const LINE: u64 = 960;
const DESCENDER: u64 = 252;

fn theme(char_width: u32) -> BuiltTheme {
    let theme = Theme::new();
    let fonts: Vec<ResourceKey> = (0..3).map(|i| ResourceKey { namespace: 1, id: i }).collect();
    let instances: Vec<ResourceKey> = (0..7).map(|i| ResourceKey { namespace: 2, id: i }).collect();
    BuiltTheme::new(&theme, &fonts, &instances, &vec![char_width; 7])
}

fn block(content: &str, chunks: &[(u16, u16, TextKind)]) -> TextBlock {
    TextBlock {
        content: content.to_string(),
        chunks: chunks.iter().map(|&(start, end, kind)| Chunk { start, end, kind }).collect(),
        bg: BlockBackground::NoBackground,
    }
}

fn glyph_runs(b: &TextBlock) -> Vec<Vec<Option<u32>>> {
    b.chunks
        .iter()
        .map(|c| {
            b.content[c.start as usize..c.end as usize]
                .chars()
                .map(|ch| if ch == '?' { None } else { Some(ch as u32) })
                .collect()
        })
        .collect()
}

fn layout(b: &TextBlock, char_width: u32, width: u32) -> BuiltTextBlock {
    assert!(b.is_well_formed());
    BuiltTextBlock::new(b, &theme(char_width), &glyph_runs(b), width)
}

fn ranges(chunks: &[BuiltChunk]) -> Vec<(usize, usize, bool)> {
    chunks.iter().map(|c| (c.range.start, c.range.end, c.newline)).collect()
}

#[test]
fn tokenize_words_spaces_newlines() {
    assert_eq!(
        tokenize("ab  c\nd"),
        vec![
            Token::Word(2),
            Token::Space,
            Token::Space,
            Token::Word(1),
            Token::Newline,
            Token::Word(1),
            Token::End
        ]
    );
}

#[test]
fn tokenize_empty_is_end() {
    assert_eq!(tokenize(""), vec![Token::End]);
}

#[test]
fn tokenize_counts_characters() {
    assert_eq!(tokenize("héllo"), vec![Token::Word(5), Token::End]);
}

#[test]
fn quick_brown_fox_wraps_word_by_word() {
    let b = block("the quick brown fox", &[(0, 19, TextKind::Paragraph)]);
    let built = layout(&b, 10, 35);
    assert_eq!(
        ranges(&built.chunks),
        vec![(0, 4, true), (4, 10, true), (10, 16, true), (16, 19, true)]
    );
    let text: Vec<String> = built
        .chunks
        .iter()
        .map(|c| b.content[c.range.start..c.range.end].trim_end().to_string())
        .collect();
    assert_eq!(text, vec!["the", "quick", "brown", "fox"]);
    assert_eq!(built.size.height, 4 * LINE + DESCENDER);
    assert_eq!(built.size.width, 35);
}

#[test]
fn explicit_newline_breaks_line() {
    let b = block("ab\ncd", &[(0, 5, TextKind::Paragraph)]);
    let built = layout(&b, 10, 1000);
    assert_eq!(ranges(&built.chunks), vec![(0, 3, true), (3, 5, true)]);
    assert_eq!(built.size.height, 2 * LINE + DESCENDER);
}

#[test]
fn overlong_word_stands_alone() {
    let word = "averylongwordthatexceedsthewidth";
    let b = block(word, &[(0, word.len() as u16, TextKind::Paragraph)]);
    let built = layout(&b, 10, 35);
    assert_eq!(ranges(&built.chunks), vec![(0, 32, true)]);
}

#[test]
fn overlong_word_between_short_words() {
    let content = "ab averylongwordthatexceedsthewidth cd";
    let b = block(content, &[(0, content.len() as u16, TextKind::Paragraph)]);
    let built = layout(&b, 10, 35);
    assert_eq!(ranges(&built.chunks), vec![(0, 3, true), (3, 36, true), (36, 38, true)]);
    // Up to its last word, each line fits the width unless it is one word.
    for c in &built.chunks {
        let line = content[c.range.start..c.range.end].trim_end();
        let used = line.chars().count() as u64 * c.char_width as u64;
        assert!(used <= 35 || !line.contains(' '));
    }
}

#[test]
fn word_exactly_filling_the_line_fits() {
    let b = block("abc de", &[(0, 6, TextKind::Paragraph)]);
    let built = layout(&b, 10, 60);
    assert_eq!(ranges(&built.chunks), vec![(0, 6, true)]);
    let built = layout(&b, 10, 59);
    assert_eq!(ranges(&built.chunks), vec![(0, 4, true), (4, 6, true)]);
}

#[test]
fn styles_share_a_line() {
    let b = block(
        "plain bold tail",
        &[(0, 6, TextKind::Paragraph), (6, 10, TextKind::ParagraphBold), (10, 15, TextKind::Paragraph)],
    );
    let built = layout(&b, 10, 1000);
    assert_eq!(ranges(&built.chunks), vec![(0, 6, true), (6, 10, false), (10, 15, false)]);
    assert_eq!(built.chunks[1].font_instance, ResourceKey { namespace: 2, id: 3 });
    assert_eq!(built.size.height, LINE + DESCENDER);
}

#[test]
fn empty_block_has_no_chunks_and_no_height() {
    let b = block("", &[]);
    let built = layout(&b, 10, 100);
    assert!(built.chunks.is_empty());
    assert!(built.glyphs.is_empty());
    assert_eq!(built.size.height, 0);
}

#[test]
fn empty_chunk_gives_no_fragment() {
    let b = block("ab", &[(0, 0, TextKind::Header1), (0, 2, TextKind::Paragraph)]);
    let built = layout(&b, 10, 100);
    assert_eq!(ranges(&built.chunks), vec![(0, 2, false)]);
    // The first chunk's descender is added, no line height is.
    assert_eq!(built.size.height, 1500 * 3 / 10);
}

#[test]
fn building_twice_gives_the_same_layout() {
    let b = block(
        "one two three four five six",
        &[(0, 8, TextKind::Header2), (8, 27, TextKind::Link)],
    );
    let a = layout(&b, 7, 50);
    let c = layout(&b, 7, 50);
    assert_eq!(a.chunks, c.chunks);
    assert_eq!(a.glyphs, c.glyphs);
    assert_eq!(a.size, c.size);
}

#[test]
fn fragments_tile_the_glyph_buffer() {
    let b = block(
        "alpha beta\ngamma delta epsilon zeta",
        &[(0, 11, TextKind::Paragraph), (11, 22, TextKind::ParagraphItalic), (22, 35, TextKind::Paragraph)],
    );
    let built = layout(&b, 10, 80);
    assert_eq!(built.glyphs.len(), 35);
    assert_eq!(built.chunks[0].range.start, 0);
    for w in built.chunks.windows(2) {
        assert_eq!(w[0].range.end, w[1].range.start);
    }
    for c in &built.chunks {
        assert!(c.range.start < c.range.end);
    }
    assert_eq!(built.chunks.last().unwrap().range.end, 35);
}

#[test]
fn height_counts_each_line_start_once() {
    let b = block(
        "aa bb cc dd ee ff",
        &[(0, 6, TextKind::Header1), (6, 17, TextKind::Paragraph)],
    );
    let built = layout(&b, 10, 50);
    let lines: u64 = built.chunks.iter().filter(|c| c.newline).map(|c| c.height as u64).sum();
    assert_eq!(built.size.height, lines + 1500 * 3 / 10);
    assert!(built.chunks.iter().filter(|c| c.newline).count() >= 2);
}

#[test]
fn missing_glyphs_become_the_sentinel() {
    let b = block("a?b", &[(0, 3, TextKind::Paragraph)]);
    let built = layout(&b, 10, 100);
    assert_eq!(built.glyphs, vec!['a' as u32, u32::MAX, 'b' as u32]);
}

#[test]
fn code_block_gets_the_code_background() {
    let mut b = block("x", &[(0, 1, TextKind::ParagraphCode)]);
    b.bg = BlockBackground::Code;
    let built = layout(&b, 10, 100);
    assert_eq!(built.bg_color, Some(fasternet::style::rgb(238, 232, 213)));
    let plain = layout(&block("x", &[(0, 1, TextKind::Paragraph)]), 10, 100);
    assert_eq!(plain.bg_color, None);
}

#[test]
fn ill_formed_blocks_are_detected() {
    assert!(!block("ab", &[(0, 3, TextKind::Paragraph)]).is_well_formed());
    assert!(!block("ab", &[(1, 2, TextKind::Paragraph), (0, 1, TextKind::Paragraph)]).is_well_formed());
    assert!(!block("é", &[(0, 1, TextKind::Paragraph)]).is_well_formed());
    assert!(block("é", &[(0, 2, TextKind::Paragraph)]).is_well_formed());
}
