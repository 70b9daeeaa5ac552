//! Tokenizer and greedy line builder.
use vstd::prelude::*;
use core::ops::Range;
use vstd::utf8::*;
use vstd::string::StringSliceAdditionalSpecFns;
use crate::{BlockBackground, Chunk, TextBlock};
use crate::style::{BuiltChunkStyle, BuiltTheme, Color, ResourceKey};

verus! {

/// A piece of a chunk's text, as the line builder sees it.
#[derive(Debug, PartialEq, Eq, Clone, Copy)]
pub enum Token {
    /// A run of characters that are neither space nor newline; the number
    /// of characters.
    Word(usize),
    Space,
    Newline,
    End,
}

/// The word token for a pending run of `n` characters, if there is one.
pub open spec fn pending_word(n: nat) -> Seq<Token> {
    if n > 0 {
        seq![Token::Word(n as usize)]
    } else {
        seq![]
    }
}

/// Tokens of `s`, given a word of `pending` characters read just before it.
pub open spec fn tokens_from(s: Seq<char>, pending: nat) -> Seq<Token>
    decreases s.len(),
{
    if s.len() == 0 {
        pending_word(pending).push(Token::End)
    } else if s[0] == ' ' {
        pending_word(pending).push(Token::Space) + tokens_from(s.drop_first(), 0)
    } else if s[0] == '\n' {
        pending_word(pending).push(Token::Newline) + tokens_from(s.drop_first(), 0)
    } else {
        tokens_from(s.drop_first(), pending + 1)
    }
}

/// The token sequence of a string: words, spaces and newlines in order,
/// then one `End`.
pub open spec fn tokens_of(s: Seq<char>) -> Seq<Token> {
    tokens_from(s, 0)
}

/// Splits `text` into tokens.
pub fn tokenize(text: &str) -> (tokens: Vec<Token>)
    requires
        text@.len() <= usize::MAX,
    ensures
        tokens@ == tokens_of(text@),
{
    let mut tokens: Vec<Token> = Vec::new();
    let mut word_len: usize = 0;
    let ghost s = text@;
    assert(s.skip(0) == s);
    for c in it: text.chars()
        invariant
            it.seq() == s,
            s.len() <= usize::MAX,
            word_len <= it.index(),
            tokens@ + tokens_from(s.skip(it.index() as int), word_len as nat) == tokens_of(s),
    {
        let ghost i = it.index() as int;
        assert(s.skip(i).drop_first() == s.skip(i + 1));
        if c == ' ' {
            if word_len > 0 {
                tokens.push(Token::Word(word_len));
            }
            tokens.push(Token::Space);
            word_len = 0;
        } else if c == '\n' {
            if word_len > 0 {
                tokens.push(Token::Word(word_len));
            }
            tokens.push(Token::Newline);
            word_len = 0;
        } else {
            word_len = word_len + 1;
        }
        assert(tokens@ + tokens_from(s.skip(i + 1), word_len as nat) == tokens_of(s));
    }
    if word_len > 0 {
        tokens.push(Token::Word(word_len));
    }
    tokens.push(Token::End);
    tokens
}

/// Number of characters that a token stands for.
pub open spec fn token_width(t: Token) -> int {
    match t {
        Token::Word(n) => n as int,
        Token::Space => 1,
        Token::Newline => 1,
        Token::End => 0,
    }
}

/// Total number of characters that a token sequence stands for.
pub open spec fn tokens_width(toks: Seq<Token>) -> int
    decreases toks.len(),
{
    if toks.len() == 0 {
        0
    } else {
        tokens_width(toks.drop_last()) + token_width(toks.last())
    }
}

/// A half-open range `start..end` of positions in a glyph buffer.
#[derive(Debug, Clone, Copy, PartialEq, Eq, Structural)]
pub struct GlyphRange {
    pub start: usize,
    pub end: usize,
}

/// A line-broken fragment of a chunk: a range of the block's glyph buffer
/// drawn in one style, and whether it begins a new visual line.
#[derive(Debug, Clone, Copy, PartialEq, Eq)]
pub struct BuiltChunk {
    pub range: GlyphRange,
    pub char_width: u32,
    pub height: u32,
    pub font_instance: ResourceKey,
    pub color: Color,
    pub newline: bool,
    pub bg_color: Option<Color>,
}

/// The fragment `start..end` in `style`.
pub open spec fn built_chunk(style: BuiltChunkStyle, start: int, end: int, newline: bool) -> BuiltChunk {
    BuiltChunk {
        range: GlyphRange { start: start as usize, end: end as usize },
        char_width: style.char_width,
        height: style.style.line_height,
        font_instance: style.font_instance,
        color: style.style.color,
        newline,
        bg_color: style.style.bg_color,
    }
}

/// The line builder's state: fragments so far, accumulated height,
/// horizontal cursor, pending range `start..end`, and whether the next
/// fragment begins a line.
pub struct LineState {
    pub chunks: Seq<BuiltChunk>,
    pub height: int,
    pub x: int,
    pub start: int,
    pub end: int,
    pub newline: bool,
}

/// Emits the pending range, if it is not empty.
pub open spec fn flush(st: LineState, style: BuiltChunkStyle) -> LineState {
    if st.start != st.end {
        LineState {
            chunks: st.chunks.push(built_chunk(style, st.start, st.end, st.newline)),
            height: if st.newline {
                st.height + style.style.line_height
            } else {
                st.height
            },
            start: st.end,
            ..st
        }
    } else {
        st
    }
}

/// Whether a word of `len` characters fits after cursor `x`: the space
/// left is not negative and holds `len` whole characters.
pub open spec fn word_fits(x: int, len: int, char_width: int, width: int) -> bool {
    let space_left = width - x;
    space_left >= 0 && if char_width == 0 {
        space_left > 0
    } else {
        len <= space_left / char_width
    }
}

/// Emits the pending range and moves the cursor to the start of a new line.
pub open spec fn break_line(st: LineState, style: BuiltChunkStyle) -> LineState {
    LineState { x: 0, newline: true, ..flush(st, style) }
}

/// One token of greedy, word-atomic line breaking.
pub open spec fn line_step(st: LineState, tok: Token, style: BuiltChunkStyle, width: int) -> LineState {
    let cw = style.char_width as int;
    match tok {
        Token::Word(len) => {
            let st1 = if word_fits(st.x, len as int, cw, width) {
                st
            } else {
                break_line(st, style)
            };
            LineState { end: st1.end + len, x: st1.x + len * cw, ..st1 }
        },
        Token::Space => LineState { end: st.end + 1, x: st.x + cw, ..st },
        Token::Newline => break_line(LineState { end: st.end + 1, ..st }, style),
        Token::End => flush(st, style),
    }
}

/// The line builder run over a token sequence.
pub open spec fn line_run(st: LineState, toks: Seq<Token>, style: BuiltChunkStyle, width: int) -> LineState
    decreases toks.len(),
{
    if toks.len() == 0 {
        st
    } else {
        line_run(line_step(st, toks[0], style, width), toks.drop_first(), style, width)
    }
}

/// Emits the pending range `cur` as a fragment, unless it is empty.
fn flush_line(
    chunks: &mut Vec<BuiltChunk>,
    total_height: &mut u64,
    cur: &mut GlyphRange,
    newline: bool,
    style: &BuiltChunkStyle,
)
    requires
        old(cur).start != old(cur).end ==> *old(total_height) + style.style.line_height <= u64::MAX,
    ensures
        ({
            let st = LineState {
                chunks: old(chunks)@,
                height: *old(total_height) as int,
                x: 0,
                start: old(cur).start as int,
                end: old(cur).end as int,
                newline,
            };
            let f = flush(st, *style);
            &&& final(chunks)@ == f.chunks
            &&& *final(total_height) == f.height
            &&& final(cur).start == f.start
            &&& final(cur).end == old(cur).end
        }),
{
    if cur.start != cur.end {
        let height = style.style.line_height;
        chunks.push(
            BuiltChunk {
                char_width: style.char_width,
                font_instance: style.font_instance,
                color: style.style.color,
                bg_color: style.style.bg_color,
                range: GlyphRange { start: cur.start, end: cur.end },
                newline,
                height,
            },
        );
        if newline {
            *total_height = *total_height + height as u64;
        }
        cur.start = cur.end;
    }
}

proof fn lemma_tokens_width_prefix(toks: Seq<Token>, i: int)
    requires
        0 <= i <= toks.len(),
    ensures
        0 <= tokens_width(toks.take(i)) <= tokens_width(toks),
    decreases toks.len(),
{
    if i < toks.len() {
        assert(toks.drop_last().take(i) == toks.take(i));
        lemma_tokens_width_prefix(toks.drop_last(), i);
    } else {
        assert(toks.take(i) == toks);
    }
    lemma_tokens_width_nonneg(toks);
}

proof fn lemma_tokens_width_nonneg(toks: Seq<Token>)
    ensures
        tokens_width(toks) >= 0,
    decreases toks.len(),
{
    if toks.len() > 0 {
        lemma_tokens_width_nonneg(toks.drop_last());
    }
}

proof fn lemma_tokens_width_single(t: Token)
    ensures
        tokens_width(seq![t]) == token_width(t),
{
    assert(seq![t].drop_last() == Seq::<Token>::empty());
    assert(tokens_width(Seq::<Token>::empty()) == 0);
}

proof fn lemma_pending_word_width(n: nat, t: Token)
    requires
        n <= usize::MAX,
    ensures
        tokens_width(pending_word(n).push(t)) == n + tokens_width(seq![t]),
{
    lemma_tokens_width_single(t);
    assert(pending_word(n).push(t).drop_last() == pending_word(n));
    if n > 0 {
        lemma_tokens_width_single(Token::Word(n as usize));
    } else {
        assert(tokens_width(Seq::<Token>::empty()) == 0);
    }
}

proof fn lemma_tokens_width_concat(a: Seq<Token>, b: Seq<Token>)
    ensures
        tokens_width(a + b) == tokens_width(a) + tokens_width(b),
    decreases b.len(),
{
    if b.len() == 0 {
        assert(a + b == a);
    } else {
        assert((a + b).drop_last() == a + b.drop_last());
        lemma_tokens_width_concat(a, b.drop_last());
    }
}

/// The tokens of a string stand for all of its characters.
proof fn lemma_tokens_from_width(s: Seq<char>, pending: nat)
    requires
        s.len() + pending <= usize::MAX,
    ensures
        tokens_width(tokens_from(s, pending)) == s.len() + pending,
        tokens_from(s, pending).len() > 0,
        tokens_from(s, pending).last() == Token::End,
    decreases s.len(),
{
    if s.len() == 0 {
        lemma_pending_word_width(pending, Token::End);
        lemma_tokens_width_single(Token::End);
    } else if s[0] == ' ' || s[0] == '\n' {
        let t = if s[0] == ' ' { Token::Space } else { Token::Newline };
        lemma_tokens_from_width(s.drop_first(), 0);
        lemma_pending_word_width(pending, t);
        lemma_tokens_width_single(t);
        lemma_tokens_width_concat(pending_word(pending).push(t), tokens_from(s.drop_first(), 0));
    } else {
        lemma_tokens_from_width(s.drop_first(), pending + 1);
    }
}

/// Lays out the tokens of one chunk's text, appending fragments to `chunks`.
/// `range.start` is where the chunk's glyphs begin in the block's glyph
/// buffer; the cursor `x` and the height carry over from the chunk before.
pub fn build_chunks(
    chunks: &mut Vec<BuiltChunk>,
    total_height: &mut u64,
    x: &mut u64,
    range: Range<usize>,
    chunk_str: &str,
    style: &BuiltChunkStyle,
    first_chunk: bool,
    width: u32,
)
    requires
        range.start + chunk_str@.len() == range.end,
        *old(x) + chunk_str@.len() * style.char_width <= u64::MAX,
        *old(total_height) + chunk_str@.len() * style.style.line_height <= u64::MAX,
    ensures
        ({
            let st = LineState {
                chunks: old(chunks)@,
                height: *old(total_height) as int,
                x: *old(x) as int,
                start: range.start as int,
                end: range.start as int,
                newline: first_chunk,
            };
            let f = line_run(st, tokens_of(chunk_str@), *style, width as int);
            &&& final(chunks)@ == f.chunks
            &&& *final(total_height) == f.height
            &&& *final(x) == f.x
        }),
        *final(x) <= *old(x) + chunk_str@.len() * style.char_width,
        old(chunks)@.len() <= final(chunks)@.len() <= old(chunks)@.len() + chunk_str@.len(),
        *final(total_height) <= *old(total_height) + (final(chunks)@.len() - old(chunks)@.len())
            * style.style.line_height,
{
    let ghost n = chunk_str@.len();
    let ghost x0 = *x as int;
    let ghost h0 = *total_height as int;
    let ghost c0 = chunks@.len() as int;
    let ghost cw = style.char_width as int;
    let ghost lh = style.style.line_height as int;
    let ghost init = LineState {
        chunks: chunks@,
        height: h0,
        x: x0,
        start: range.start as int,
        end: range.start as int,
        newline: first_chunk,
    };
    let tokens = tokenize(chunk_str);
    let ghost toks = tokens@;
    proof {
        lemma_tokens_from_width(chunk_str@, 0);
        assert(toks.skip(0) == toks);
        assert(toks.take(0) == Seq::<Token>::empty());
    }
    let mut cur = GlyphRange { start: range.start, end: range.start };
    let mut newline = first_chunk;
    let mut i: usize = 0;
    while i < tokens.len()
        invariant
            toks == tokens@,
            tokens_width(toks) == n,
            0 <= i <= toks.len(),
            range.start + n == range.end,
            x0 >= 0,
            x0 + n * cw <= u64::MAX,
            h0 + n * lh <= u64::MAX,
            cw == style.char_width,
            lh == style.style.line_height,
            range.start <= cur.start <= cur.end,
            cur.end == range.start + tokens_width(toks.take(i as int)),
            *x <= x0 + tokens_width(toks.take(i as int)) * cw,
            chunks@.len() - c0 <= cur.start - range.start,
            *total_height <= h0 + (chunks@.len() - c0) * lh,
            chunks@.len() >= c0,
            line_run(init, toks, *style, width as int) == line_run(
                LineState {
                    chunks: chunks@,
                    height: *total_height as int,
                    x: *x as int,
                    start: cur.start as int,
                    end: cur.end as int,
                    newline,
                },
                toks.skip(i as int),
                *style,
                width as int,
            ),
        decreases toks.len() - i,
    {
        let ghost st = LineState {
            chunks: chunks@,
            height: *total_height as int,
            x: *x as int,
            start: cur.start as int,
            end: cur.end as int,
            newline,
        };
        let ghost tw = tokens_width(toks.take(i as int));
        let ghost tw1 = tokens_width(toks.take(i as int + 1));
        proof {
            assert(toks.skip(i as int).drop_first() == toks.skip(i as int + 1));
            assert(toks.take(i as int + 1).drop_last() == toks.take(i as int));
            lemma_tokens_width_prefix(toks, i as int + 1);
            assert(tw <= n);
            assert(tw * cw <= n * cw) by (nonlinear_arith)
                requires tw <= n, cw >= 0;
            assert(tw * cw >= 0) by (nonlinear_arith)
                requires tw >= 0, cw >= 0;
            assert(toks.take(i as int + 1).last() == toks[i as int]);
            assert(tokens_width(toks.take(i as int + 1)) == tw + token_width(toks[i as int]));
            assert(tw1 * cw >= 0) by (nonlinear_arith)
                requires tw1 >= 0, cw >= 0;
            assert((chunks@.len() - c0) * lh <= n * lh) by (nonlinear_arith)
                requires chunks@.len() - c0 <= n, lh >= 0;
            assert((chunks@.len() - c0 + 1) * lh == (chunks@.len() - c0) * lh + lh) by (nonlinear_arith);
            if chunks@.len() - c0 + 1 <= n {
                assert((chunks@.len() - c0 + 1) * lh <= n * lh) by (nonlinear_arith)
                    requires chunks@.len() - c0 + 1 <= n, lh >= 0;
            }
        }
        match tokens[i] {
            Token::Word(word_len) => {
                let space_ok = *x <= width as u64;
                let fits = if !space_ok {
                    false
                } else if style.char_width == 0 {
                    *x < width as u64
                } else {
                    (word_len as u64) <= (width as u64 - *x) / (style.char_width as u64)
                };
                assert(fits == word_fits(*x as int, word_len as int, cw, width as int));
                if !fits {
                    flush_line(chunks, total_height, &mut cur, newline, style);
                    *x = 0;
                    newline = true;
                }
                proof {
                    assert((tw + word_len) * cw <= n * cw) by (nonlinear_arith)
                        requires tw + word_len <= n, cw >= 0;
                    assert(word_len * cw <= (tw + word_len) * cw) by (nonlinear_arith)
                        requires tw >= 0, cw >= 0;
                    assert((tw + word_len) * cw == tw * cw + word_len * cw) by (nonlinear_arith);
                    assert(word_len * cw >= 0) by (nonlinear_arith)
                        requires word_len >= 0, cw >= 0;
                }
                cur.end = cur.end + word_len;
                *x = *x + (word_len as u64) * (style.char_width as u64);
            },
            Token::Space => {
                proof {
                    assert((tw + 1) * cw <= n * cw) by (nonlinear_arith)
                        requires tw + 1 <= n, cw >= 0;
                    assert((tw + 1) * cw == tw * cw + cw) by (nonlinear_arith);
                }
                cur.end = cur.end + 1;
                *x = *x + style.char_width as u64;
            },
            Token::Newline => {
                proof {
                    assert((tw + 1) * cw <= n * cw) by (nonlinear_arith)
                        requires tw + 1 <= n, cw >= 0;
                }
                cur.end = cur.end + 1;
                flush_line(chunks, total_height, &mut cur, newline, style);
                *x = 0;
                newline = true;

            },
            Token::End => {
                flush_line(chunks, total_height, &mut cur, newline, style);

            },
        }
        assert(line_step(st, toks[i as int], *style, width as int) == LineState {
            chunks: chunks@,
            height: *total_height as int,
            x: *x as int,
            start: cur.start as int,
            end: cur.end as int,
            newline,
        });
        i = i + 1;
    }
    proof {
        assert(toks.skip(i as int) == Seq::<Token>::empty());
        assert(toks.take(i as int) == toks);
    }
}

/// The characters of chunk `c` of `content`: its byte range, decoded.
pub open spec fn chunk_chars(content: Seq<char>, c: Chunk) -> Seq<char> {
    decode_utf8(encode_utf8(content).subrange(c.start as int, c.end as int))
}

/// A glyph lookup result with the missing glyphs replaced by `u32::MAX`.
pub open spec fn resolved_glyphs(run: Seq<Option<u32>>) -> Seq<u32> {
    run.map_values(
        |g: Option<u32>|
            match g {
                Some(i) => i,
                None => u32::MAX,
            },
    )
}

/// The glyph buffer of a block: the resolved glyph runs, concatenated.
pub open spec fn glyph_buffer(runs: Seq<Vec<Option<u32>>>) -> Seq<u32>
    decreases runs.len(),
{
    if runs.len() == 0 {
        Seq::empty()
    } else {
        glyph_buffer(runs.drop_last()) + resolved_glyphs(runs.last()@)
    }
}

/// Height added once per block below its last line, so that descenders
/// are not clipped: three tenths of the first chunk's font size.
pub open spec fn descender(size: u32) -> int {
    size as int * 3 / 10
}

/// The state of a block's layout between two chunks: fragments so far,
/// height, cursor, glyphs laid out, and whether no chunk was laid out yet.
pub struct BlockState {
    pub chunks: Seq<BuiltChunk>,
    pub height: int,
    pub x: int,
    pub glyphs: int,
    pub first: bool,
}

/// Lays out one chunk whose characters are `text`.
pub open spec fn block_step(bs: BlockState, text: Seq<char>, style: BuiltChunkStyle, width: int) -> BlockState {
    let st = LineState {
        chunks: bs.chunks,
        height: bs.height,
        x: bs.x,
        start: bs.glyphs,
        end: bs.glyphs,
        newline: bs.first,
    };
    let f = line_run(st, tokens_of(text), style, width);
    BlockState {
        chunks: f.chunks,
        height: f.height + if bs.first {
            descender(style.style.size)
        } else {
            0
        },
        x: f.x,
        glyphs: bs.glyphs + text.len(),
        first: false,
    }
}

/// The layout of the chunks `cs` of a block whose content is `content`.
pub open spec fn block_run(content: Seq<char>, cs: Seq<Chunk>, theme: BuiltTheme, width: int) -> BlockState
    decreases cs.len(),
{
    if cs.len() == 0 {
        BlockState { chunks: Seq::empty(), height: 0, x: 0, glyphs: 0, first: true }
    } else {
        block_step(
            block_run(content, cs.drop_last(), theme, width),
            chunk_chars(content, cs.last()),
            theme.style_of(cs.last().kind),
            width,
        )
    }
}

/// The box a block occupies, in app units.
#[derive(Debug, Clone, Copy, PartialEq, Eq, Structural)]
pub struct Size {
    pub width: u64,
    pub height: u64,
}

/// A laid-out block of text: its glyphs, the fragments that place them,
/// its box, and its background.
#[derive(Debug, Clone)]
pub struct BuiltTextBlock {
    pub glyphs: Vec<u32>,
    pub chunks: Vec<BuiltChunk>,
    pub size: Size,
    pub bg_color: Option<Color>,
}

/// The background color of a block.
pub open spec fn block_bg(bg: BlockBackground, theme: BuiltTheme) -> Option<Color> {
    match bg {
        BlockBackground::NoBackground => None,
        BlockBackground::Code => Some(theme.code_bg),
    }
}

proof fn lemma_encode_len(cs: Seq<char>)
    ensures
        encode_utf8(cs).len() >= cs.len(),
    decreases cs.len(),
{
    if cs.len() > 0 {
        lemma_encode_len(cs.drop_first());
    }
}

/// The text of the byte range `start..end` of `content`.
fn chunk_text(content: &str, start: usize, end: usize) -> (r: &str)
    requires
        start <= end <= content.spec_bytes().len(),
        is_char_boundary(content.spec_bytes(), start as int),
        is_char_boundary(content.spec_bytes(), end as int),
    ensures
        r@ == decode_utf8(encode_utf8(content@).subrange(start as int, end as int)),
        r@.len() <= end - start,
{
    broadcast use encode_utf8_valid_utf8, encode_utf8_decode_utf8, valid_utf8_split,
        is_char_boundary_start_end_of_seq;

    let ghost bytes = content.spec_bytes();
    let (head, _) = content.split_at(end);
    proof {
        let hb = head.spec_bytes();
        assert(hb == bytes.subrange(0, end as int));
        assert(valid_utf8(hb));
        if 0 < start < end {
            is_char_boundary_iff_not_is_continuation_byte(bytes, start as int);
            is_char_boundary_iff_not_is_continuation_byte(hb, start as int);
        }
        assert(is_char_boundary(hb, start as int));
    }
    let (_, text) = head.split_at(start);
    proof {
        assert(text.spec_bytes() == bytes.subrange(start as int, end as int));
        assert(decode_utf8(encode_utf8(text@)) == text@);
        lemma_encode_len(text@);
    }
    text
}

/// Appends the glyphs of one run to `out`, a missing glyph as `u32::MAX`.
fn layout_glyphs(run: &Vec<Option<u32>>, out: &mut Vec<u32>)
    ensures
        final(out)@ == old(out)@ + resolved_glyphs(run@),
{
    let ghost start = out@;
    let mut i: usize = 0;
    while i < run.len()
        invariant
            0 <= i <= run@.len(),
            out@ == start + resolved_glyphs(run@.take(i as int)),
        decreases run@.len() - i,
    {
        let g = match run[i] {
            Some(index) => index,
            None => u32::MAX,
        };
        out.push(g);
        i = i + 1;
        assert(resolved_glyphs(run@.take(i as int)) == resolved_glyphs(run@.take(i - 1)).push(g));
    }
    assert(run@.take(i as int) == run@);
}

/// The fragments' ranges are non-empty and follow one another without gap
/// or overlap, from `lo` to `hi`.
pub open spec fn tiles(cs: Seq<BuiltChunk>, lo: int, hi: int) -> bool {
    &&& forall|k: int| 0 <= k < cs.len() ==> #[trigger] cs[k].range.start < cs[k].range.end
    &&& forall|k: int| 0 <= k < cs.len() - 1 ==> cs[k].range.end == #[trigger] cs[k + 1].range.start
    &&& cs.len() == 0 ==> lo == hi
    &&& cs.len() > 0 ==> cs[0].range.start == lo && cs.last().range.end == hi
}

/// The sum of the heights of the fragments that begin a line.
pub open spec fn newline_height(cs: Seq<BuiltChunk>) -> int
    decreases cs.len(),
{
    if cs.len() == 0 {
        0
    } else {
        newline_height(cs.drop_last()) + if cs.last().newline {
            cs.last().height as int
        } else {
            0
        }
    }
}

/// The descender allowance of a block: that of its first chunk's style,
/// or nothing for a block without chunks.
pub open spec fn block_descender(cs: Seq<Chunk>, theme: BuiltTheme) -> int {
    if cs.len() > 0 {
        descender(theme.style_of(cs[0].kind).style.size)
    } else {
        0
    }
}

proof fn lemma_tokens_width_first(toks: Seq<Token>)
    requires
        toks.len() > 0,
    ensures
        tokens_width(toks) == token_width(toks[0]) + tokens_width(toks.drop_first()),
{
    assert(toks == seq![toks[0]] + toks.drop_first());
    lemma_tokens_width_concat(seq![toks[0]], toks.drop_first());
    lemma_tokens_width_single(toks[0]);
}

/// Flushing keeps the fragments tiling and the height accounted for.
proof fn lemma_flush_shape(st: LineState, style: BuiltChunkStyle, base: int)
    requires
        0 <= st.start <= st.end <= usize::MAX,
        tiles(st.chunks, 0, st.start),
        st.height == base + newline_height(st.chunks),
    ensures
        ({
            let r = flush(st, style);
            &&& r.start <= r.end == st.end
            &&& r.start == st.start || r.start == st.end
            &&& tiles(r.chunks, 0, r.start)
            &&& r.height == base + newline_height(r.chunks)
            &&& r.x == st.x
            &&& r.newline == st.newline
        }),
{
    let r = flush(st, style);
    if st.start != st.end {
        assert(r.chunks.drop_last() == st.chunks);
        let n = st.chunks.len() as int;
        assert forall|k: int| 0 <= k < r.chunks.len() - 1 implies r.chunks[k].range.end == #[trigger] r.chunks[k + 1].range.start by {
            if k < n - 1 {
                assert(r.chunks[k] == st.chunks[k]);
                assert(r.chunks[k + 1] == st.chunks[k + 1]);
            }
        }
        assert forall|k: int| 0 <= k < r.chunks.len() implies #[trigger] r.chunks[k].range.start < r.chunks[k].range.end by {
            if k < n {
                assert(r.chunks[k] == st.chunks[k]);
            }
        }
    }
}

proof fn lemma_line_step_shape(st: LineState, tok: Token, style: BuiltChunkStyle, width: int, base: int)
    requires
        0 <= st.start <= st.end,
        st.end + token_width(tok) <= usize::MAX,
        tiles(st.chunks, 0, st.start),
        st.height == base + newline_height(st.chunks),
    ensures
        ({
            let r = line_step(st, tok, style, width);
            &&& 0 <= r.start <= r.end
            &&& r.end == st.end + token_width(tok)
            &&& tiles(r.chunks, 0, r.start)
            &&& r.height == base + newline_height(r.chunks)
            &&& tok == Token::End ==> r.start == r.end
        }),
{
    match tok {
        Token::Word(len) => {
            lemma_flush_shape(st, style, base);
        },
        Token::Space => {},
        Token::Newline => {
            lemma_flush_shape(LineState { end: st.end + 1, ..st }, style, base);
        },
        Token::End => {
            lemma_flush_shape(st, style, base);
        },
    }
}

proof fn lemma_line_run_shape(st: LineState, toks: Seq<Token>, style: BuiltChunkStyle, width: int, base: int)
    requires
        0 <= st.start <= st.end,
        st.end + tokens_width(toks) <= usize::MAX,
        tiles(st.chunks, 0, st.start),
        st.height == base + newline_height(st.chunks),
        toks.len() > 0,
        toks.last() == Token::End,
    ensures
        ({
            let r = line_run(st, toks, style, width);
            &&& r.start == r.end == st.end + tokens_width(toks)
            &&& tiles(r.chunks, 0, r.start)
            &&& r.height == base + newline_height(r.chunks)
        }),
    decreases toks.len(),
{
    lemma_tokens_width_first(toks);
    lemma_tokens_width_nonneg(toks.drop_first());
    lemma_line_step_shape(st, toks[0], style, width, base);
    let st1 = line_step(st, toks[0], style, width);
    if toks.len() > 1 {
        assert(toks.drop_first().last() == toks.last());
        lemma_line_run_shape(st1, toks.drop_first(), style, width, base);
    } else {
        assert(toks.drop_first().len() == 0);
        assert(tokens_width(toks.drop_first()) == 0);
        assert(toks[0] == toks.last());
        assert(line_run(st1, toks.drop_first(), style, width) == st1);
    }
}

/// A block's fragments tile its glyphs, and its height is the height of
/// the lines begun plus the descender allowance.
proof fn lemma_block_run_shape(content: Seq<char>, cs: Seq<Chunk>, theme: BuiltTheme, width: int)
    requires
        block_run(content, cs, theme, width).glyphs <= usize::MAX,
    ensures
        ({
            let bs = block_run(content, cs, theme, width);
            &&& 0 <= bs.glyphs
            &&& tiles(bs.chunks, 0, bs.glyphs)
            &&& bs.height == newline_height(bs.chunks) + block_descender(cs, theme)
            &&& bs.first == (cs.len() == 0)
        }),
    decreases cs.len(),
{
    if cs.len() > 0 {
        let prev = cs.drop_last();
        let bs = block_run(content, prev, theme, width);
        let text = chunk_chars(content, cs.last());
        let style = theme.style_of(cs.last().kind);
        assert(bs.glyphs <= block_run(content, cs, theme, width).glyphs);
        lemma_block_run_shape(content, prev, theme, width);
        lemma_tokens_from_width(text, 0);
        let st = LineState {
            chunks: bs.chunks,
            height: bs.height,
            x: bs.x,
            start: bs.glyphs,
            end: bs.glyphs,
            newline: bs.first,
        };
        lemma_line_run_shape(st, tokens_of(text), style, width, block_descender(prev, theme));
        if prev.len() > 0 {
            assert(prev[0] == cs[0]);
        }
    }
}

/// After a word is laid out, the cursor (the width of the line up to the
/// end of that word) is within the target width, unless the word alone is
/// wider than the target width; such a word then begins its fragment and
/// stands alone in it.
pub proof fn lemma_word_fits_or_stands_alone(st: LineState, len: usize, style: BuiltChunkStyle, width: int)
    requires
        0 <= st.x,
        0 <= st.start <= st.end,
        0 <= width,
    ensures
        ({
            let r = line_step(st, Token::Word(len), style, width);
            let cw = style.char_width as int;
            ||| r.x <= width
            ||| (r.end - r.start == len && r.x == len * cw && len * cw > width)
        }),
{
    let cw = style.char_width as int;
    if word_fits(st.x, len as int, cw, width) {
        if cw > 0 {
            let q = (width - st.x) / cw;
            assert(q * cw <= width - st.x) by (nonlinear_arith)
                requires q == (width - st.x) / cw, cw > 0, width - st.x >= 0;
            assert(len * cw <= q * cw) by (nonlinear_arith)
                requires len <= q, cw > 0;
        }
    }
}

/// Whether `b` is the layout of `block` at `width`, with glyph lookups
/// `glyph_runs`.
pub open spec fn is_layout_of(
    b: BuiltTextBlock,
    block: TextBlock,
    theme: BuiltTheme,
    glyph_runs: Seq<Vec<Option<u32>>>,
    width: u32,
) -> bool {
    let bs = block_run(block.content@, block.chunks@, theme, width as int);
    &&& b.glyphs@ == glyph_buffer(glyph_runs)
    &&& b.chunks@ == bs.chunks
    &&& b.size == (Size { width: width as u64, height: bs.height as u64 })
    &&& b.bg_color == block_bg(block.bg, theme)
}

/// Laying out the same block twice, with the same styles, glyphs and
/// width, gives the same glyphs, fragments and box.
pub proof fn lemma_layout_deterministic(
    block: TextBlock,
    theme: BuiltTheme,
    glyph_runs: Seq<Vec<Option<u32>>>,
    width: u32,
    a: BuiltTextBlock,
    b: BuiltTextBlock,
)
    requires
        is_layout_of(a, block, theme, glyph_runs, width),
        is_layout_of(b, block, theme, glyph_runs, width),
    ensures
        a.glyphs@ == b.glyphs@,
        a.chunks@ == b.chunks@,
        a.size == b.size,
        a.bg_color == b.bg_color,
{
}

impl BuiltTextBlock {
    /// Lays out `block` at `width`. `glyph_runs[i]` holds the glyph lookup
    /// of chunk `i`'s text, one entry per character.
    pub fn new(block: &TextBlock, theme: &BuiltTheme, glyph_runs: &Vec<Vec<Option<u32>>>, width: u32) -> (r: Self)
        requires
            block.wf(),
            theme.wf(),
            glyph_runs@.len() == block.chunks@.len(),
            forall|i: int|
                0 <= i < glyph_runs@.len() ==> #[trigger] glyph_runs@[i]@.len() == chunk_chars(
                    block.content@,
                    block.chunks@[i],
                ).len(),
        ensures
            is_layout_of(r, *block, *theme, glyph_runs@, width),
            tiles(r.chunks@, 0, r.glyphs@.len() as int),
            r.size.height == newline_height(r.chunks@) + block_descender(block.chunks@, *theme),
            block.chunks@.len() == 0 ==> r.chunks@.len() == 0 && r.size.height == 0,
            r.wf(),
    {
        let mut indices: Vec<u32> = Vec::new();
        let mut chunks: Vec<BuiltChunk> = Vec::new();
        let mut x: u64 = 0;
        let mut height: u64 = 0;
        let mut first_chunk = true;
        let ghost content = block.content@;
        let ghost cs = block.chunks@;
        let ghost m = u32::MAX as int;
        let mut i: usize = 0;
        proof {
            assert(cs.take(0) == Seq::<Chunk>::empty());
            assert(glyph_runs@.take(0) == Seq::<Vec<Option<u32>>>::empty());
        }
        while i < block.chunks.len()
            invariant
                block.wf(),
                theme.wf(),
                content == block.content@,
                cs == block.chunks@,
                m == u32::MAX,
                glyph_runs@.len() == cs.len(),
                forall|j: int|
                    0 <= j < glyph_runs@.len() ==> #[trigger] glyph_runs@[j]@.len() == chunk_chars(
                        content,
                        cs[j],
                    ).len(),
                0 <= i <= cs.len(),
                indices@ == glyph_buffer(glyph_runs@.take(i as int)),
                ({
                    let bs = block_run(content, cs.take(i as int), *theme, width as int);
                    &&& chunks@ == bs.chunks
                    &&& height == bs.height
                    &&& x == bs.x
                    &&& indices@.len() == bs.glyphs
                    &&& first_chunk == bs.first
                }),
                first_chunk == (i == 0),
                i > 0 ==> indices@.len() <= cs[i - 1].end,
                x <= indices@.len() * m,
                chunks@.len() <= indices@.len(),
                height <= (chunks@.len() + 1) * m,
            decreases cs.len() - i,
        {
            let chunk = block.chunks[i];
            let start = chunk.start as usize;
            let end = chunk.end as usize;
            let chunk_str = chunk_text(block.content.as_str(), start, end);
            let style = theme.style(chunk.kind);
            let g0 = indices.len();
            layout_glyphs(&glyph_runs[i], &mut indices);
            let ghost n = chunk_str@.len();
            let ghost g = g0 as int;
            let ghost c_old = chunks@.len() as int;
            let ghost h_old = height as int;
            proof {
                assert(cs.take(i as int + 1).drop_last() == cs.take(i as int));
                assert(glyph_runs@.take(i as int + 1).drop_last() == glyph_runs@.take(i as int));
                if i > 0 {
                    let k = i - 1;
                    assert(cs[k].end <= cs[k + 1].start);
                }
                assert(g + n <= end);
                assert(g + n <= 65535);
                assert(x + n * style.char_width <= u64::MAX) by (nonlinear_arith)
                    requires x <= g * m, g + n <= 65535, style.char_width <= m, m == 4294967295, n >= 0, g >= 0;
                assert(height + n * style.style.line_height <= u64::MAX) by (nonlinear_arith)
                    requires height <= (chunks@.len() + 1) * m, chunks@.len() <= g, g + n <= 65535,
                        style.style.line_height <= m, m == 4294967295, n >= 0;
            }
            build_chunks(
                &mut chunks,
                &mut height,
                &mut x,
                g0..indices.len(),
                chunk_str,
                style,
                first_chunk,
                width,
            );
            proof {
                assert(x <= (g + n) * m) by (nonlinear_arith)
                    requires x <= g * m + n * style.char_width, style.char_width <= m, n >= 0;
                let c_new = chunks@.len() as int;
                let lh = style.style.line_height as int;
                assert(height <= h_old + (c_new - c_old) * m) by (nonlinear_arith)
                    requires height <= h_old + (c_new - c_old) * lh, lh <= m, c_new >= c_old;
                if i == 0 {
                    assert(h_old == 0);
                    assert(height + m <= (c_new + 1) * m) by (nonlinear_arith)
                        requires height <= (c_new - c_old) * m, c_old == 0;
                } else {
                    assert(height <= (c_new + 1) * m) by (nonlinear_arith)
                        requires height <= h_old + (c_new - c_old) * m, h_old <= (c_old + 1) * m;
                }
                assert((c_new + 1) * m <= 65536 * m) by (nonlinear_arith)
                    requires c_new <= 65535, m >= 0;
            }
            if first_chunk {
                height = height + style.style.size as u64 * 3 / 10;
            }
            first_chunk = false;
            i = i + 1;
        }
        proof {
            assert(cs.take(i as int) == cs);
            assert(glyph_runs@.take(i as int) == glyph_runs@);
            lemma_block_run_shape(content, cs, *theme, width as int);
            if i > 0 {
                assert(cs[i - 1].end <= 65535);
            }
            assert((chunks@.len() + 1) * m <= 65536 * m) by (nonlinear_arith)
                requires chunks@.len() <= 65535, m >= 0;
        }
        let size = Size { width: width as u64, height };
        let bg_color = match block.bg {
            BlockBackground::NoBackground => None,
            BlockBackground::Code => Some(theme.code_bg),
        };
        BuiltTextBlock { glyphs: indices, chunks, size, bg_color }
    }
}

} // verus!
