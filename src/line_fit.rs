//! How wide the lines of the greedy line builder get: every fragment fits
//! the target width up to the end of its last word, unless it holds a
//! single word.
use vstd::prelude::*;
use crate::layout::{
    break_line, flush, line_run, line_step, tokens_from, tokens_of, word_fits, BuiltChunk, LineState,
    Token,
};
use crate::style::BuiltChunkStyle;

verus! {

/// A character that belongs to a word: neither space nor newline.
pub open spec fn is_word_char(c: char) -> bool {
    c != ' ' && c != '\n'
}

/// `t` without its trailing spaces and newlines.
pub open spec fn trim_end(t: Seq<char>) -> Seq<char>
    decreases t.len(),
{
    if t.len() > 0 && !is_word_char(t.last()) {
        trim_end(t.drop_last())
    } else {
        t
    }
}

/// A line of text `t` drawn `char_width` per character: up to the end of
/// its last word it fits `width`, or it holds a single word.
pub open spec fn line_fits(t: Seq<char>, char_width: int, width: int) -> bool {
    let w = trim_end(t);
    ||| w.len() * char_width <= width
    ||| forall|j: int| 0 <= j < w.len() ==> is_word_char(#[trigger] w[j])
}

/// Whether the tokens `toks` describe the characters `s`: each word its
/// run of word characters, each space and newline its character.
pub open spec fn aligned(toks: Seq<Token>, s: Seq<char>) -> bool
    decreases toks.len(),
{
    if toks.len() == 0 {
        s.len() == 0
    } else {
        match toks[0] {
            Token::Word(n) => {
                &&& 1 <= n <= s.len()
                &&& forall|j: int| 0 <= j < n ==> is_word_char(#[trigger] s[j])
                &&& aligned(toks.drop_first(), s.skip(n as int))
            },
            Token::Space => s.len() >= 1 && s[0] == ' ' && aligned(toks.drop_first(), s.skip(1)),
            Token::Newline => s.len() >= 1 && s[0] == '\n' && aligned(toks.drop_first(), s.skip(1)),
            Token::End => s.len() == 0 && aligned(toks.drop_first(), s),
        }
    }
}

/// The tokens of `s`, after a pending word `w`, describe `w + s`.
proof fn lemma_tokens_aligned(s: Seq<char>, w: Seq<char>)
    requires
        forall|j: int| 0 <= j < w.len() ==> is_word_char(#[trigger] w[j]),
        s.len() + w.len() <= usize::MAX,
    ensures
        aligned(tokens_from(s, w.len()), w + s),
    decreases s.len(),
{
    let p = w.len();
    let toks = tokens_from(s, p);
    if s.len() == 0 {
        assert(w + s == w);
        let end = seq![Token::End];
        assert(aligned(end.drop_first(), Seq::<char>::empty()));
        assert(aligned(end, Seq::<char>::empty()));
        if p > 0 {
            assert(toks == seq![Token::Word(p as usize), Token::End]);
            assert(toks.drop_first() == end);
            assert(w.skip(p as int) == Seq::<char>::empty());
        } else {
            assert(toks == end);
            assert(w == Seq::<char>::empty());
        }
    } else if s[0] == ' ' || s[0] == '\n' {
        let t = if s[0] == ' ' { Token::Space } else { Token::Newline };
        let rest = tokens_from(s.drop_first(), 0);
        lemma_tokens_aligned(s.drop_first(), Seq::<char>::empty());
        assert(Seq::<char>::empty() + s.drop_first() == s.drop_first());
        let tail = seq![t] + rest;
        assert(tail[0] == t);
        assert(tail.drop_first() == rest);
        assert(s.skip(1) == s.drop_first());
        assert(aligned(tail, s));
        if p > 0 {
            assert(toks == seq![Token::Word(p as usize)] + tail);
            assert(toks[0] == Token::Word(p as usize));
            assert(toks.drop_first() == tail);
            assert((w + s).skip(p as int) == s);
            assert forall|j: int| 0 <= j < p implies is_word_char(#[trigger] (w + s)[j]) by {
                assert((w + s)[j] == w[j]);
            }
        } else {
            assert(toks == tail);
            assert(w + s == s);
        }
    } else {
        let w2 = w.push(s[0]);
        assert forall|j: int| 0 <= j < w2.len() implies is_word_char(#[trigger] w2[j]) by {
            if j < w.len() {
                assert(w2[j] == w[j]);
            }
        }
        lemma_tokens_aligned(s.drop_first(), w2);
        assert(w2 + s.drop_first() == w + s);
    }
}

proof fn lemma_trim_word_end(t: Seq<char>)
    requires
        t.len() > 0,
        is_word_char(t.last()),
    ensures
        trim_end(t) == t,
{
}

proof fn lemma_trim_push_separator(t: Seq<char>, c: char)
    requires
        !is_word_char(c),
    ensures
        trim_end(t.push(c)) == trim_end(t),
{
    assert(t.push(c).drop_last() == t);
}

proof fn lemma_trim_all_word(t: Seq<char>)
    requires
        forall|j: int| 0 <= j < t.len() ==> is_word_char(#[trigger] t[j]),
    ensures
        trim_end(t) == t,
{
    if t.len() > 0 {
        assert(is_word_char(t[t.len() - 1]));
    }
}

/// The line builder's state while it lays out the characters `s` from
/// the start of a line, the first of them at glyph `g`: the cursor is the
/// width of the pending range, whose text fits, and every fragment emitted
/// since the first `c0` fits.
pub open spec fn fits_so_far(st: LineState, s: Seq<char>, g: int, c0: int, cw: int, width: int) -> bool {
    &&& g <= st.start <= st.end <= g + s.len()
    &&& st.end <= usize::MAX
    &&& 0 <= c0 <= st.chunks.len()
    &&& st.x >= cw * (st.end - st.start)
    &&& line_fits(s.subrange(st.start - g, st.end - g), cw, width)
    &&& forall|k: int|
        c0 <= k < st.chunks.len() ==> line_fits(
            s.subrange(#[trigger] st.chunks[k].range.start - g, st.chunks[k].range.end - g),
            cw,
            width,
        )
}

proof fn lemma_flush_fits(st: LineState, s: Seq<char>, g: int, c0: int, style: BuiltChunkStyle, width: int)
    requires
        0 <= g,
        fits_so_far(st, s, g, c0, style.char_width as int, width),
    ensures
        ({
            let f = flush(st, style);
            &&& f.start == f.end == st.end
            &&& f.chunks.len() >= c0
            &&& forall|k: int|
                c0 <= k < f.chunks.len() ==> line_fits(
                    s.subrange(#[trigger] f.chunks[k].range.start - g, f.chunks[k].range.end - g),
                    style.char_width as int,
                    width,
                )
        }),
{
    let f = flush(st, style);
    if st.start != st.end {
        assert forall|k: int|
            c0 <= k < f.chunks.len() implies line_fits(
                s.subrange(#[trigger] f.chunks[k].range.start - g, f.chunks[k].range.end - g),
                style.char_width as int,
                width,
            ) by {
            if k < st.chunks.len() {
                assert(f.chunks[k] == st.chunks[k]);
            }
        }
    }
}

proof fn lemma_line_run_fits(
    st: LineState,
    toks: Seq<Token>,
    s: Seq<char>,
    g: int,
    c0: int,
    style: BuiltChunkStyle,
    width: int,
)
    requires
        0 <= g,
        0 <= width,
        g + s.len() <= usize::MAX,
        fits_so_far(st, s, g, c0, style.char_width as int, width),
        aligned(toks, s.skip(st.end - g)),
    ensures
        ({
            let f = line_run(st, toks, style, width);
            forall|k: int|
                c0 <= k < f.chunks.len() ==> line_fits(
                    s.subrange(#[trigger] f.chunks[k].range.start - g, f.chunks[k].range.end - g),
                    style.char_width as int,
                    width,
                )
        }),
    decreases toks.len(),
{
    let cw = style.char_width as int;
    if toks.len() == 0 {
        return;
    }
    let e = st.end - g;
    let r = s.skip(e);
    let st1 = line_step(st, toks[0], style, width);
    match toks[0] {
        Token::Word(n) => {
            let fits = word_fits(st.x, n as int, cw, width);
            let st0 = if fits { st } else { break_line(st, style) };
            if !fits {
                lemma_flush_fits(st, s, g, c0, style, width);
            }
            let word = s.subrange(e, e + n);
            assert forall|j: int| 0 <= j < n implies is_word_char(#[trigger] word[j]) by {
                assert(word[j] == r[j]);
            }
            let p1 = s.subrange(st1.start - g, st1.end - g);
            assert(p1.last() == word[n - 1]);
            lemma_trim_word_end(p1);
            if fits {
                assert(st1.x == st.x + n * cw);
                if cw > 0 {
                    let q = (width - st.x) / cw;
                    assert(q * cw <= width - st.x) by (nonlinear_arith)
                        requires q == (width - st.x) / cw, cw > 0, width - st.x >= 0;
                    assert(n * cw <= q * cw) by (nonlinear_arith)
                        requires n <= q, cw > 0;
                }
                assert(p1.len() * cw == cw * (st.end - st.start) + n * cw) by (nonlinear_arith)
                    requires p1.len() == st.end - st.start + n;
                assert(st1.x >= cw * (st1.end - st1.start)) by (nonlinear_arith)
                    requires st1.x == st.x + n * cw, st.x >= cw * (st.end - st.start),
                        st1.end - st1.start == st.end - st.start + n;
            } else {
                assert(p1 == word);
                assert(st1.x >= cw * (st1.end - st1.start)) by (nonlinear_arith)
                    requires st1.x == n * cw, st1.end - st1.start == n;
            }
            assert(s.skip(st1.end - g) == r.skip(n as int));
            assert(line_fits(p1, cw, width));
            assert(fits_so_far(st1, s, g, c0, cw, width));
        },
        Token::Space => {
            let p0 = s.subrange(st.start - g, e);
            assert(s.subrange(st1.start - g, st1.end - g) == p0.push(' '));
            lemma_trim_push_separator(p0, ' ');
            assert(st1.x >= cw * (st1.end - st1.start)) by (nonlinear_arith)
                requires st1.x == st.x + cw, st.x >= cw * (st.end - st.start), st1.end - st1.start == st.end
                    - st.start + 1;
            assert(s.skip(st1.end - g) == r.skip(1));
            assert(fits_so_far(st1, s, g, c0, cw, width));
        },
        Token::Newline => {
            let p0 = s.subrange(st.start - g, e);
            let stn = LineState { end: st.end + 1, ..st };
            assert(s.subrange(stn.start - g, stn.end - g) == p0.push('\n'));
            lemma_trim_push_separator(p0, '\n');
            assert(cw * (stn.end - stn.start) >= 0) by (nonlinear_arith)
                requires cw >= 0, stn.end - stn.start >= 0;
            let stx = LineState { x: cw * (stn.end - stn.start), ..stn };
            lemma_flush_fits(stx, s, g, c0, style, width);
            assert(flush(stn, style).chunks == flush(stx, style).chunks);
            assert(s.subrange(st1.start - g, st1.end - g) == Seq::<char>::empty());
            assert(trim_end(Seq::<char>::empty()) == Seq::<char>::empty());
            assert(s.skip(st1.end - g) == r.skip(1));
            assert(cw * (st1.end - st1.start) == 0) by (nonlinear_arith)
                requires st1.end == st1.start;
            assert(fits_so_far(st1, s, g, c0, cw, width));
        },
        Token::End => {
            lemma_flush_fits(st, s, g, c0, style, width);
            assert(cw * (st.end - st.start) >= 0) by (nonlinear_arith)
                requires cw >= 0, st.end - st.start >= 0;
            assert(s.subrange(st1.start - g, st1.end - g) == Seq::<char>::empty());
            assert(trim_end(Seq::<char>::empty()) == Seq::<char>::empty());
            assert(s.skip(st1.end - g) == r);
            assert(cw * (st1.end - st1.start) == 0) by (nonlinear_arith)
                requires st1.end == st1.start;
            assert(fits_so_far(st1, s, g, c0, cw, width));
        },
    }
    lemma_line_run_fits(st1, toks.drop_first(), s, g, c0, style, width);
}

/// Laying out a text from the start of a line, every fragment fits the
/// target width up to the end of its last word, unless it holds a single
/// word (which may be wider than the target width).
pub proof fn lemma_fragments_fit_or_single_word(
    s: Seq<char>,
    chunks: Seq<BuiltChunk>,
    height: int,
    start: int,
    newline: bool,
    style: BuiltChunkStyle,
    width: int,
)
    requires
        0 <= start,
        start + s.len() <= usize::MAX,
        0 <= width,
    ensures
        ({
            let st = LineState { chunks, height, x: 0, start, end: start, newline };
            let f = line_run(st, tokens_of(s), style, width);
            forall|k: int|
                chunks.len() <= k < f.chunks.len() ==> line_fits(
                    s.subrange(#[trigger] f.chunks[k].range.start - start, f.chunks[k].range.end - start),
                    style.char_width as int,
                    width,
                )
        }),
{
    let st = LineState { chunks, height, x: 0, start, end: start, newline };
    lemma_tokens_aligned(s, Seq::<char>::empty());
    assert(Seq::<char>::empty() + s == s);
    assert(s.skip(0) == s);
    assert(s.subrange(0, 0) == Seq::<char>::empty());
    lemma_line_run_fits(st, tokens_of(s), s, start, chunks.len() as int, style, width);
}

} // verus!
