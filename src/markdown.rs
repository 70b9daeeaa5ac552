//! Turns a markdown document into text blocks: one block per top-level
//! styled element, with a chunk per run of one style.
use vstd::prelude::*;
use vstd::utf8::encode_utf8;
use crate::{BlockBackground, Chunk, TextBlock, TextBlockView, TextKind};

verus! {

/// One event of a markdown parse. Tags are carried in their debug form
/// (`Paragraph`, `Heading(H1, None, [])`, `List(None)`, ...).
#[derive(Debug, Clone, PartialEq, Eq)]
pub enum MdEvent {
    Start(String),
    End(String),
    Text(String),
    /// Inline code, with its text.
    Code(String),
    /// Any other event; it does not affect the blocks.
    Other,
}

/// The events that pulldown-cmark produces for `document`.
pub uninterp spec fn markdown_events_of(document: Seq<char>) -> Seq<MdEvent>;

/// Relies on `pulldown_cmark::Parser`: the event stream of `document`, a
/// function of the document alone.
#[verifier::external_body]
fn markdown_events(document: &str) -> (r: Vec<MdEvent>)
    ensures
        r@ == markdown_events_of(document@),
{
    let mut events: Vec<MdEvent> = Vec::new();
    for event in pulldown_cmark::Parser::new(document) {
        events.push(match event {
            pulldown_cmark::Event::Start(tag) => MdEvent::Start(format!("{:?}", tag)),
            pulldown_cmark::Event::End(tag) => MdEvent::End(format!("{:?}", tag)),
            pulldown_cmark::Event::Text(text) => MdEvent::Text(text.to_string()),
            pulldown_cmark::Event::Code(text) => MdEvent::Code(text.to_string()),
            _ => MdEvent::Other,
        });
    }
    events
}

/// The characters of `s`.
fn chars_of(s: &str) -> (r: Vec<char>)
    ensures
        r@ == s@,
{
    let mut r: Vec<char> = Vec::new();
    for c in it: s.chars()
        invariant
            it.seq() == s@,
            r@ == s@.take(it.index() as int),
    {
        r.push(c);
        assert(s@.take(it.index() as int + 1) == s@.take(it.index() as int).push(c));
    }
    assert(s@.take(s@.len() as int) == s@);
    r
}

/// Whether `s` begins with `prefix`.
fn starts_with(s: &str, prefix: &str) -> (r: bool)
    ensures
        r == prefix@.is_prefix_of(s@),
{
    let text = chars_of(s);
    let p = chars_of(prefix);
    if p.len() > text.len() {
        return false;
    }
    let mut i: usize = 0;
    while i < p.len()
        invariant
            text@ == s@,
            p@ == prefix@,
            p@.len() <= text@.len(),
            0 <= i <= p@.len(),
            forall|j: int| 0 <= j < i ==> p@[j] == text@[j],
        decreases p@.len() - i,
    {
        if p[i] != text[i] {
            assert(!(p@ =~= text@.subrange(0, p@.len() as int))) by {
                assert(text@.subrange(0, p@.len() as int)[i as int] == text@[i as int]);
            }
            return false;
        }
        i = i + 1;
    }
    assert(p@ =~= text@.subrange(0, p@.len() as int));
    true
}

/// Whether `s` is exactly `t`.
fn same_text(s: &str, t: &str) -> (r: bool)
    ensures
        r == (s@ == t@),
{
    let b = starts_with(s, t);
    proof {
        if b && s@.len() == t@.len() {
            assert(s@ == s@.subrange(0, t@.len() as int));
        }
    }
    b && chars_of(s).len() == chars_of(t).len()
}

/// The style that a tag gives its text, if it gives one.
pub open spec fn tag_style_of(tag: Seq<char>) -> Option<TextKind> {
    if tag == "Paragraph"@ || "CodeBlock("@.is_prefix_of(tag) || "List("@.is_prefix_of(tag) {
        Some(TextKind::Paragraph)
    } else if "Heading(H1,"@.is_prefix_of(tag) {
        Some(TextKind::Header1)
    } else if "Heading("@.is_prefix_of(tag) {
        Some(TextKind::Header2)
    } else if "Link("@.is_prefix_of(tag) {
        Some(TextKind::Link)
    } else if tag == "Strong"@ {
        Some(TextKind::ParagraphBold)
    } else if tag == "Emphasis"@ {
        Some(TextKind::ParagraphItalic)
    } else {
        None
    }
}

/// The style that a tag, in its debug form, gives its text.
pub fn tag_style(tag: &str) -> (r: Option<TextKind>)
    ensures
        r == tag_style_of(tag@),
{
    if same_text(tag, "Paragraph") || starts_with(tag, "CodeBlock(") || starts_with(tag, "List(") {
        Some(TextKind::Paragraph)
    } else if starts_with(tag, "Heading(H1,") {
        Some(TextKind::Header1)
    } else if starts_with(tag, "Heading(") {
        Some(TextKind::Header2)
    } else if starts_with(tag, "Link(") {
        Some(TextKind::Link)
    } else if same_text(tag, "Strong") {
        Some(TextKind::ParagraphBold)
    } else if same_text(tag, "Emphasis") {
        Some(TextKind::ParagraphItalic)
    } else {
        None
    }
}

/// The background of a block that a tag opens.
pub open spec fn tag_background_of(tag: Seq<char>) -> BlockBackground {
    if "CodeBlock("@.is_prefix_of(tag) {
        BlockBackground::Code
    } else {
        BlockBackground::NoBackground
    }
}

/// The front end's state between two events: blocks so far, the text and
/// chunks of the open block, the open styles, where the next chunk
/// starts, and the open block's background.
pub struct ParseState {
    pub blocks: Seq<TextBlockView>,
    pub text: Seq<char>,
    pub chunks: Seq<Chunk>,
    pub stack: Seq<TextKind>,
    pub last_chunk: usize,
    pub bg: BlockBackground,
}

/// The length in bytes of a text, as a `usize`.
pub open spec fn byte_len(text: Seq<char>) -> usize {
    encode_utf8(text).len() as usize
}

/// Closes the chunk that runs from the last chunk's end to the end of the
/// text, in the innermost open style; nothing if no style is open.
pub open spec fn add_chunk_step(st: ParseState) -> ParseState {
    if st.stack.len() == 0 {
        st
    } else {
        let len = byte_len(st.text);
        ParseState {
            chunks: st.chunks.push(
                Chunk { start: st.last_chunk as u16, end: len as u16, kind: st.stack.last() },
            ),
            last_chunk: len,
            ..st
        }
    }
}

/// Opens a style: at top level this begins a new block with background
/// `bg`; inside a block it closes the chunk so far.
pub open spec fn open_style(st: ParseState, kind: TextKind, bg: BlockBackground) -> ParseState {
    if st.stack.len() == 0 {
        ParseState {
            text: Seq::empty(),
            chunks: Seq::empty(),
            last_chunk: 0,
            stack: seq![kind],
            bg,
            ..st
        }
    } else {
        let s = add_chunk_step(st);
        ParseState { stack: s.stack.push(kind), ..s }
    }
}

/// Closes the innermost style and its chunk.
pub open spec fn close_style(st: ParseState) -> ParseState {
    let s = add_chunk_step(st);
    if s.stack.len() > 0 {
        ParseState { stack: s.stack.drop_last(), ..s }
    } else {
        s
    }
}

/// At top level, moves the open text and chunks into a new block.
pub open spec fn end_block_step(st: ParseState) -> ParseState {
    if st.stack.len() == 0 {
        ParseState {
            blocks: st.blocks.push(TextBlockView { content: st.text, chunks: st.chunks, bg: st.bg }),
            text: Seq::empty(),
            chunks: Seq::empty(),
            ..st
        }
    } else {
        st
    }
}

/// One event of the front end.
pub open spec fn event_step(st: ParseState, e: MdEvent) -> ParseState {
    match e {
        MdEvent::Text(t) => ParseState { text: st.text + t@, ..st },
        MdEvent::Start(tag) => {
            let s = match tag_style_of(tag@) {
                Some(kind) => open_style(st, kind, tag_background_of(tag@)),
                None => st,
            };
            if tag@ == "Item"@ {
                ParseState { text: s.text + "- "@, ..s }
            } else {
                s
            }
        },
        MdEvent::End(tag) => {
            let s = if tag@ == "Item"@ {
                ParseState { text: st.text + "\n"@, ..st }
            } else {
                st
            };
            let s = if tag_style_of(tag@) is Some {
                close_style(s)
            } else {
                s
            };
            end_block_step(s)
        },
        MdEvent::Code(t) => {
            let s = open_style(st, TextKind::ParagraphCode, BlockBackground::NoBackground);
            end_block_step(close_style(ParseState { text: s.text + t@, ..s }))
        },
        MdEvent::Other => st,
    }
}

/// The front end run over a sequence of events.
pub open spec fn events_run(st: ParseState, events: Seq<MdEvent>) -> ParseState
    decreases events.len(),
{
    if events.len() == 0 {
        st
    } else {
        event_step(events_run(st, events.drop_last()), events.last())
    }
}

pub open spec fn initial_parse_state() -> ParseState {
    ParseState {
        blocks: Seq::empty(),
        text: Seq::empty(),
        chunks: Seq::empty(),
        stack: Seq::empty(),
        last_chunk: 0,
        bg: BlockBackground::NoBackground,
    }
}

/// The views of a sequence of blocks.
pub open spec fn block_views(blocks: Seq<TextBlock>) -> Seq<TextBlockView> {
    blocks.map_values(|b: TextBlock| b@)
}

/// Moves the open text and chunks into a new block with background `bg`.
pub fn end_block(blocks: &mut Vec<TextBlock>, cur_text: &mut String, chunks: &mut Vec<Chunk>, bg: BlockBackground)
    ensures
        final(blocks)@ == old(blocks)@.push(TextBlock { content: *old(cur_text), chunks: *old(chunks), bg }),
        final(cur_text)@ == Seq::<char>::empty(),
        final(chunks)@ == Seq::<Chunk>::empty(),
{
    let mut content = String::new();
    core::mem::swap(&mut content, cur_text);
    let mut taken: Vec<Chunk> = Vec::new();
    core::mem::swap(&mut taken, chunks);
    blocks.push(TextBlock { content, chunks: taken, bg });
}

/// Closes the chunk from `last_chunk` to `len` in the innermost open
/// style, and moves `last_chunk` to `len`; nothing if no style is open.
pub fn add_chunk(chunks: &mut Vec<Chunk>, stack: &mut Vec<TextKind>, last_chunk: &mut usize, len: usize)
    ensures
        final(stack)@ == old(stack)@,
        old(stack)@.len() == 0 ==> final(chunks)@ == old(chunks)@ && *final(last_chunk) == *old(last_chunk),
        old(stack)@.len() > 0 ==> final(chunks)@ == old(chunks)@.push(
            Chunk { start: *old(last_chunk) as u16, end: len as u16, kind: old(stack)@.last() },
        ) && *final(last_chunk) == len,
{
    if stack.len() == 0 {
        return;
    }
    let chunk = Chunk { start: *last_chunk as u16, end: len as u16, kind: stack[stack.len() - 1] };
    *last_chunk = len;
    chunks.push(chunk);
}

/// The front end's state, held in executable values.
struct BlockBuilder {
    blocks: Vec<TextBlock>,
    cur_text: String,
    chunks: Vec<Chunk>,
    stack: Vec<TextKind>,
    last_chunk: usize,
    bg: BlockBackground,
}

impl BlockBuilder {
    spec fn model(&self) -> ParseState {
        ParseState {
            blocks: block_views(self.blocks@),
            text: self.cur_text@,
            chunks: self.chunks@,
            stack: self.stack@,
            last_chunk: self.last_chunk,
            bg: self.bg,
        }
    }

    fn add_chunk_here(&mut self)
        ensures
            final(self).model() == add_chunk_step(old(self).model()),
    {
        let len = self.cur_text.as_str().len();
        add_chunk(&mut self.chunks, &mut self.stack, &mut self.last_chunk, len);
    }

    fn open(&mut self, kind: TextKind, bg: BlockBackground)
        ensures
            final(self).model() == open_style(old(self).model(), kind, bg),
    {
        if self.stack.len() == 0 {
            self.cur_text = String::new();
            self.chunks = Vec::new();
            self.last_chunk = 0;
            self.bg = bg;
            self.stack.push(kind);
            assert(self.stack@ == seq![kind]);
        } else {
            self.add_chunk_here();
            self.stack.push(kind);
        }
    }

    fn close(&mut self)
        ensures
            final(self).model() == close_style(old(self).model()),
    {
        self.add_chunk_here();
        if self.stack.len() > 0 {
            self.stack.pop();
        }
    }

    fn end_if_top(&mut self)
        ensures
            final(self).model() == end_block_step(old(self).model()),
    {
        if self.stack.len() == 0 {
            let ghost before = self.blocks@;
            let ghost view = TextBlockView { content: self.cur_text@, chunks: self.chunks@, bg: self.bg };
            end_block(&mut self.blocks, &mut self.cur_text, &mut self.chunks, self.bg);
            assert(block_views(self.blocks@) == block_views(before).push(view));
        }
    }

    fn push_text(&mut self, t: &str)
        ensures
            final(self).model() == (ParseState { text: old(self).model().text + t@, ..old(self).model() }),
    {
        self.cur_text.append(t);
    }
}

/// Builds the text blocks that a sequence of markdown events describes.
pub fn blocks_from_events(events: &Vec<MdEvent>) -> (r: Vec<TextBlock>)
    ensures
        block_views(r@) == events_run(initial_parse_state(), events@).blocks,
{
    let mut b = BlockBuilder {
        blocks: Vec::new(),
        cur_text: String::new(),
        chunks: Vec::new(),
        stack: Vec::new(),
        last_chunk: 0,
        bg: BlockBackground::NoBackground,
    };
    assert(block_views(b.blocks@) == Seq::<TextBlockView>::empty());
    assert(events@.take(0) == Seq::<MdEvent>::empty());
    let mut i: usize = 0;
    while i < events.len()
        invariant
            0 <= i <= events@.len(),
            b.model() == events_run(initial_parse_state(), events@.take(i as int)),
        decreases events@.len() - i,
    {
        let ghost before = b.model();
        match &events[i] {
            MdEvent::Text(t) => {
                b.push_text(t.as_str());
            },
            MdEvent::Start(tag) => {
                match tag_style(tag.as_str()) {
                    Some(kind) => {
                        let bg = if starts_with(tag.as_str(), "CodeBlock(") {
                            BlockBackground::Code
                        } else {
                            BlockBackground::NoBackground
                        };
                        b.open(kind, bg);
                    },
                    None => {},
                }
                if same_text(tag.as_str(), "Item") {
                    b.push_text("- ");
                }
            },
            MdEvent::End(tag) => {
                if same_text(tag.as_str(), "Item") {
                    b.push_text("\n");
                }
                match tag_style(tag.as_str()) {
                    Some(_) => b.close(),
                    None => {},
                }
                b.end_if_top();
            },
            MdEvent::Code(t) => {
                b.open(TextKind::ParagraphCode, BlockBackground::NoBackground);
                b.push_text(t.as_str());
                b.close();
                b.end_if_top();
            },
            MdEvent::Other => {},
        }
        assert(events@.take(i as int + 1).drop_last() == events@.take(i as int));
        assert(b.model() == event_step(before, events@[i as int]));
        i = i + 1;
    }
    assert(events@.take(i as int) == events@);
    b.blocks
}

/// Parses a markdown document into text blocks.
pub fn parse_markdown(document: &str) -> (r: Vec<TextBlock>)
    ensures
        block_views(r@) == events_run(initial_parse_state(), markdown_events_of(document@)).blocks,
{
    let events = markdown_events(document);
    blocks_from_events(&events)
}

} // verus!
