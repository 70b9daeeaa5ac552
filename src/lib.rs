//! Text layout for a markdown document viewer: the document model, the
//! markdown front end that fills it, the style table, and the greedy
//! line builder that turns styled chunks into measured lines of glyphs.
//!
//! Every length in the layout is an integer count of app units
//! (a sixtieth of a pixel).
use vstd::prelude::*;
use vstd::utf8::{encode_utf8, is_char_boundary};
use vstd::string::StringSliceAdditionalSpecFns;

pub mod document;
pub mod draw;
pub mod image;
pub mod layout;
pub mod line_fit;
pub mod markdown;
pub mod style;

verus! {

#[derive(Debug, Hash, PartialEq, Eq, Clone, Copy)]
pub struct ResourceId {
    id: usize,
}

#[derive(Debug, Hash, PartialEq, Eq, Clone, Copy)]
pub struct ResourceLink {
    id: ResourceId,
    size: usize,
}

#[derive(Debug, Hash, PartialEq, Eq, Clone)]
pub struct PageHeader {
    blocks: Vec<BlockHeader>,
}

#[derive(Debug, Hash, PartialEq, Eq, Clone)]
pub struct BlockHeader {
    id: ResourceLink,
}

/// One block of text: a string and the styled chunks that cover it.
#[derive(Debug, Hash, PartialEq, Eq, Clone)]
pub struct TextBlock {
    pub content: String,
    pub chunks: Vec<Chunk>,
    pub bg: BlockBackground,
}

/// A text block as a value: its characters, chunks and background.
pub struct TextBlockView {
    pub content: Seq<char>,
    pub chunks: Seq<Chunk>,
    pub bg: BlockBackground,
}

impl View for TextBlock {
    type V = TextBlockView;

    open spec fn view(&self) -> TextBlockView {
        TextBlockView { content: self.content@, chunks: self.chunks@, bg: self.bg }
    }
}

/// The longest block text that 16-bit chunk offsets can address.
pub const MAX_BLOCK_BYTES: usize = 65535;

impl TextBlock {
    /// The UTF-8 bytes of the content.
    pub open spec fn bytes(&self) -> Seq<u8> {
        encode_utf8(self.content@)
    }

    /// The content fits 16-bit offsets, and the chunks are in increasing
    /// order, do not overlap, and start and end on character boundaries.
    pub open spec fn wf(&self) -> bool {
        let b = self.bytes();
        let cs = self.chunks@;
        &&& b.len() <= MAX_BLOCK_BYTES
        &&& forall|i: int|
            0 <= i < cs.len() ==> {
                &&& cs[i].start <= cs[i].end <= b.len()
                &&& is_char_boundary(b, cs[i].start as int)
                &&& is_char_boundary(b, cs[i].end as int)
            }
        &&& forall|i: int| 0 <= i < cs.len() - 1 ==> cs[i].end <= #[trigger] cs[i + 1].start
    }

    /// Whether the block is well formed (see `wf`).
    pub fn is_well_formed(&self) -> (r: bool)
        requires
            self.bytes().len() <= usize::MAX,
        ensures
            r == self.wf(),
    {
        let text = self.content.as_str();
        let len = text.len();
        proof {
            assert(text.spec_bytes() == self.bytes());
        }
        if len > MAX_BLOCK_BYTES {
            return false;
        }
        let mut i: usize = 0;
        while i < self.chunks.len()
            invariant
                text@ == self.content@,
                len == self.bytes().len(),
                len <= MAX_BLOCK_BYTES,
                0 <= i <= self.chunks@.len(),
                forall|j: int|
                    0 <= j < i ==> {
                        &&& self.chunks@[j].start <= self.chunks@[j].end <= len
                        &&& is_char_boundary(self.bytes(), self.chunks@[j].start as int)
                        &&& is_char_boundary(self.bytes(), self.chunks@[j].end as int)
                    },
                forall|j: int| 0 <= j < i - 1 ==> self.chunks@[j].end <= #[trigger] self.chunks@[j + 1].start,
            decreases self.chunks@.len() - i,
        {
            let c = self.chunks[i];
            if c.start > c.end || c.end as usize > len {
                return false;
            }
            if !text.is_char_boundary(c.start as usize) || !text.is_char_boundary(c.end as usize) {
                return false;
            }
            if i > 0 && self.chunks[i - 1].end > c.start {
                let k = i - 1;
                assert(self.chunks@[k as int + 1] == c);
                return false;
            }
            i = i + 1;
        }
        true
    }
}

#[derive(Debug, Hash, PartialEq, Eq, Clone)]
pub struct ImageBlock {
    pub path: String,
}

#[derive(Debug, Hash, PartialEq, Eq, Clone)]
pub enum Block {
    Text(TextBlock),
    Image(ImageBlock),
}

/// A styled byte range `start..end` of a block's content.
#[derive(Debug, Hash, PartialEq, Eq, Clone, Copy)]
pub struct Chunk {
    pub start: u16,
    pub end: u16,
    pub kind: TextKind,
}

#[derive(Debug, Hash, PartialEq, Eq, Clone, Copy)]
pub enum BlockBackground {
    NoBackground,
    Code,
}

#[derive(Debug, Hash, PartialEq, Eq, Clone, Copy)]
pub enum TextKind {
    Header1,
    Header2,
    Paragraph,
    ParagraphBold,
    ParagraphItalic,
    ParagraphCode,
    Link,
}

} // verus!
