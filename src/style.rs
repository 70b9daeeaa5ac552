//! Resolved visual styles: colors, font handles, sizes and the per-kind
//! style table.
use vstd::prelude::*;
use crate::TextKind;

verus! {

/// An 8-bit RGBA color.
#[derive(Debug, Clone, Copy, PartialEq, Eq, Structural)]
pub struct Color {
    pub r: u8,
    pub g: u8,
    pub b: u8,
    pub a: u8,
}

/// A handle that the rendering backend gave out (a font, a font instance
/// or an image): its id namespace and the id within it.
#[derive(Debug, Clone, Copy, PartialEq, Eq, Hash, Structural)]
pub struct ResourceKey {
    pub namespace: u32,
    pub id: u32,
}

/// How one kind of text looks. Sizes are in app units.
#[derive(Debug, Clone, Copy, PartialEq, Eq)]
pub struct ChunkStyle {
    pub color: Color,
    pub size: u32,
    pub line_height: u32,
    /// Index into the theme's font list.
    pub font: usize,
    pub bg_color: Option<Color>,
}

/// A style together with what the backend made of it: the font, the font
/// instance at the style's size, and the advance of one character.
#[derive(Debug, Clone, Copy, PartialEq, Eq)]
pub struct BuiltChunkStyle {
    pub style: ChunkStyle,
    pub font_key: ResourceKey,
    pub font_instance: ResourceKey,
    pub char_width: u32,
}

pub const KIND_COUNT: usize = 7;

/// Position of a kind in a style table.
pub open spec fn kind_index(kind: TextKind) -> int {
    match kind {
        TextKind::Header1 => 0,
        TextKind::Header2 => 1,
        TextKind::Paragraph => 2,
        TextKind::ParagraphBold => 3,
        TextKind::ParagraphItalic => 4,
        TextKind::ParagraphCode => 5,
        TextKind::Link => 6,
    }
}

impl TextKind {
    pub fn index(&self) -> (r: usize)
        ensures
            r == kind_index(*self),
            r < KIND_COUNT,
    {
        match self {
            TextKind::Header1 => 0,
            TextKind::Header2 => 1,
            TextKind::Paragraph => 2,
            TextKind::ParagraphBold => 3,
            TextKind::ParagraphItalic => 4,
            TextKind::ParagraphCode => 5,
            TextKind::Link => 6,
        }
    }
}

/// The style table with every style resolved against the backend.
#[derive(Debug, Clone)]
pub struct BuiltTheme {
    pub bg_color: Color,
    pub code_bg: Color,
    /// One style per kind, at the kind's index.
    pub styles: Vec<BuiltChunkStyle>,
}

impl BuiltTheme {
    pub open spec fn wf(&self) -> bool {
        self.styles@.len() == KIND_COUNT
    }

    pub open spec fn style_of(&self, kind: TextKind) -> BuiltChunkStyle {
        self.styles@[kind_index(kind)]
    }

    pub fn style(&self, kind: TextKind) -> (r: &BuiltChunkStyle)
        requires
            self.wf(),
        ensures
            *r == self.style_of(kind),
    {
        &self.styles[kind.index()]
    }
}

/// The largest magnitude an app-unit value may have.
pub const MAX_AU: i32 = 1073741823;

/// `v` clamped to the range of app-unit values.
pub open spec fn au_clamp(v: int) -> int {
    if v < -MAX_AU {
        -MAX_AU as int
    } else if v > MAX_AU {
        MAX_AU as int
    } else {
        v
    }
}

/// Relies on `app_units::Au::from_px`: `px` pixels in app units, sixty to
/// the pixel, saturated to the range that `Au` allows.
#[verifier::external_body]
fn au_from_px(px: i32) -> (r: i32)
    ensures
        r == au_clamp(px * 60),
{
    app_units::Au::from_px(px).0
}

/// An opaque color.
pub fn rgb(r: u8, g: u8, b: u8) -> (c: Color)
    ensures
        c == (Color { r, g, b, a: 255 }),
{
    Color { r, g, b, a: 255 }
}

pub open spec fn text_color() -> Color {
    Color { r: 101, g: 123, b: 131, a: 255 }
}

pub open spec fn link_color() -> Color {
    Color { r: 38, g: 139, b: 210, a: 255 }
}

pub open spec fn header_color() -> Color {
    Color { r: 88, g: 110, b: 117, a: 255 }
}

pub open spec fn page_color() -> Color {
    Color { r: 253, g: 246, b: 227, a: 255 }
}

pub open spec fn code_color() -> Color {
    Color { r: 238, g: 232, b: 213, a: 255 }
}

/// Regular, bold and italic faces, in that order.
pub const FONT_COUNT: usize = 3;

/// The style of each kind of text, sizes in app units.
pub open spec fn default_style(kind: TextKind) -> ChunkStyle {
    match kind {
        TextKind::Paragraph => ChunkStyle {
            color: text_color(),
            size: 840,
            line_height: 960,
            font: 0,
            bg_color: None,
        },
        TextKind::ParagraphCode => ChunkStyle {
            color: text_color(),
            size: 840,
            line_height: 960,
            font: 0,
            bg_color: Some(code_color()),
        },
        TextKind::ParagraphBold => ChunkStyle {
            color: text_color(),
            size: 840,
            line_height: 960,
            font: 1,
            bg_color: None,
        },
        TextKind::ParagraphItalic => ChunkStyle {
            color: text_color(),
            size: 840,
            line_height: 960,
            font: 2,
            bg_color: None,
        },
        TextKind::Link => ChunkStyle {
            color: link_color(),
            size: 840,
            line_height: 960,
            font: 0,
            bg_color: None,
        },
        TextKind::Header1 => ChunkStyle {
            color: header_color(),
            size: 1500,
            line_height: 1620,
            font: 1,
            bg_color: None,
        },
        TextKind::Header2 => ChunkStyle {
            color: header_color(),
            size: 1080,
            line_height: 1200,
            font: 1,
            bg_color: None,
        },
    }
}

/// The page's look: background colors, font files, and a style per kind.
#[derive(Debug, Clone)]
pub struct Theme {
    pub bg_color: Color,
    /// Font files, relative to the resource folder.
    pub fonts: Vec<&'static str>,
    /// One style per kind, at the kind's index.
    pub styles: Vec<ChunkStyle>,
    pub code_bg: Color,
}

/// A style of `px`-pixel text with `gap` pixels of leading.
fn pixel_style(color: Color, px: i32, gap: i32, font: usize, bg_color: Option<Color>) -> (r: ChunkStyle)
    requires
        0 <= px <= 1000,
        0 <= gap <= 1000,
    ensures
        r == (ChunkStyle {
            color,
            size: (px * 60) as u32,
            line_height: ((px + gap) * 60) as u32,
            font,
            bg_color,
        }),
{
    let size = au_from_px(px);
    let line_height = au_from_px(px + gap);
    ChunkStyle { color, size: size as u32, line_height: line_height as u32, font, bg_color }
}

impl Theme {
    pub open spec fn wf(&self) -> bool {
        &&& self.styles@.len() == KIND_COUNT
        &&& forall|i: int| 0 <= i < KIND_COUNT ==> #[trigger] self.styles@[i].font < self.fonts@.len()
    }

    pub open spec fn style_of(&self, kind: TextKind) -> ChunkStyle {
        self.styles@[kind_index(kind)]
    }

    /// The built-in theme: monospaced faces on a light page.
    pub fn new() -> (r: Self)
        ensures
            r.wf(),
            r.fonts@.len() == FONT_COUNT,
            r.fonts@[0]@ == "Roboto_Mono/RobotoMono-Regular.ttf"@,
            r.fonts@[1]@ == "Roboto_Mono/RobotoMono-Bold.ttf"@,
            r.fonts@[2]@ == "Roboto_Mono/RobotoMono-Italic.ttf"@,
            forall|k: TextKind| #[trigger] r.style_of(k) == default_style(k),
            r.bg_color == page_color(),
            r.code_bg == code_color(),
    {
        let text = rgb(101, 123, 131);
        let link = rgb(38, 139, 210);
        let header = rgb(88, 110, 117);
        let code_bg = rgb(238, 232, 213);
        let mut styles: Vec<ChunkStyle> = Vec::new();
        styles.push(pixel_style(header, 25, 2, 1, None));
        styles.push(pixel_style(header, 18, 2, 1, None));
        styles.push(pixel_style(text, 14, 2, 0, None));
        styles.push(pixel_style(text, 14, 2, 1, None));
        styles.push(pixel_style(text, 14, 2, 2, None));
        styles.push(pixel_style(text, 14, 2, 0, Some(code_bg)));
        styles.push(pixel_style(link, 14, 2, 0, None));
        let fonts = vec![
            "Roboto_Mono/RobotoMono-Regular.ttf",
            "Roboto_Mono/RobotoMono-Bold.ttf",
            "Roboto_Mono/RobotoMono-Italic.ttf",
        ];
        let r = Theme { bg_color: rgb(253, 246, 227), fonts, styles, code_bg };
        assert forall|k: TextKind| #[trigger] r.style_of(k) == default_style(k) by {
            match k {
                TextKind::Header1 => {},
                TextKind::Header2 => {},
                TextKind::Paragraph => {},
                TextKind::ParagraphBold => {},
                TextKind::ParagraphItalic => {},
                TextKind::ParagraphCode => {},
                TextKind::Link => {},
            }
        }
        r
    }
}

impl BuiltTheme {
    /// Resolves `theme` against the backend's results: `font_keys[f]` is
    /// the loaded font file `f`; for the kind at index `k`,
    /// `font_instances[k]` is its font at its size and `char_widths[k]` the
    /// advance of one character in it.
    pub fn new(
        theme: &Theme,
        font_keys: &Vec<ResourceKey>,
        font_instances: &Vec<ResourceKey>,
        char_widths: &Vec<u32>,
    ) -> (r: Self)
        requires
            theme.wf(),
            font_keys@.len() == theme.fonts@.len(),
            font_instances@.len() == KIND_COUNT,
            char_widths@.len() == KIND_COUNT,
        ensures
            r.wf(),
            r.bg_color == theme.bg_color,
            r.code_bg == theme.code_bg,
            forall|i: int|
                0 <= i < KIND_COUNT ==> #[trigger] r.styles@[i] == (BuiltChunkStyle {
                    style: theme.styles@[i],
                    font_key: font_keys@[theme.styles@[i].font as int],
                    font_instance: font_instances@[i],
                    char_width: char_widths@[i],
                }),
    {
        let mut styles: Vec<BuiltChunkStyle> = Vec::new();
        let mut i: usize = 0;
        while i < KIND_COUNT
            invariant
                theme.wf(),
                font_keys@.len() == theme.fonts@.len(),
                font_instances@.len() == KIND_COUNT,
                char_widths@.len() == KIND_COUNT,
                0 <= i <= KIND_COUNT,
                styles@.len() == i,
                forall|j: int|
                    0 <= j < i ==> #[trigger] styles@[j] == (BuiltChunkStyle {
                        style: theme.styles@[j],
                        font_key: font_keys@[theme.styles@[j].font as int],
                        font_instance: font_instances@[j],
                        char_width: char_widths@[j],
                    }),
            decreases KIND_COUNT - i,
        {
            let style = theme.styles[i];
            assert(style.font < theme.fonts@.len());
            styles.push(
                BuiltChunkStyle {
                    style,
                    font_key: font_keys[style.font],
                    font_instance: font_instances[i],
                    char_width: char_widths[i],
                },
            );
            i = i + 1;
        }
        BuiltTheme { bg_color: theme.bg_color, code_bg: theme.code_bg, styles }
    }
}

} // verus!
