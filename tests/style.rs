use fasternet::style::{rgb, BuiltTheme, ResourceKey, Theme};
use fasternet::TextKind;

#[test]
fn theme_sizes_are_in_app_units() {
    let theme = Theme::new();
    let p = theme.styles[TextKind::Paragraph.index()];
    assert_eq!(p.size, 14 * 60);
    assert_eq!(p.line_height, 16 * 60);
    assert_eq!(p.font, 0);
    assert_eq!(p.color, rgb(101, 123, 131));
    let h1 = theme.styles[TextKind::Header1.index()];
    assert_eq!((h1.size, h1.line_height, h1.font), (25 * 60, 27 * 60, 1));
    let h2 = theme.styles[TextKind::Header2.index()];
    assert_eq!((h2.size, h2.line_height), (18 * 60, 20 * 60));
    assert_eq!(theme.styles[TextKind::ParagraphItalic.index()].font, 2);
    assert_eq!(theme.styles[TextKind::Link.index()].color, rgb(38, 139, 210));
    assert_eq!(theme.styles[TextKind::ParagraphCode.index()].bg_color, Some(rgb(238, 232, 213)));
    assert_eq!(theme.fonts.len(), 3);
    assert_eq!(theme.bg_color, rgb(253, 246, 227));
}

#[test]
fn built_theme_resolves_each_kind() {
    let theme = Theme::new();
    let fonts: Vec<ResourceKey> = (0..3).map(|i| ResourceKey { namespace: 0, id: 10 + i }).collect();
    let instances: Vec<ResourceKey> = (0..7).map(|i| ResourceKey { namespace: 0, id: 20 + i }).collect();
    let widths: Vec<u32> = (0..7).map(|i| 500 + i).collect();
    let built = BuiltTheme::new(&theme, &fonts, &instances, &widths);
    let bold = built.style(TextKind::ParagraphBold);
    assert_eq!(bold.font_key, ResourceKey { namespace: 0, id: 11 });
    assert_eq!(bold.font_instance, ResourceKey { namespace: 0, id: 23 });
    assert_eq!(bold.char_width, 503);
    assert_eq!(bold.style, theme.styles[3]);
    assert_eq!(built.code_bg, theme.code_bg);
}

#[test]
fn kind_indices_are_distinct() {
    let kinds = [
        TextKind::Header1,
        TextKind::Header2,
        TextKind::Paragraph,
        TextKind::ParagraphBold,
        TextKind::ParagraphItalic,
        TextKind::ParagraphCode,
        TextKind::Link,
    ];
    let idx: Vec<usize> = kinds.iter().map(|k| k.index()).collect();
    assert_eq!(idx, vec![0, 1, 2, 3, 4, 5, 6]);
}
