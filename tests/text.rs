use rib::epub::index::join_creators;
use rib::cli::{Cli, CliStyleCommands};
use rib::config::Config;
use rib::css::{CssBlock, CssBlockContents, CssFile};
use rib::paths::{contain_path, decimal_string, join_path, make_pathbuf_separators_consistent, zero_padded_decimal};
use rib::style::{RawStylesheet, Style, Stylesheet, StylesheetValue};

fn no_overrides() -> CliStyleCommands {
    CliStyleCommands {
        text_color: None,
        link_color: None,
        background_color: None,
        margin_size: None,
        max_image_height: None,
        max_image_width: None,
        text_color_override: None,
        link_color_override: None,
        background_color_override: None,
        margin_size_override: None,
        max_image_height_override: None,
        max_image_width_override: None,
    }
}

fn empty_sheet() -> Stylesheet {
    Stylesheet {
        text_color: None,
        link_color: None,
        background_color: None,
        margin_size: None,
        max_image_height: None,
        max_image_width: None,
    }
}

#[test]
fn block_renders_lines_with_tabs() {
    let b = CssBlock::new(
        "body".to_string(),
        vec![CssBlockContents::line("a: 1;".to_string()), CssBlockContents::line("b: 2;".to_string())],
    );
    assert_eq!(b.to_string(0), Some("body {\n\ta: 1;\n\tb: 2;\n}".to_string()));
    assert_eq!(b.to_string(1), Some("\tbody {\n\t\ta: 1;\n\t\tb: 2;\n\t}".to_string()));
}

#[test]
fn empty_blocks_render_nothing() {
    assert_eq!(CssBlock::empty().to_string(0), None);
    let nested_empty = CssBlock::new("a".to_string(), vec![CssBlockContents::Block(CssBlock::empty())]);
    assert!(nested_empty.is_empty());
    assert_eq!(nested_empty.to_string(0), None);
    assert_eq!(CssFile::new(vec![CssBlock::empty()]).to_string(), None);
}

#[test]
fn nested_blocks_are_separated_by_blank_lines() {
    let inner = CssBlock::new("p".to_string(), vec![CssBlockContents::line("x: 1;".to_string())]);
    let outer = CssBlock::new(
        "@media print".to_string(),
        vec![
            CssBlockContents::Block(inner),
            CssBlockContents::line("y: 2;".to_string()),
        ],
    );
    assert!(!outer.is_empty());
    assert_eq!(outer.to_string(0), Some("@media print {\n\tp {\n\t\tx: 1;\n\t}\n\n\ty: 2;\n}".to_string()));
}

#[test]
fn file_joins_nonempty_blocks() {
    let f = CssFile::new(vec![
        CssBlock::new("a".to_string(), vec![CssBlockContents::line("x;".to_string())]),
        CssBlock::empty(),
        CssBlock::new("b".to_string(), vec![CssBlockContents::line("y;".to_string())]),
    ]);
    assert_eq!(f.to_string(), Some("a {\n\tx;\n}\n\nb {\n\ty;\n}\n".to_string()));
}

#[test]
fn decimal_text_and_padding() {
    assert_eq!(decimal_string(0), "0");
    assert_eq!(decimal_string(18446744073709551615), "18446744073709551615");
    assert_eq!(zero_padded_decimal(42, 5), "00042");
    assert_eq!(zero_padded_decimal(123456, 3), "123456");
    assert_eq!(zero_padded_decimal(7, 20), "00000000000000000007");
}

#[test]
fn separators_become_slashes() {
    assert_eq!(make_pathbuf_separators_consistent("OEBPS\\text//./ch1.xhtml"), "OEBPS/text/ch1.xhtml");
    assert_eq!(make_pathbuf_separators_consistent("/abs/path/"), "/abs/path");
    assert_eq!(make_pathbuf_separators_consistent(""), "");
    assert_eq!(join_path("", "x"), "x");
    assert_eq!(join_path("a/b", "x"), "a/b/x");
}

#[test]
fn resource_escaping_the_root_is_rejected() {
    assert_eq!(contain_path("lib/book/raw", "../../evil.txt"), None);
    assert_eq!(contain_path("lib/book/raw", "OEBPS/../../evil.txt"), None);
    assert_eq!(contain_path("lib/book/raw", "/etc/passwd"), None);
    assert_eq!(contain_path("lib/book/raw", "\\windows\\evil"), None);
}

#[test]
fn resource_inside_the_root_is_kept() {
    assert_eq!(contain_path("lib/book/raw", "OEBPS/../mimetype"), Some("lib/book/raw/mimetype".to_string()));
    assert_eq!(contain_path("lib/book/raw", "OEBPS/./text/ch1.xhtml"), Some("lib/book/raw/OEBPS/text/ch1.xhtml".to_string()));
}

#[test]
fn overrides_apply_field_by_field() {
    let mut sheet = empty_sheet();
    sheet.text_color = Some(StylesheetValue::new("red".to_string(), true));
    let mut o = no_overrides();
    assert!(o.is_undefined());
    o.text_color_override = Some(false);
    o.link_color = Some("blue".to_string());
    assert!(!o.is_undefined());
    let r = sheet.with_overrides(&o);
    assert_eq!(r.text_color, Some(StylesheetValue::new("red".to_string(), false)));
    assert_eq!(r.link_color, Some(StylesheetValue::new("blue".to_string(), false)));
    assert_eq!(r.background_color, None);
    assert!(!r.is_null());
    assert!(empty_sheet().is_null());
}

#[test]
fn value_overrides_keep_flag() {
    let v = StylesheetValue::new("1em".to_string(), true);
    let r = v.with_overrides(&Some("2em".to_string()), None);
    assert_eq!(r, StylesheetValue::new("2em".to_string(), true));
}

#[test]
fn raw_stylesheet_pairs_values_with_flags() {
    let raw = RawStylesheet {
        text_color: Some("red".to_string()),
        link_color: None,
        background_color: Some("black".to_string()),
        margin_size: None,
        max_image_height: None,
        max_image_width: None,
        text_color_override: true,
        link_color_override: true,
        background_color_override: false,
        margin_size_override: false,
        max_image_height_override: false,
        max_image_width_override: false,
    };
    let s = Stylesheet::from(raw);
    assert_eq!(s.text_color, Some(StylesheetValue::new("red".to_string(), true)));
    assert_eq!(s.link_color, None);
    assert_eq!(s.background_color, Some(StylesheetValue::new("black".to_string(), false)));
}

#[test]
fn style_basics() {
    let raw = Style::raw();
    assert!(!raw.include_index && !raw.inject_navigation && raw.stylesheet.is_none());
    assert!(raw.uses_raw_contents_dir());
    let d = Style::default();
    assert!(d.include_index && d.inject_navigation);
    assert!(!d.uses_raw_contents_dir());
    assert_ne!(d, raw);
    assert_eq!(d.text_color(), None);
    let mut s = Style::raw();
    let mut sheet = empty_sheet();
    sheet.margin_size = Some(StylesheetValue::new("3em".to_string(), false));
    s.stylesheet = Some(sheet);
    assert!(!s.uses_raw_contents_dir());
    assert_eq!(s.margin_size().map(|v| v.value.clone()), Some("3em".to_string()));
    assert_eq!(s.max_image_width(), None);
    assert_eq!(s.link_color(), None);
    assert_eq!(s.background_color(), None);
    assert_eq!(s.max_image_height(), None);
}

fn cli_with(styles: CliStyleCommands, raw: bool) -> Cli {
    Cli {
        subcommand: None,
        paths: vec![],
        browser: None,
        include_index: None,
        inject_navigation: Some(false),
        stylesheets: vec![],
        styles,
        raw,
    }
}

#[test]
fn requested_style_from_the_command_line() {
    let plain = cli_with(no_overrides(), false).requested_style();
    assert!(plain.include_index);
    assert!(!plain.inject_navigation);
    assert!(plain.stylesheet.is_none());
    let mut o = no_overrides();
    o.background_color = Some("black".to_string());
    o.background_color_override = Some(true);
    let styled = cli_with(o, false).requested_style();
    let sheet = styled.stylesheet.unwrap();
    assert_eq!(sheet.background_color, Some(StylesheetValue::new("black".to_string(), true)));
    assert_eq!(sheet.text_color, None);
    let mut o = no_overrides();
    o.text_color = Some("red".to_string());
    assert_eq!(cli_with(o, true).requested_style(), Style::raw());
}

#[test]
fn browser_choice_prefers_the_command_line() {
    let mut c = Config::default();
    assert_eq!(c.max_library_books, None);
    assert_eq!(c.browser(&None), None);
    c.default_browser = Some("lynx".to_string());
    assert_eq!(c.browser(&None), Some("lynx".to_string()));
    assert_eq!(c.browser(&Some("w3m".to_string())), Some("w3m".to_string()));
}

#[test]
fn creators_are_joined_with_ampersands() {
    assert_eq!(join_creators(&vec!["A".to_string()]), "A");
    assert_eq!(join_creators(&vec!["A".to_string(), "B".to_string(), "C".to_string()]), "A & B & C");
}
