use rib::epub::{get_epub_creators, get_epub_nonspine_resource_paths, get_epub_spine_items, BookError};
use rib::epub::index::{generate_stylesheet as index_stylesheet, EpubIndex, IndexError};
use rib::epub::navigation::{generate_stylesheet as navigation_stylesheet, navigation_bar, create_navigation_wrapper};
use rib::epub::xhtml::{adjust_xhtml_source, generate_stylesheets, wrap_xhtml_source_for_navigation, XhtmlError};
use rib::epub::{EpubInfo, EpubRenditionInfo, EpubSpineItem, EpubSpineItemFormat, EpubTocItem};
use rib::library::Timestamp;
use rib::style::{Style, Stylesheet, StylesheetValue};

fn item(path: &str, linear: bool) -> EpubSpineItem {
    EpubSpineItem { path: path.to_string(), format: EpubSpineItemFormat::Xhtml, linear }
}

fn toc(label: &str, path: &str, level: u64, children: Vec<EpubTocItem>) -> EpubTocItem {
    EpubTocItem {
        label: label.to_string(),
        path_without_fragment: path.to_string(),
        path_with_fragment: path.to_string(),
        fragment: None,
        children,
        nesting_level: level,
    }
}

fn abc() -> Vec<EpubSpineItem> {
    vec![item("A.xhtml", true), item("B.xhtml", true), item("C.xhtml", true)]
}

fn sheet_with(text: Option<StylesheetValue>, link: Option<StylesheetValue>) -> Style {
    Style {
        include_index: true,
        inject_navigation: true,
        stylesheet: Some(Stylesheet {
            text_color: text,
            link_color: link,
            background_color: None,
            margin_size: None,
            max_image_height: None,
            max_image_width: None,
        }),
    }
}

fn book(spine: Vec<EpubSpineItem>, contents: Vec<EpubTocItem>) -> EpubInfo {
    EpubInfo {
        id: "id".to_string(),
        title: "A Book".to_string(),
        creators: vec!["Ann".to_string(), "Bo".to_string()],
        cover_path: Some("cover.jpg".to_string()),
        first_linear_spine_item_path: spine[0].path.clone(),
        last_linear_spine_item_path: spine[spine.len() - 1].path.clone(),
        path_from_library_root: "book".to_string(),
        added_time: Timestamp { seconds: 0, nanos: 0 },
        last_opened_time: Timestamp { seconds: 0, nanos: 0 },
        last_opened_styles: vec![],
        spine_items: spine,
        nonspine_resource_paths: vec![],
        table_of_contents: contents,
        raw_rendition: EpubRenditionInfo {
            style: Style::raw(),
            dir_path_from_library_root: "book/raw".to_string(),
            default_file_path_from_library_root: "book/raw/A.xhtml".to_string(),
            bytes: 0,
        },
        nonraw_renditions: vec![],
    }
}

#[test]
fn toc_in_spine_order_is_linear() {
    let contents = vec![toc("a", "A.xhtml", 0, vec![]), toc("b", "B.xhtml", 0, vec![]), toc("c", "C.xhtml", 0, vec![])];
    match EpubIndex::from_spine_and_toc(&abc(), &contents).unwrap() {
        EpubIndex::TocLinearRelativeToSpine(rows) => {
            assert_eq!(rows.len(), 3);
            assert_eq!(rows[1].0, 1);
            assert_eq!(rows[1].1.len(), 1);
            assert_eq!(rows[1].1[0].label, "b");
        }
        other => panic!("expected linear, got {other:?}"),
    }
}

#[test]
fn toc_out_of_spine_order_is_nonlinear() {
    let contents = vec![toc("a", "A.xhtml", 0, vec![]), toc("c", "C.xhtml", 0, vec![]), toc("b", "B.xhtml", 0, vec![])];
    match EpubIndex::from_spine_and_toc(&abc(), &contents).unwrap() {
        EpubIndex::TocNonlinearRelativeToSpine(positions, entries) => {
            assert_eq!(positions, vec![0, 1, 2]);
            let labels: Vec<&str> = entries.iter().map(|e| e.label.as_str()).collect();
            assert_eq!(labels, vec!["a", "c", "b"]);
        }
        other => panic!("expected nonlinear, got {other:?}"),
    }
}

#[test]
fn nested_toc_is_flattened_in_preorder() {
    let contents = vec![toc("a", "A.xhtml", 0, vec![toc("a1", "A.xhtml", 1, vec![]), toc("b1", "B.xhtml", 1, vec![])]), toc("c", "C.xhtml", 0, vec![])];
    match EpubIndex::from_spine_and_toc(&abc(), &contents).unwrap() {
        EpubIndex::TocLinearRelativeToSpine(rows) => {
            let labels: Vec<&str> = rows[0].1.iter().map(|e| e.label.as_str()).collect();
            assert_eq!(labels, vec!["a", "a1"]);
            assert_eq!(rows[1].1[0].nesting_level, 1);
        }
        other => panic!("expected linear, got {other:?}"),
    }
}

#[test]
fn toc_path_absent_from_spine_is_an_error() {
    let contents = vec![toc("x", "X.xhtml", 0, vec![])];
    assert_eq!(
        EpubIndex::from_spine_and_toc(&abc(), &contents).unwrap_err(),
        IndexError::TocPathNotInSpine("X.xhtml".to_string())
    );
}

#[test]
fn navigation_boundaries_of_five_linear_items() {
    let spine: Vec<EpubSpineItem> = (0..5).map(|i| item(&format!("{i}.xhtml"), true)).collect();
    let first = navigation_bar(&spine, 0, true);
    assert_eq!(first.previous, None);
    assert_eq!(first.next, Some(1));
    assert!(first.index);
    let last = navigation_bar(&spine, 4, false);
    assert_eq!(last.previous, Some(3));
    assert_eq!(last.next, None);
    assert!(!last.index);
}

#[test]
fn navigation_skips_nonlinear_items() {
    let spine = vec![item("n0", false), item("a", true), item("n1", false), item("b", true), item("n2", false)];
    let bar = navigation_bar(&spine, 1, true);
    assert_eq!(bar.previous, None);
    assert_eq!(bar.next, Some(3));
    let bar = navigation_bar(&spine, 2, true);
    assert_eq!(bar.previous, Some(1));
    assert_eq!(bar.next, Some(3));
    let bar = navigation_bar(&spine, 4, true);
    assert_eq!(bar.previous, Some(3));
    assert_eq!(bar.next, None);
}

#[test]
fn index_stylesheet_for_the_default_style() {
    assert_eq!(
        index_stylesheet(&Style::default()),
        "body {\n\ttext-align: center;\n}\n\ntable {\n\tborder-collapse: collapse;\n\tmargin-left: auto;\n\tmargin-right: auto;\n}\n\ntd {\n\tborder: 1px solid black;\n\tvertical-align: top;\n}\n\nul {\n\ttext-align: left;\n}\n"
    );
}

#[test]
fn index_stylesheet_uses_the_text_colour() {
    let s = index_stylesheet(&sheet_with(Some(StylesheetValue::new("red".to_string(), false)), None));
    assert!(s.starts_with("body {\n\ttext-align: center;\n\tcolor: red;\n}\n"));
    assert!(s.contains("td {\n\tborder: 1px solid red;\n"));
}

#[test]
fn navigation_stylesheet_has_the_bar() {
    let s = navigation_stylesheet(&Style::default());
    assert!(s.starts_with("body {\n\tmargin: 0;\n\tpadding: 0;\n\theight: 100vh;\n\twidth: 100vw;\n\toverflow: hidden;\n}\n\n#section {"));
    assert!(s.contains("\tleft: 5vh;\n\tright: 5vh;\n\twidth: calc(100vw - calc(10vh + 2.5rem));\n"));
    assert!(s.contains("#navigation:hover {\n\topacity: 1;\n}"));
    assert!(s.ends_with(".navigation-button {\n\tpadding: 0.1rem;\n\tborder: 0.1rem solid black;\n\tborder-radius: 0.2rem;\n\ttext-decoration: none;\n}\n"));
}

#[test]
fn content_stylesheets_split_by_override() {
    let style = sheet_with(
        Some(StylesheetValue::new("red".to_string(), false)),
        Some(StylesheetValue::new("blue".to_string(), true)),
    );
    let (weak, strong) = generate_stylesheets(&style);
    assert_eq!(weak, Some(":where(body) {\n\tcolor: red;\n}\n".to_string()));
    assert_eq!(strong, Some(":any-link {\n\tcolor: blue !important;\n}\n".to_string()));
    assert_eq!(generate_stylesheets(&Style::default()), (None, None));
}

const SECTION: &str = "<html xmlns=\"http://www.w3.org/1999/xhtml\"><head><title>t</title></head><body><a href=\"https://example.com/\">x</a><a href=\"B.xhtml#s\">y</a><a href=\"other.xhtml\" target=\"_top\">z</a></body></html>";

fn targets() -> Vec<(String, String)> {
    vec![("A.xhtml".to_string(), "0.xhtml".to_string()), ("B.xhtml".to_string(), "1.xhtml".to_string())]
}

#[test]
fn links_get_targets_without_navigation() {
    let out = adjust_xhtml_source(SECTION.as_bytes(), "lib/book/fp", "lib/book/fp/contents/A.xhtml", None, None, &targets(), &Style::raw()).unwrap();
    let text = String::from_utf8(out).unwrap();
    assert!(text.contains("href=\"https://example.com/\" target=\"_blank\""));
    assert!(text.contains("href=\"B.xhtml#s\" target=\"_self\""));
    assert!(text.contains("href=\"other.xhtml\" target=\"_self\""));
    assert!(!text.contains("_top"));
}

#[test]
fn links_to_spine_items_go_to_their_wrappers() {
    let out = adjust_xhtml_source(SECTION.as_bytes(), "lib/book/fp", "lib/book/fp/contents/A.xhtml", None, None, &targets(), &Style::default()).unwrap();
    let text = String::from_utf8(out).unwrap();
    assert!(text.contains("href=\"../1.xhtml#s\" target=\"_parent\""));
    assert!(text.contains("href=\"other.xhtml\" target=\"_parent\""));
    assert!(text.contains("target=\"_blank\""));
}

#[test]
fn stylesheets_are_injected_at_both_ends_of_the_head() {
    let out = adjust_xhtml_source(
        SECTION.as_bytes(),
        "lib/book/fp",
        "lib/book/fp/contents/A.xhtml",
        Some("lib/book/fp/weak.css"),
        Some("lib/book/fp/strong.css"),
        &targets(),
        &Style::raw(),
    )
    .unwrap();
    let text = String::from_utf8(out).unwrap();
    let head = text.find("<head>").unwrap();
    let weak = text.find("../weak.css").unwrap();
    let title = text.find("<title>").unwrap();
    let strong = text.find("../strong.css").unwrap();
    let end = text.find("</head>").unwrap();
    assert!(head < weak && weak < title && title < strong && strong < end);
}

#[test]
fn malformed_sections_and_links_are_errors() {
    let r = adjust_xhtml_source(b"<html><head>", "r", "r/contents/a.xhtml", None, None, &vec![], &Style::raw());
    assert!(matches!(r, Err(XhtmlError::Parse(_))));
    let bad = "<html><head></head><body><a href=\"http://[\">x</a></body></html>";
    let r = adjust_xhtml_source(bad.as_bytes(), "r", "r/contents/a.xhtml", None, None, &vec![], &Style::raw());
    assert_eq!(r, Err(XhtmlError::BadHref("http://[".to_string())));
}

#[test]
fn wrapped_sections_get_their_own_base() {
    let text = wrap_xhtml_source_for_navigation(SECTION.as_bytes(), "lib/book/fp", "contents/A.xhtml").unwrap();
    assert!(text.contains("<head><base href=\"contents/A.xhtml\""));
    let based = "<html><head><base href=\"../img/\"/></head><body/></html>";
    let text = wrap_xhtml_source_for_navigation(based.as_bytes(), "lib/book/fp", "contents/text/A.xhtml").unwrap();
    assert!(text.contains("<head><base href=\"contents/img/\""));
    let absolute = "<html><head><base href=\"https://example.com/x/\"/></head><body/></html>";
    let text = wrap_xhtml_source_for_navigation(absolute.as_bytes(), "lib/book/fp", "contents/A.xhtml").unwrap();
    assert!(text.contains("<head><base href=\"https://example.com/x/\""));
    let headless = "<html><body/></html>";
    assert_eq!(wrap_xhtml_source_for_navigation(headless.as_bytes(), "r", "a.xhtml"), Err(XhtmlError::NoHead));
}

#[test]
fn wrapper_page_of_the_first_item() {
    let spine: Vec<EpubSpineItem> = (0..5).map(|i| item(&format!("{i}.xhtml"), true)).collect();
    let b = book(spine, vec![]);
    let maps = b.get_spine_navigation_maps();
    let out = create_navigation_wrapper(&b, &maps, "lib/book/fp", 0, &Style::default(), "<p>hi</p>").unwrap();
    let text = String::from_utf8(out).unwrap();
    assert!(text.contains("<title>rib | A Book</title>"));
    assert!(text.contains("href=\"navigation_styles.css\""));
    assert!(text.contains("<a class=\"navigation-button\">Previous</a>"));
    assert!(text.contains("<a class=\"navigation-button\" href=\"index.xhtml\">Index</a>"));
    assert!(text.contains("<a class=\"navigation-button\" href=\"1.xhtml\">Next</a>"));
    assert!(text.contains("srcdoc=\"&lt;p>hi&lt;/p>\"") || text.contains("srcdoc=\"&lt;p&gt;hi&lt;/p&gt;\""));
}

#[test]
fn wrapper_page_of_the_last_item() {
    let spine: Vec<EpubSpineItem> = (0..5).map(|i| item(&format!("{i}.xhtml"), true)).collect();
    let b = book(spine, vec![]);
    let maps = b.get_spine_navigation_maps();
    let out = create_navigation_wrapper(&b, &maps, "lib/book/fp", 4, &Style::raw(), "").unwrap();
    let text = String::from_utf8(out).unwrap();
    assert!(text.contains("<a class=\"navigation-button\" href=\"3.xhtml\">Previous</a>"));
    assert!(text.contains("<button type=\"button\" disabled=\"disabled\">Next</button>"));
    assert!(!text.contains("Index"));
}

#[test]
fn index_page_lists_spine_and_contents() {
    let contents = vec![toc("Part A", "A.xhtml", 0, vec![toc("Sub", "A.xhtml", 1, vec![])]), toc("Part C", "C.xhtml", 0, vec![])];
    let b = book(abc(), contents);
    let maps = b.get_spine_navigation_maps();
    let index = EpubIndex::from_spine_and_toc(&b.spine_items, &b.table_of_contents).unwrap();
    let out = index.to_xhtml(&b, &Style::default(), "contents", &maps).unwrap();
    let text = String::from_utf8(out).unwrap();
    assert!(text.contains("<title>rib | A Book | Index</title>"));
    assert!(text.contains("<h3>Ann &amp; Bo</h3>"));
    assert!(text.contains("src=\"contents/cover.jpg\""));
    assert!(text.contains("<a href=\"0.xhtml\">Start</a>"));
    assert!(text.contains("<a href=\"2.xhtml\">End</a>"));
    assert!(text.contains("Table of Contents"));
    assert!(text.contains("<a href=\"0.xhtml\">Part A</a>"));
    assert!(text.contains("<a href=\"0.xhtml\">Sub</a>"));
    assert!(text.contains("<br"));
}

#[test]
fn raw_index_links_into_the_contents() {
    let contents = vec![toc("c", "C.xhtml", 0, vec![]), toc("a", "A.xhtml", 0, vec![])];
    let b = book(abc(), contents);
    let maps = b.get_spine_navigation_maps();
    let index = EpubIndex::from_spine_and_toc(&b.spine_items, &b.table_of_contents).unwrap();
    let text = String::from_utf8(index.to_xhtml(&b, &Style::raw(), "contents", &maps).unwrap()).unwrap();
    assert!(text.contains("<a href=\"contents/C.xhtml\">c</a>"));
    assert!(text.contains("<a href=\"contents/A.xhtml\">Start</a>"));
}

#[test]
fn toc_targets_are_resolved_against_the_root() {
    let t = EpubTocItem::from_epub_library_representation("One".to_string(), "text/ch1.xhtml#sec", vec![], 2).unwrap();
    assert_eq!(t.path_with_fragment, "text/ch1.xhtml#sec");
    assert_eq!(t.path_without_fragment, "text/ch1.xhtml");
    assert_eq!(t.fragment, Some("#sec".to_string()));
    assert_eq!(t.nesting_level, 2);
    let plain = EpubTocItem::from_epub_library_representation("Two".to_string(), "a/../b.xhtml", vec![t], 1).unwrap();
    assert_eq!(plain.path_without_fragment, "b.xhtml");
    assert_eq!(plain.fragment, None);
    let flat = plain.flattened();
    let labels: Vec<&str> = flat.iter().map(|e| e.label.as_str()).collect();
    assert_eq!(labels, vec!["Two", "One"]);
}

#[test]
fn parsed_spine_resources_and_creators() {
    let items = vec![
        ("OEBPS\\a.xhtml".to_string(), "application/xhtml+xml".to_string(), true),
        ("OEBPS/cover.svg".to_string(), "image/svg+xml".to_string(), false),
    ];
    let spine = get_epub_spine_items(&items).unwrap();
    assert_eq!(spine[0].path, "OEBPS/a.xhtml");
    assert_eq!(spine[0].format, EpubSpineItemFormat::Xhtml);
    assert_eq!(spine[1].format, EpubSpineItemFormat::Svg);
    assert!(!spine[1].linear);
    let bad = vec![("x.txt".to_string(), "text/plain".to_string(), true)];
    assert_eq!(get_epub_spine_items(&bad).unwrap_err(), BookError::UnexpectedMediaType("text/plain".to_string()));
    let resources = vec!["OEBPS/a.xhtml".to_string(), "OEBPS\\img.png".to_string(), "OEBPS/cover.svg".to_string()];
    assert_eq!(get_epub_nonspine_resource_paths(&resources, &spine), vec!["OEBPS/img.png".to_string()]);
    let metadata = vec![
        ("title".to_string(), "T".to_string()),
        ("creator".to_string(), "Ann".to_string()),
        ("creator".to_string(), "Bo".to_string()),
    ];
    assert_eq!(get_epub_creators(&metadata), vec!["Ann".to_string(), "Bo".to_string()]);
}

#[test]
fn index_page_needs_a_linear_item() {
    let mut b = book(abc(), vec![]);
    for item in b.spine_items.iter_mut() {
        item.linear = false;
    }
    let maps = b.get_spine_navigation_maps();
    let index = EpubIndex::from_spine_and_toc(&b.spine_items, &b.table_of_contents).unwrap();
    assert_eq!(index.to_xhtml(&b, &Style::default(), "contents", &maps), Err(IndexError::NoLinearItem));
}

#[test]
fn rendition_files_sit_in_the_rendition_directory() {
    let f = rib::epub::rendition_files("lib/book/fp");
    assert_eq!(f.contents, "lib/book/fp/contents");
    assert_eq!(f.index_page, "lib/book/fp/index.xhtml");
    assert_eq!(f.navigation_stylesheet, "lib/book/fp/navigation_styles.css");
    assert_eq!(f.no_override_stylesheet, "lib/book/fp/no_override_styles.css");
    assert_eq!(f.override_stylesheet, "lib/book/fp/override_styles.css");
    assert_eq!(f.index_stylesheet, "lib/book/fp/index_styles.css");
}

