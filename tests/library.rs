use rib::epub::{book_id, extraction_targets, spine_format, BookError};
use rib::epub::{EpubInfo, EpubRenditionInfo, EpubSpineItem, EpubSpineItemFormat, RenditionRequest};
use rib::library::{Library, LibraryBookInfo, Timestamp};
use rib::style::{Style, Stylesheet, StylesheetValue};

fn spine(n: usize) -> Vec<EpubSpineItem> {
    (0..n)
        .map(|i| EpubSpineItem {
            path: format!("ch{i}.xhtml"),
            format: EpubSpineItemFormat::Xhtml,
            linear: true,
        })
        .collect()
}

fn book(id: &str, seconds: i64, bytes: u64) -> EpubInfo {
    EpubInfo {
        id: id.to_string(),
        title: format!("Title of {id}"),
        creators: vec![],
        cover_path: None,
        first_linear_spine_item_path: "ch0.xhtml".to_string(),
        last_linear_spine_item_path: "ch2.xhtml".to_string(),
        path_from_library_root: id.to_string(),
        added_time: Timestamp { seconds, nanos: 0 },
        last_opened_time: Timestamp { seconds, nanos: 0 },
        last_opened_styles: vec![],
        spine_items: spine(3),
        nonspine_resource_paths: vec![],
        table_of_contents: vec![],
        raw_rendition: EpubRenditionInfo {
            style: Style::raw(),
            dir_path_from_library_root: format!("{id}/raw"),
            default_file_path_from_library_root: format!("{id}/raw/ch0.xhtml"),
            bytes,
        },
        nonraw_renditions: vec![],
    }
}

fn library_of(books: Vec<EpubInfo>) -> Library {
    let mut lib = Library::new("lib".to_string(), "lib/library_index.json".to_string());
    for b in books {
        let id = b.id.clone();
        let before = lib.books.len();
        assert_eq!(lib.register_epub_and_get_id(b), id);
        assert_eq!(lib.books.len(), before + 1);
    }
    lib
}

fn ids(lib: &Library) -> Vec<String> {
    lib.books.iter().map(|b| b.id().clone()).collect()
}

fn removed_ids(removed: &[LibraryBookInfo]) -> Vec<String> {
    removed.iter().map(|b| b.id().clone()).collect()
}

fn styled(color: &str) -> Style {
    Style {
        include_index: true,
        inject_navigation: true,
        stylesheet: Some(Stylesheet {
            text_color: Some(StylesheetValue::new(color.to_string(), false)),
            link_color: None,
            background_color: None,
            margin_size: None,
            max_image_height: None,
            max_image_width: None,
        }),
    }
}

#[test]
fn eviction_removes_the_stalest_book() {
    let mut lib = library_of(vec![book("b", 20, 10), book("a", 10, 10), book("c", 30, 10)]);
    let removed = lib.truncate(Some(2), None, &vec![]);
    assert_eq!(removed_ids(&removed), vec!["a".to_string()]);
    assert_eq!(ids(&lib), vec!["b".to_string(), "c".to_string()]);
}

#[test]
fn eviction_tie_removes_the_larger_book_first() {
    let mut lib = library_of(vec![book("small", 10, 100), book("large", 10, 200)]);
    let removed = lib.truncate(Some(1), None, &vec![]);
    assert_eq!(removed_ids(&removed), vec!["large".to_string()]);
    assert_eq!(ids(&lib), vec!["small".to_string()]);
}

#[test]
fn eviction_by_bytes_stops_when_under_budget() {
    let mut lib = library_of(vec![book("a", 1, 50), book("b", 2, 50), book("c", 3, 50)]);
    let removed = lib.truncate(None, Some(100), &vec![]);
    assert_eq!(removed_ids(&removed), vec!["a".to_string()]);
    assert_eq!(lib.size_in_bytes(), 100);
}

#[test]
fn eviction_spares_protected_books() {
    let mut lib = library_of(vec![book("a", 1, 50), book("b", 2, 50)]);
    let removed = lib.truncate(Some(0), None, &vec!["a".to_string()]);
    assert_eq!(removed_ids(&removed), vec!["b".to_string()]);
    assert_eq!(ids(&lib), vec!["a".to_string()]);
    assert!(lib.is_oversized(Some(0), None));
}

#[test]
fn eviction_does_nothing_within_budget() {
    let mut lib = library_of(vec![book("a", 1, 50), book("b", 2, 50)]);
    let removed = lib.truncate(Some(2), Some(100), &vec![]);
    assert!(removed.is_empty());
    assert_eq!(ids(&lib), vec!["a".to_string(), "b".to_string()]);
}

#[test]
fn clear_removes_named_books_then_truncates() {
    let mut lib = library_of(vec![book("a", 1, 1), book("b", 2, 1), book("c", 3, 1), book("d", 4, 1)]);
    let removed = lib.clear(Some(2), None, &vec!["c".to_string(), "zzz".to_string()]);
    assert_eq!(removed_ids(&removed), vec!["c".to_string(), "a".to_string()]);
    assert_eq!(ids(&lib), vec!["b".to_string(), "d".to_string()]);
}

#[test]
fn registering_a_known_id_is_a_no_op() {
    let mut lib = library_of(vec![book("a", 1, 1)]);
    assert_eq!(lib.register_epub_and_get_id(book("a", 5, 99)), "a");
    assert_eq!(lib.books.len(), 1);
    assert_eq!(lib.books[0].last_opened_time(), Timestamp { seconds: 1, nanos: 0 });
}

#[test]
fn record_open_updates_time() {
    let mut lib = library_of(vec![book("a", 1, 1), book("b", 2, 1)]);
    assert!(lib.record_open(&"a".to_string(), Style::raw(), Timestamp { seconds: 9, nanos: 5 }));
    assert_eq!(lib.books[0].last_opened_time(), Timestamp { seconds: 9, nanos: 5 });
    assert!(!lib.record_open(&"x".to_string(), Style::raw(), Timestamp { seconds: 9, nanos: 5 }));
}

#[test]
fn remove_book_hands_it_back() {
    let mut lib = library_of(vec![book("a", 1, 1), book("b", 2, 1)]);
    let removed = lib.remove_book(&"a".to_string());
    assert_eq!(removed.id(), "a");
    assert_eq!(ids(&lib), vec!["b".to_string()]);
}

#[test]
fn open_book_raw_gives_the_raw_rendition() {
    let mut lib = library_of(vec![book("a", 1, 7)]);
    let r = lib.open_book_raw(&"a".to_string(), Timestamp { seconds: 3, nanos: 0 }).unwrap();
    assert_eq!(r.file_path_from_library_root, "a/raw/ch0.xhtml");
    assert_eq!(r.bytes, 7);
    let request = r.open_in_browser(&"/home/u/lib".to_string(), &Some("firefox".to_string()));
    assert_eq!(request.path, "/home/u/lib/a/raw/ch0.xhtml");
    assert_eq!(request.browser, Some("firefox".to_string()));
    assert!(lib.open_book_raw(&"zzz".to_string(), Timestamp { seconds: 3, nanos: 0 }).is_none());
}

#[test]
fn internal_paths_avoid_other_books() {
    let mut other = book("x", 1, 1);
    other.path_from_library_root = "abc".to_string();
    let lib = library_of(vec![other]);
    assert_eq!(lib.internal_path_for_sanitized(&"abc".to_string(), &"abc".to_string()), "abc_2");
    assert_eq!(lib.internal_path_for_sanitized(&"x".to_string(), &"abc".to_string()), "abc");
    assert_eq!(lib.internal_path_for_sanitized(&"q".to_string(), &"q".to_string()), "q");
}

#[test]
fn internal_path_is_file_name_safe() {
    let lib = library_of(vec![]);
    let p = lib.get_internal_path_from_id(&"urn:isbn/123".to_string());
    assert!(!p.contains('/'));
    assert!(!p.is_empty());
}

#[test]
fn second_request_reuses_the_rendition() {
    let mut b = book("a", 1, 1);
    let style = styled("red");
    let dir = match b.rendition_request(&style) {
        RenditionRequest::Build(dir) => dir,
        other => panic!("expected a build, got {other:?}"),
    };
    b.record_rendition(EpubRenditionInfo {
        style: style.clone(),
        dir_path_from_library_root: dir.clone(),
        default_file_path_from_library_root: format!("{dir}/index.xhtml"),
        bytes: 10,
    });
    match b.rendition_request(&style) {
        RenditionRequest::Existing(0) => {}
        other => panic!("expected the existing rendition, got {other:?}"),
    }
    let found = b.find_rendition(&style).unwrap();
    assert_eq!(found.dir_path_from_library_root, dir);
    assert!(matches!(b.rendition_request(&Style::raw()), RenditionRequest::Raw));
    assert_eq!(b.find_rendition(&Style::raw()).unwrap().dir_path_from_library_root, "a/raw");
    assert_eq!(b.size_in_bytes(), 11);
}

#[test]
fn colliding_fingerprints_get_distinct_directories() {
    let mut b = book("book", 1, 1);
    let first = styled("red");
    let second = styled("blue");
    let d1 = b.rendition_dir_for_fingerprint(&first, 7);
    assert_eq!(d1, "book/00000000000000000007");
    b.record_rendition(EpubRenditionInfo {
        style: first.clone(),
        dir_path_from_library_root: d1.clone(),
        default_file_path_from_library_root: d1.clone(),
        bytes: 1,
    });
    let d2 = b.rendition_dir_for_fingerprint(&second, 7);
    assert_eq!(d2, "book/00000000000000000007_2");
    assert_eq!(b.rendition_dir_for_fingerprint(&first, 7), d1);
}

#[test]
fn fingerprint_directory_is_zero_padded_hash() {
    let b = book("book", 1, 1);
    let style = styled("red");
    let dir = b.get_new_rendition_dir_path_from_style(&style);
    assert_eq!(dir, format!("book/{:020}", style.get_default_hash()));
    assert_eq!(style.get_default_hash(), styled("red").get_default_hash());
}

#[test]
fn navigation_filenames_are_padded_to_spine_length() {
    let mut b = book("book", 1, 1);
    b.spine_items = spine(12);
    let maps = b.get_spine_navigation_maps();
    assert_eq!(maps[0].navigation_filename, "00.xhtml");
    assert_eq!(maps[11].navigation_filename, "11.xhtml");
    assert_eq!(maps[11].spine_index, 11);
    b.spine_items = spine(5);
    assert_eq!(b.get_spine_navigation_maps()[4].navigation_filename, "4.xhtml");
}

#[test]
fn extraction_targets_stay_under_the_raw_directory() {
    let ok = extraction_targets("lib/b/raw", &vec!["OEBPS/ch1.xhtml".to_string(), "mimetype".to_string()]).unwrap();
    assert_eq!(ok, vec!["lib/b/raw/OEBPS/ch1.xhtml".to_string(), "lib/b/raw/mimetype".to_string()]);
    let bad = extraction_targets("lib/b/raw", &vec!["ok.txt".to_string(), "../../x".to_string(), "../y".to_string()]);
    assert_eq!(bad, Err(BookError::ZipSlip("../../x".to_string())));
}

#[test]
fn media_types_and_identifiers() {
    assert_eq!(spine_format("image/svg+xml"), Ok(EpubSpineItemFormat::Svg));
    assert_eq!(spine_format("application/xhtml+xml"), Ok(EpubSpineItemFormat::Xhtml));
    assert_eq!(spine_format("text/plain"), Err(BookError::UnexpectedMediaType("text/plain".to_string())));
    assert_eq!(book_id(Some("r".to_string()), Some("u".to_string())), Ok("r".to_string()));
    assert_eq!(book_id(None, Some("u".to_string())), Ok("u".to_string()));
    assert_eq!(book_id(None, None), Err(BookError::NoIdentifier));
}

#[test]
fn new_books_start_at_the_first_linear_item() {
    let mut items = spine(3);
    items[0].linear = false;
    let t = Timestamp { seconds: 5, nanos: 1 };
    let b = EpubInfo::new_from_epub(
        "id".to_string(), Some("T".to_string()), vec![], None, items, vec![], vec![], "id".to_string(), t, 42,
    )
    .unwrap();
    assert_eq!(b.first_linear_spine_item_path, "ch1.xhtml");
    assert_eq!(b.last_linear_spine_item_path, "ch2.xhtml");
    assert_eq!(b.raw_rendition.dir_path_from_library_root, "id/raw");
    assert_eq!(b.raw_rendition.default_file_path_from_library_root, "id/raw/ch1.xhtml");
    assert_eq!(b.raw_rendition.bytes, 42);
    assert_eq!(b.last_opened_time, t);
    let none = EpubInfo::new_from_epub("id".to_string(), None, vec![], None, spine(1), vec![], vec![], "id".to_string(), t, 0);
    assert_eq!(none.unwrap_err(), BookError::NoTitle);
    let mut nonlinear = spine(2);
    nonlinear[0].linear = false;
    nonlinear[1].linear = false;
    let none = EpubInfo::new_from_epub("id".to_string(), Some("T".to_string()), vec![], None, nonlinear, vec![], vec![], "id".to_string(), t, 0);
    assert_eq!(none.unwrap_err(), BookError::NoLinearItem);
}

#[test]
fn styled_rendition_opens_at_its_entry() {
    let b = book("a", 1, 1);
    let r = &b.raw_rendition;
    let request = r.open_in_browser(&"lib".to_string(), &None);
    assert_eq!(request.path, "lib/a/raw/ch0.xhtml");
    assert_eq!(request.browser, None);
}

#[test]
fn rendition_entry_follows_the_style() {
    let mut b = book("a", 1, 1);
    b.spine_items[0].linear = false;
    let maps = b.get_spine_navigation_maps();
    assert_eq!(b.rendition_entry_file(&Style::default(), "a/fp", &maps), Some("a/fp/index.xhtml".to_string()));
    let mut nav_only = Style::default();
    nav_only.include_index = false;
    assert_eq!(b.rendition_entry_file(&nav_only, "a/fp", &maps), Some("a/fp/1.xhtml".to_string()));
    nav_only.inject_navigation = false;
    assert_eq!(b.rendition_entry_file(&nav_only, "a/fp", &maps), Some("a/fp/contents/ch1.xhtml".to_string()));
    let targets = b.navigation_targets(&maps);
    assert_eq!(targets[2], ("ch2.xhtml".to_string(), "2.xhtml".to_string()));
}
