//! The index page: whether the table of contents follows the spine, and the
//! layout that follows from it.
use vstd::prelude::*;

use crate::css::{
    push_text,
    generate_stylesheet_img_block_unified, generate_stylesheet_link_block_unified, is_flat,
    flat_model, line_block, opt_line, push_line, push_opt_line, sheet_text, unified_img_block,
    unified_link_block, value_or, value_or_str, concat3, CssBlock, CssFile, FlatBlock,
};
use crate::epub::{flattened_children, flattened_toc, EpubInfo, EpubSpineItem, EpubTocItem, SpineNavigationMap};
use crate::epub::navigation::{emit_text_element, text_element};
use crate::markup::{
    attr, characters, conforms_all, declaration, emit, end_element, start_element, start_plain,
    start_with, Shape, XHTML_NAMESPACE,
};
use xml::reader::XmlEvent;
use crate::style::{
    style_background_color, style_margin_size, style_text_color, Style, StyleView,
};

verus! {

broadcast use vstd::std_specs::vec::group_vec_axioms;

/// One table-of-contents entry, out of its tree.
#[derive(Clone, Debug)]
pub struct TocEntry {
    pub label: String,
    pub path_without_fragment: String,
    pub path_with_fragment: String,
    pub fragment: Option<String>,
    pub nesting_level: u64,
}

/// What an entry is: label, target, target with fragment, fragment, level.
pub type TocEntryView = (Seq<char>, Seq<char>, Seq<char>, Option<Seq<char>>, u64);

impl View for TocEntry {
    type V = TocEntryView;

    open spec fn view(&self) -> TocEntryView {
        (
            self.label@,
            self.path_without_fragment@,
            self.path_with_fragment@,
            crate::style::opt_str(self.fragment),
            self.nesting_level,
        )
    }
}

pub open spec fn item_entry(t: EpubTocItem) -> TocEntryView {
    (
        t.label@,
        t.path_without_fragment@,
        t.path_with_fragment@,
        crate::style::opt_str(t.fragment),
        t.nesting_level,
    )
}

pub open spec fn entry_views(v: Seq<TocEntry>) -> Seq<TocEntryView> {
    v.map_values(|e: TocEntry| e@)
}

/// The flattened table of contents, as entries.
pub open spec fn flat_entries(toc: Seq<EpubTocItem>) -> Seq<TocEntryView> {
    flattened_toc(toc, toc.len() as int).map_values(|t: EpubTocItem| item_entry(t))
}

/// The spine's paths.
pub open spec fn spine_paths(spine: Seq<EpubSpineItem>) -> Seq<Seq<char>> {
    spine.map_values(|s: EpubSpineItem| s.path@)
}

/// The first spine position whose path is `path`.
pub open spec fn spine_position(paths: Seq<Seq<char>>, path: Seq<char>) -> Option<int> {
    if paths.contains(path) {
        Some(choose|i: int| 0 <= i < paths.len() && paths[i] == path && forall|j: int| 0 <= j < i ==> paths[j] != path)
    } else {
        None
    }
}

/// The walk over the targets from entry `i` on, the furthest spine position
/// seen so far being `furthest`: `Ok(false)` at the first step back,
/// `Err` with the target at a target absent from the spine that comes
/// before any step back, `Ok(true)` when neither comes.
pub open spec fn toc_walk(paths: Seq<Seq<char>>, targets: Seq<Seq<char>>, i: int, furthest: int) -> Result<bool, Seq<char>>
    decreases targets.len() - i,
{
    if i < 0 || i >= targets.len() {
        Ok(true)
    } else {
        match spine_position(paths, targets[i]) {
            None => Err(targets[i]),
            Some(p) => if p < furthest {
                Ok(false)
            } else {
                toc_walk(paths, targets, i + 1, p)
            },
        }
    }
}

/// The positions, in order, of the targets equal to `path`, among the first `n`.
pub open spec fn entries_for_path(targets: Seq<Seq<char>>, path: Seq<char>, n: int) -> Seq<int>
    decreases n,
{
    if n <= 0 || n > targets.len() {
        Seq::empty()
    } else if targets[n - 1] == path {
        entries_for_path(targets, path, n - 1).push(n - 1)
    } else {
        entries_for_path(targets, path, n - 1)
    }
}

/// How the index page lays out the spine and the table of contents.
#[derive(Debug)]
pub enum EpubIndex {
    /// One row per spine item, with the entries that target it.
    TocLinearRelativeToSpine(Vec<(usize, Vec<TocEntry>)>),
    /// The spine and the whole table of contents, side by side.
    TocNonlinearRelativeToSpine(Vec<usize>, Vec<TocEntry>),
}

/// Why the index cannot be built.
#[derive(Clone, Debug, PartialEq, Eq)]
pub enum IndexError {
    /// A table-of-contents entry targets a path that no spine item has.
    TocPathNotInSpine(String),
    /// The book has no linear spine item.
    NoLinearItem,
    /// A spine position has no navigation page; not the book's fault.
    Internal,
    /// The page could not be written out.
    Write(String),
}

pub(crate) fn flatten_into(item: &EpubTocItem, out: &mut Vec<TocEntry>)
    ensures
        entry_views(final(out)@) == entry_views(old(out)@) + item.spec_flattened().map_values(
            |t: EpubTocItem| item_entry(t),
        ),
    decreases *item,
{
    let ghost start = entry_views(out@);
    out.push(
        TocEntry {
            label: item.label.clone(),
            path_without_fragment: item.path_without_fragment.clone(),
            path_with_fragment: item.path_with_fragment.clone(),
            fragment: match &item.fragment {
                Some(f) => Some(f.clone()),
                None => None,
            },
            nesting_level: item.nesting_level,
        },
    );
    assert(entry_views(out@) =~= start + seq![item_entry(*item)]);
    let mut i: usize = 0;
    while i < item.children.len()
        invariant
            i <= item.children.len(),
            entry_views(out@) == start + seq![item_entry(*item)] + flattened_children(
                *item,
                i as int,
            ).map_values(|t: EpubTocItem| item_entry(t)),
        decreases item.children.len() - i,
    {
        assert(decreases_to!(*item => item.children@[i as int]));
        let ghost before = entry_views(out@);
        flatten_into(&item.children[i], out);
        assert(flattened_children(*item, i as int + 1) == flattened_children(*item, i as int)
            + item.children@[i as int].spec_flattened());
        assert(entry_views(out@) =~= start + seq![item_entry(*item)] + flattened_children(
            *item,
            i as int + 1,
        ).map_values(|t: EpubTocItem| item_entry(t)));
        i = i + 1;
    }
    assert(item.spec_flattened() == seq![*item] + flattened_children(
        *item,
        item.children.len() as int,
    ));
    assert(item.spec_flattened().map_values(|t: EpubTocItem| item_entry(t)) =~= seq![
        item_entry(*item),
    ] + flattened_children(*item, item.children.len() as int).map_values(
        |t: EpubTocItem| item_entry(t),
    ));
}

/// The table of contents in preorder.
pub fn flatten_toc(toc: &Vec<EpubTocItem>) -> (r: Vec<TocEntry>)
    ensures
        entry_views(r@) == flat_entries(toc@),
{
    let mut out: Vec<TocEntry> = Vec::new();
    let mut i: usize = 0;
    while i < toc.len()
        invariant
            i <= toc.len(),
            entry_views(out@) == flattened_toc(toc@, i as int).map_values(
                |t: EpubTocItem| item_entry(t),
            ),
        decreases toc.len() - i,
    {
        flatten_into(&toc[i], &mut out);
        assert(flattened_toc(toc@, i as int + 1).map_values(|t: EpubTocItem| item_entry(t))
            =~= flattened_toc(toc@, i as int).map_values(|t: EpubTocItem| item_entry(t))
            + toc@[i as int].spec_flattened().map_values(|t: EpubTocItem| item_entry(t)));
        i = i + 1;
    }
    out
}

/// The entries' targets, fragments left out.
pub open spec fn targets_of(entries: Seq<TocEntryView>) -> Seq<Seq<char>> {
    entries.map_values(|e: TocEntryView| e.1)
}

fn copy_entry(e: &TocEntry) -> (r: TocEntry)
    ensures
        r@ == e@,
{
    TocEntry {
        label: e.label.clone(),
        path_without_fragment: e.path_without_fragment.clone(),
        path_with_fragment: e.path_with_fragment.clone(),
        fragment: match &e.fragment {
            Some(f) => Some(f.clone()),
            None => None,
        },
        nesting_level: e.nesting_level,
    }
}

fn position_in_spine(spine: &Vec<EpubSpineItem>, path: &String) -> (r: Option<usize>)
    ensures
        match r {
            Some(i) => spine_position(spine_paths(spine@), path@) == Some(i as int) && i < spine.len(),
            None => spine_position(spine_paths(spine@), path@).is_none(),
        },
{
    let ghost paths = spine_paths(spine@);
    let mut i: usize = 0;
    while i < spine.len()
        invariant
            i <= spine.len(),
            paths == spine_paths(spine@),
            forall|j: int| 0 <= j < i ==> paths[j] != path@,
        decreases spine.len() - i,
    {
        if spine[i].path == *path {
            assert(paths[i as int] == path@);
            assert(paths.contains(path@));
            let ghost c = choose|c: int| 0 <= c < paths.len() && paths[c] == path@ && forall|j: int| 0 <= j < c ==> paths[j] != path@;
            assert(c == i) by {
                if c < i {
                } else if c > i {
                }
            }
            return Some(i);
        }
        i = i + 1;
    }
    assert(!paths.contains(path@)) by {
        if paths.contains(path@) {
            let w = choose|w: int| 0 <= w < paths.len() && paths[w] == path@;
        }
    }
    None
}

/// Whether the flattened table of contents visits the spine in order: `Ok(false)` at
/// the first entry whose target lies before the furthest one so far, an error
/// at a target absent from the spine met before that.
pub fn flattened_toc_is_linear_relative_to_spine(spine: &Vec<EpubSpineItem>, flattened: &Vec<TocEntry>) -> (r: Result<bool, IndexError>)
    ensures
        match r {
            Ok(b) => toc_walk(spine_paths(spine@), targets_of(entry_views(flattened@)), 0, 0) == Ok::<bool, Seq<char>>(b),
            Err(e) => e is TocPathNotInSpine && toc_walk(spine_paths(spine@), targets_of(entry_views(flattened@)), 0, 0)
                == Err::<bool, Seq<char>>(e->TocPathNotInSpine_0@),
        },
{
    let ghost paths = spine_paths(spine@);
    let ghost targets = targets_of(entry_views(flattened@));
    let mut furthest: usize = 0;
    let mut i: usize = 0;
    while i < flattened.len()
        invariant
            i <= flattened.len(),
            paths == spine_paths(spine@),
            targets == targets_of(entry_views(flattened@)),
            toc_walk(paths, targets, 0, 0) == toc_walk(paths, targets, i as int, furthest as int),
        decreases flattened.len() - i,
    {
        assert(targets[i as int] == flattened@[i as int].path_without_fragment@);
        match position_in_spine(spine, &flattened[i].path_without_fragment) {
            None => {
                return Err(IndexError::TocPathNotInSpine(flattened[i].path_without_fragment.clone()));
            },
            Some(p) => {
                if p < furthest {
                    return Ok(false);
                }
                furthest = p;
            },
        }
        i = i + 1;
    }
    Ok(true)
}

/// For each spine item, the entries that target its path, in order.
pub fn map_spine_to_flattened_toc(spine: &Vec<EpubSpineItem>, flattened: &Vec<TocEntry>) -> (r: Vec<(usize, Vec<TocEntry>)>)
    ensures
        r.len() == spine.len(),
        forall|i: int| 0 <= i < r.len() ==> (#[trigger] r[i]).0 == i && entry_views(r[i].1@)
            == entries_for_path(targets_of(entry_views(flattened@)), spine@[i].path@, flattened.len() as int).map_values(
                |j: int| entry_views(flattened@)[j],
            ),
{
    let ghost targets = targets_of(entry_views(flattened@));
    let mut rows: Vec<(usize, Vec<TocEntry>)> = Vec::new();
    let mut i: usize = 0;
    while i < spine.len()
        invariant
            i <= spine.len(),
            targets == targets_of(entry_views(flattened@)),
            rows.len() == i,
            forall|k: int| 0 <= k < i ==> (#[trigger] rows[k]).0 == k && entry_views(rows[k].1@)
                == entries_for_path(targets, spine@[k].path@, flattened.len() as int).map_values(
                    |j: int| entry_views(flattened@)[j],
                ),
        decreases spine.len() - i,
    {
        let mut entries: Vec<TocEntry> = Vec::new();
        let mut j: usize = 0;
        while j < flattened.len()
            invariant
                j <= flattened.len(),
                i < spine.len(),
                targets == targets_of(entry_views(flattened@)),
                entry_views(entries@) == entries_for_path(targets, spine@[i as int].path@, j as int).map_values(
                    |x: int| entry_views(flattened@)[x],
                ),
            decreases flattened.len() - j,
        {
            assert(targets[j as int] == flattened@[j as int].path_without_fragment@);
            let ghost before = entries@;
            if spine[i].path == flattened[j].path_without_fragment {
                let e = copy_entry(&flattened[j]);
                entries.push(e);
                assert(entry_views(entries@) =~= entry_views(before).push(entry_views(flattened@)[j as int]));
            }
            assert(entry_views(entries@) =~= entries_for_path(targets, spine@[i as int].path@, j as int + 1).map_values(
                |x: int| entry_views(flattened@)[x],
            ));
            j = j + 1;
        }
        rows.push((i, entries));
        i = i + 1;
    }
    rows
}

impl EpubIndex {
    /// Chooses the layout: rows of the spine with their entries when the
    /// flattened table of contents visits the spine in order, two columns otherwise.
    pub fn from_spine_and_toc(spine: &Vec<EpubSpineItem>, toc: &Vec<EpubTocItem>) -> (r: Result<Self, IndexError>)
        ensures
            match r {
                Ok(EpubIndex::TocLinearRelativeToSpine(rows)) => toc_walk(spine_paths(spine@), targets_of(flat_entries(toc@)), 0, 0) == Ok::<bool, Seq<char>>(true)
                    && rows.len() == spine.len()
                    && forall|i: int| 0 <= i < rows.len() ==> (#[trigger] rows[i]).0 == i && entry_views(rows[i].1@)
                        == entries_for_path(targets_of(flat_entries(toc@)), spine@[i].path@, flat_entries(toc@).len() as int).map_values(
                            |j: int| flat_entries(toc@)[j],
                        ),
                Ok(EpubIndex::TocNonlinearRelativeToSpine(positions, entries)) => toc_walk(spine_paths(spine@), targets_of(flat_entries(toc@)), 0, 0) == Ok::<bool, Seq<char>>(false)
                    && positions.len() == spine.len()
                    && (forall|i: int| 0 <= i < positions.len() ==> positions[i] == i)
                    && entry_views(entries@) == flat_entries(toc@),
                Err(e) => e is TocPathNotInSpine && toc_walk(spine_paths(spine@), targets_of(flat_entries(toc@)), 0, 0)
                    == Err::<bool, Seq<char>>(e->TocPathNotInSpine_0@),
            },
    {
        let flattened = flatten_toc(toc);
        let linear = flattened_toc_is_linear_relative_to_spine(spine, &flattened);
        match linear {
            Err(e) => Err(e),
            Ok(true) => Ok(EpubIndex::TocLinearRelativeToSpine(map_spine_to_flattened_toc(spine, &flattened))),
            Ok(false) => {
                let mut positions: Vec<usize> = Vec::new();
                let mut i: usize = 0;
                while i < spine.len()
                    invariant
                        i <= spine.len(),
                        positions.len() == i,
                        forall|k: int| 0 <= k < i ==> positions[k] == k,
                    decreases spine.len() - i,
                {
                    positions.push(i);
                    i = i + 1;
                }
                Ok(EpubIndex::TocNonlinearRelativeToSpine(positions, flattened))
            },
        }
    }
}

/// The index page's body: centred, in the style's colours and margins.
pub open spec fn index_body_block(s: StyleView) -> FlatBlock {
    ("body"@, seq!["text-align: center;"@] + opt_line(style_text_color(s), "color: "@, ";"@)
        + opt_line(style_background_color(s), "background-color: "@, ";"@) + opt_line(
        style_margin_size(s),
        "margin-left: "@,
        ";"@,
    ) + opt_line(style_margin_size(s), "margin-right: "@, ";"@))
}

/// Table cells, bordered in the text colour (black without one).
pub open spec fn index_td_block(s: StyleView) -> FlatBlock {
    ("td"@, seq![
        "border: 1px solid "@ + value_or(style_text_color(s), "black"@) + ";"@,
        "vertical-align: top;"@,
    ])
}

/// The blocks of the index page's stylesheet.
pub open spec fn index_sheet(s: StyleView) -> Seq<FlatBlock> {
    seq![
        index_body_block(s),
        ("table"@, seq!["border-collapse: collapse;"@, "margin-left: auto;"@, "margin-right: auto;"@]),
        index_td_block(s),
        ("ul"@, seq!["text-align: left;"@]),
        unified_link_block(s),
        unified_img_block(s),
    ]
}

fn generate_stylesheet_body_block(style: &Style) -> (r: CssBlock)
    ensures
        is_flat(r),
        flat_model(r) == index_body_block(style@),
{
    let mut lines: Vec<String> = Vec::new();
    push_line(&mut lines, "text-align: center;");
    push_opt_line(&mut lines, style.text_color(), "color: ", ";");
    push_opt_line(&mut lines, style.background_color(), "background-color: ", ";");
    push_opt_line(&mut lines, style.margin_size(), "margin-left: ", ";");
    push_opt_line(&mut lines, style.margin_size(), "margin-right: ", ";");
    let r = line_block("body", lines);
    assert(flat_model(r).1 =~= index_body_block(style@).1);
    r
}

fn generate_stylesheet_td_block(style: &Style) -> (r: CssBlock)
    ensures
        is_flat(r),
        flat_model(r) == index_td_block(style@),
{
    let mut lines: Vec<String> = Vec::new();
    push_text(&mut lines, concat3("border: 1px solid ", value_or_str(style.text_color(), "black"), ";"));
    push_line(&mut lines, "vertical-align: top;");
    let r = line_block("td", lines);
    assert(flat_model(r).1 =~= index_td_block(style@).1);
    r
}

/// The index page's stylesheet.
pub fn generate_stylesheet(style: &Style) -> (r: String)
    ensures
        sheet_text(index_sheet(style@)) == Some(r@),
{
    let mut table: Vec<String> = Vec::new();
    push_line(&mut table, "border-collapse: collapse;");
    push_line(&mut table, "margin-left: auto;");
    push_line(&mut table, "margin-right: auto;");
    let mut ul: Vec<String> = Vec::new();
    push_line(&mut ul, "text-align: left;");
    assert(table@.map_values(|l: String| l@) =~= seq!["border-collapse: collapse;"@, "margin-left: auto;"@, "margin-right: auto;"@]);
    assert(ul@.map_values(|l: String| l@) =~= seq!["text-align: left;"@]);
    let blocks = vec![
        generate_stylesheet_body_block(style),
        line_block("table", table),
        generate_stylesheet_td_block(style),
        line_block("ul", ul),
        generate_stylesheet_link_block_unified(style),
        generate_stylesheet_img_block_unified(style),
    ];
    let file = CssFile::new(blocks);
    assert(file.blocks@.map_values(|b: CssBlock| flat_model(b)) =~= index_sheet(style@));
    proof {
        crate::css::lemma_sheet_has_text(index_sheet(style@), 0);
    }
    match file.flat_text() {
        Some(t) => t,
        None => String::new(),
    }
}

/// A link of the index page: where it leads, its text, and its nesting level.
#[derive(Clone, Debug)]
pub struct IndexLink {
    pub href: String,
    pub label: String,
    pub level: u64,
}

pub type IndexLinkView = (Seq<char>, Seq<char>, u64);

pub open spec fn link_views(v: Seq<IndexLink>) -> Seq<IndexLinkView> {
    v.map_values(|l: IndexLink| (l.href@, l.label@, l.level))
}

pub open spec fn repeat_shape(s: Shape, n: nat) -> Seq<Shape> {
    Seq::new(n, |i: int| s)
}

/// `ul` starts and ends that take a list from depth `d` to depth `l`.
pub open spec fn depth_change(d: u64, l: u64) -> Seq<Shape> {
    if d < l {
        repeat_shape(Shape::Start("ul"@, Seq::empty()), (l - d) as nat)
    } else {
        repeat_shape(Shape::End("ul"@), (d - l) as nat)
    }
}

pub open spec fn list_item(l: IndexLinkView) -> Seq<Shape> {
    seq![Shape::Start("li"@, Seq::empty())] + text_element("a"@, seq![("href"@, l.0)], l.1) + seq![Shape::End("li"@)]
}

/// The links from position `k` on as nested lists, the list being at depth
/// `d`: a deeper link opens lists down to its level, a shallower one closes
/// them up to its level, and the lists still open close at the end.
pub open spec fn nested_list(links: Seq<IndexLinkView>, k: int, d: u64) -> Seq<Shape>
    decreases links.len() - k,
{
    if k < 0 || k >= links.len() {
        depth_change(d, 0)
    } else {
        depth_change(d, links[k].2) + list_item(links[k]) + nested_list(links, k + 1, links[k].2)
    }
}

fn emit_repeat(out: &mut Vec<XmlEvent>, shapes: Ghost<Seq<Shape>>, opening: bool, n: u64)
    requires
        conforms_all(old(out)@, shapes@),
    ensures
        conforms_all(final(out)@, shapes@ + repeat_shape(if opening { Shape::Start("ul"@, Seq::empty()) } else { Shape::End("ul"@) }, n as nat)),
{
    let ghost s = if opening { Shape::Start("ul"@, Seq::empty()) } else { Shape::End("ul"@) };
    let mut i: u64 = 0;
    while i < n
        invariant
            i <= n,
            s == (if opening { Shape::Start("ul"@, Seq::empty()) } else { Shape::End("ul"@) }),
            conforms_all(out@, shapes@ + repeat_shape(s, i as nat)),
        decreases n - i,
    {
        let e = if opening { start_plain("ul") } else { end_element("ul") };
        emit(out, Ghost(shapes@ + repeat_shape(s, i as nat)), e, Ghost(s));
        assert((shapes@ + repeat_shape(s, i as nat)).push(s) =~= shapes@ + repeat_shape(s, (i + 1) as nat));
        i = i + 1;
    }
}

fn emit_depth_change(out: &mut Vec<XmlEvent>, shapes: Ghost<Seq<Shape>>, d: u64, l: u64)
    requires
        conforms_all(old(out)@, shapes@),
    ensures
        conforms_all(final(out)@, shapes@ + depth_change(d, l)),
{
    if d < l {
        emit_repeat(out, shapes, true, l - d);
    } else {
        emit_repeat(out, shapes, false, d - l);
    }
}

fn emit_list_item(out: &mut Vec<XmlEvent>, shapes: Ghost<Seq<Shape>>, l: &IndexLink)
    requires
        conforms_all(old(out)@, shapes@),
    ensures
        conforms_all(final(out)@, shapes@ + list_item((l.href@, l.label@, l.level))),
{
    emit(out, shapes, start_plain("li"), Ghost(Shape::Start("li"@, Seq::empty())));
    let ghost s1 = shapes@.push(Shape::Start("li"@, Seq::empty()));
    let a = vec![attr("href", l.href.as_str())];
    assert(a@.map_values(|p: (String, String)| (p.0@, p.1@)) =~= seq![("href"@, l.href@)]);
    emit_text_element(out, Ghost(s1), "a", a, l.label.as_str());
    let ghost s2 = s1 + text_element("a"@, seq![("href"@, l.href@)], l.label@);
    emit(out, Ghost(s2), end_element("li"), Ghost(Shape::End("li"@)));
    assert(s2.push(Shape::End("li"@)) =~= shapes@ + list_item((l.href@, l.label@, l.level)));
}

proof fn lemma_nested_list_step(links: Seq<IndexLinkView>, k: int, d: u64)
    requires
        0 <= k < links.len(),
    ensures
        nested_list(links, k, d) == depth_change(d, links[k].2) + list_item(links[k]) + nested_list(links, k + 1, links[k].2),
{
}

/// Emits the links as nested lists (see `nested_list`), from depth 0.
pub(crate) fn emit_nested_list(out: &mut Vec<XmlEvent>, shapes: Ghost<Seq<Shape>>, links: &Vec<IndexLink>)
    requires
        conforms_all(old(out)@, shapes@),
    ensures
        conforms_all(final(out)@, shapes@ + nested_list(link_views(links@), 0, 0)),
{
    let ghost lv = link_views(links@);
    let mut d: u64 = 0;
    let ghost mut sh = shapes@;
    let mut k: usize = 0;
    while k < links.len()
        invariant
            k <= links.len(),
            lv == link_views(links@),
            conforms_all(out@, sh),
            sh + nested_list(lv, k as int, d) == shapes@ + nested_list(lv, 0, 0),
        decreases links.len() - k,
    {
        let l = &links[k];
        proof {
            lemma_nested_list_step(lv, k as int, d);
        }
        emit_depth_change(out, Ghost(sh), d, l.level);
        let ghost s1 = sh + depth_change(d, l.level);
        emit_list_item(out, Ghost(s1), l);
        proof {
            let s2 = s1 + list_item((l.href@, l.label@, l.level));
            assert(lv[k as int] == (l.href@, l.label@, l.level));
            assert(s2 + nested_list(lv, k as int + 1, l.level) =~= sh + nested_list(lv, k as int, d));
            sh = s2;
        }
        d = l.level;
        k = k + 1;
    }
    emit_depth_change(out, Ghost(sh), d, 0);
    assert(sh + depth_change(d, 0) =~= shapes@ + nested_list(lv, 0, 0));
}

/// The table of the index page, its links resolved.
#[derive(Debug)]
pub enum IndexTable {
    /// Rows of a spine link and the table-of-contents links to that item.
    Linear(Vec<(IndexLink, Vec<IndexLink>)>),
    /// The spine links and the table-of-contents links, side by side.
    Nonlinear(Vec<IndexLink>, Vec<IndexLink>),
}

pub open spec fn cell(content: Seq<Shape>) -> Seq<Shape> {
    seq![Shape::Start("td"@, Seq::empty())] + content + seq![Shape::End("td"@)]
}

pub open spec fn br() -> Seq<Shape> {
    seq![Shape::Start("br"@, Seq::empty()), Shape::End("br"@)]
}

pub open spec fn ul(content: Seq<Shape>) -> Seq<Shape> {
    seq![Shape::Start("ul"@, Seq::empty())] + content + seq![Shape::End("ul"@)]
}

pub open spec fn row(content: Seq<Shape>) -> Seq<Shape> {
    seq![Shape::Start("tr"@, Seq::empty())] + content + seq![Shape::End("tr"@)]
}

pub open spec fn flat_items(links: Seq<IndexLinkView>) -> Seq<Shape>
    decreases links.len(),
{
    if links.len() == 0 {
        Seq::empty()
    } else {
        flat_items(links.drop_last()) + list_item(links.last())
    }
}

/// One row of the linear table: the spine link in a list, then the entries
/// in nested lists, or a line break when none targets the item.
pub open spec fn linear_row(spine: IndexLinkView, entries: Seq<IndexLinkView>) -> Seq<Shape> {
    row(cell(ul(list_item(spine))) + cell(if entries.len() == 0 {
        br()
    } else {
        ul(nested_list(entries, 0, 0))
    }))
}

pub open spec fn linear_rows(rows: Seq<(IndexLinkView, Seq<IndexLinkView>)>) -> Seq<Shape>
    decreases rows.len(),
{
    if rows.len() == 0 {
        Seq::empty()
    } else {
        linear_rows(rows.drop_last()) + linear_row(rows.last().0, rows.last().1)
    }
}

pub open spec fn table_view(t: IndexTable) -> Seq<Shape> {
    match t {
        IndexTable::Linear(rows) => row(cell(seq![Shape::Text("Spine"@)]) + cell(seq![Shape::Text("Table of Contents"@)]))
            + linear_rows(rows@.map_values(|r: (IndexLink, Vec<IndexLink>)| ((r.0.href@, r.0.label@, r.0.level), link_views(r.1@)))),
        IndexTable::Nonlinear(spine, toc) => row(cell(seq![Shape::Text("Spine"@)]) + cell(br()) + cell(seq![Shape::Text("Table of Contents"@)]))
            + row(cell(ul(flat_items(link_views(spine@)))) + cell(br()) + cell(ul(nested_list(link_views(toc@), 0, 0)))),
    }
}

/// The index page: title, creators, cover, links to the first and last
/// linear items, and the table.
#[verifier::opaque]
pub open spec fn index_page(
    title: Seq<char>,
    creators: Option<Seq<char>>,
    cover: Option<Seq<char>>,
    start: Seq<char>,
    end: Seq<char>,
    table: Seq<Shape>,
) -> Seq<Shape> {
    page_head(title) + heading_part(title, creators, cover, start, end) + seq![Shape::Start("table"@, Seq::empty())]
        + table + seq![Shape::End("table"@), Shape::End("body"@), Shape::End("html"@)]
}

fn emit_plain(out: &mut Vec<XmlEvent>, shapes: Ghost<Seq<Shape>>, name: &str, opening: bool)
    requires
        conforms_all(old(out)@, shapes@),
    ensures
        conforms_all(final(out)@, shapes@.push(if opening { Shape::Start(name@, Seq::empty()) } else { Shape::End(name@) })),
{
    if opening {
        emit(out, shapes, start_plain(name), Ghost(Shape::Start(name@, Seq::empty())));
    } else {
        emit(out, shapes, end_element(name), Ghost(Shape::End(name@)));
    }
}

fn emit_br(out: &mut Vec<XmlEvent>, shapes: Ghost<Seq<Shape>>)
    requires
        conforms_all(old(out)@, shapes@),
    ensures
        conforms_all(final(out)@, shapes@ + br()),
{
    emit_plain(out, shapes, "br", true);
    emit_plain(out, Ghost(shapes@.push(Shape::Start("br"@, Seq::empty()))), "br", false);
    assert(shapes@.push(Shape::Start("br"@, Seq::empty())).push(Shape::End("br"@)) =~= shapes@ + br());
}

fn emit_flat_items(out: &mut Vec<XmlEvent>, shapes: Ghost<Seq<Shape>>, links: &Vec<IndexLink>)
    requires
        conforms_all(old(out)@, shapes@),
    ensures
        conforms_all(final(out)@, shapes@ + flat_items(link_views(links@))),
{
    let ghost lv = link_views(links@);
    let mut k: usize = 0;
    while k < links.len()
        invariant
            k <= links.len(),
            lv == link_views(links@),
            conforms_all(out@, shapes@ + flat_items(lv.subrange(0, k as int))),
        decreases links.len() - k,
    {
        emit_list_item(out, Ghost(shapes@ + flat_items(lv.subrange(0, k as int))), &links[k]);
        assert(lv.subrange(0, k as int + 1).drop_last() =~= lv.subrange(0, k as int));
        assert(shapes@ + flat_items(lv.subrange(0, k as int)) + list_item(lv[k as int]) =~= shapes@ + flat_items(lv.subrange(0, k as int + 1)));
        k = k + 1;
    }
    assert(lv.subrange(0, links.len() as int) =~= lv);
}

fn emit_text_cell(out: &mut Vec<XmlEvent>, shapes: Ghost<Seq<Shape>>, text: &str)
    requires
        conforms_all(old(out)@, shapes@),
    ensures
        conforms_all(final(out)@, shapes@ + cell(seq![Shape::Text(text@)])),
{
    emit_plain(out, shapes, "td", true);
    let ghost s1 = shapes@.push(Shape::Start("td"@, Seq::empty()));
    emit(out, Ghost(s1), characters(text), Ghost(Shape::Text(text@)));
    emit_plain(out, Ghost(s1.push(Shape::Text(text@))), "td", false);
    assert(s1.push(Shape::Text(text@)).push(Shape::End("td"@)) =~= shapes@ + cell(seq![Shape::Text(text@)]));
}

fn emit_linear_row(out: &mut Vec<XmlEvent>, shapes: Ghost<Seq<Shape>>, spine: &IndexLink, entries: &Vec<IndexLink>)
    requires
        conforms_all(old(out)@, shapes@),
    ensures
        conforms_all(final(out)@, shapes@ + linear_row((spine.href@, spine.label@, spine.level), link_views(entries@))),
{
    let ghost sv = (spine.href@, spine.label@, spine.level);
    let ghost mut sh = shapes@;
    emit_plain(out, Ghost(sh), "tr", true);
    proof { sh = sh.push(Shape::Start("tr"@, Seq::empty())); }
    emit_plain(out, Ghost(sh), "td", true);
    proof { sh = sh.push(Shape::Start("td"@, Seq::empty())); }
    emit_plain(out, Ghost(sh), "ul", true);
    proof { sh = sh.push(Shape::Start("ul"@, Seq::empty())); }
    emit_list_item(out, Ghost(sh), spine);
    proof { sh = sh + list_item(sv); }
    emit_plain(out, Ghost(sh), "ul", false);
    proof { sh = sh.push(Shape::End("ul"@)); }
    emit_plain(out, Ghost(sh), "td", false);
    proof { sh = sh.push(Shape::End("td"@)); }
    emit_plain(out, Ghost(sh), "td", true);
    proof { sh = sh.push(Shape::Start("td"@, Seq::empty())); }
    if entries.len() == 0 {
        emit_br(out, Ghost(sh));
        proof { sh = sh + br(); }
    } else {
        emit_plain(out, Ghost(sh), "ul", true);
        proof { sh = sh.push(Shape::Start("ul"@, Seq::empty())); }
        emit_nested_list(out, Ghost(sh), entries);
        proof { sh = sh + nested_list(link_views(entries@), 0, 0); }
        emit_plain(out, Ghost(sh), "ul", false);
        proof { sh = sh.push(Shape::End("ul"@)); }
    }
    emit_plain(out, Ghost(sh), "td", false);
    proof { sh = sh.push(Shape::End("td"@)); }
    emit_plain(out, Ghost(sh), "tr", false);
    proof {
        sh = sh.push(Shape::End("tr"@));
        assert(sh =~= shapes@ + linear_row(sv, link_views(entries@)));
    }
}

fn emit_linear_table(out: &mut Vec<XmlEvent>, shapes: Ghost<Seq<Shape>>, rows: &Vec<(IndexLink, Vec<IndexLink>)>)
    requires
        conforms_all(old(out)@, shapes@),
    ensures
        conforms_all(final(out)@, shapes@ + row(cell(seq![Shape::Text("Spine"@)]) + cell(seq![Shape::Text("Table of Contents"@)]))
            + linear_rows(rows@.map_values(|r: (IndexLink, Vec<IndexLink>)| ((r.0.href@, r.0.label@, r.0.level), link_views(r.1@))))),
{
    let ghost mut sh = shapes@;
    emit_plain(out, Ghost(sh), "tr", true);
    proof { sh = sh.push(Shape::Start("tr"@, Seq::empty())); }
    emit_text_cell(out, Ghost(sh), "Spine");
    proof { sh = sh + cell(seq![Shape::Text("Spine"@)]); }
    emit_text_cell(out, Ghost(sh), "Table of Contents");
    proof { sh = sh + cell(seq![Shape::Text("Table of Contents"@)]); }
    emit_plain(out, Ghost(sh), "tr", false);
    proof {
        sh = sh.push(Shape::End("tr"@));
        assert(sh =~= shapes@ + row(cell(seq![Shape::Text("Spine"@)]) + cell(seq![Shape::Text("Table of Contents"@)])));
    }
    let ghost header = sh;
    let ghost rv = rows@.map_values(|r: (IndexLink, Vec<IndexLink>)| ((r.0.href@, r.0.label@, r.0.level), link_views(r.1@)));
    let mut k: usize = 0;
    while k < rows.len()
        invariant
            k <= rows.len(),
            rv == rows@.map_values(|r: (IndexLink, Vec<IndexLink>)| ((r.0.href@, r.0.label@, r.0.level), link_views(r.1@))),
            conforms_all(out@, header + linear_rows(rv.subrange(0, k as int))),
        decreases rows.len() - k,
    {
        emit_linear_row(out, Ghost(header + linear_rows(rv.subrange(0, k as int))), &rows[k].0, &rows[k].1);
        assert(rv.subrange(0, k as int + 1).drop_last() =~= rv.subrange(0, k as int));
        assert(header + linear_rows(rv.subrange(0, k as int)) + linear_row(rv[k as int].0, rv[k as int].1) =~= header + linear_rows(rv.subrange(0, k as int + 1)));
        k = k + 1;
    }
    assert(rv.subrange(0, rows.len() as int) =~= rv);
}

fn emit_nonlinear_header(out: &mut Vec<XmlEvent>, shapes: Ghost<Seq<Shape>>)
    requires
        conforms_all(old(out)@, shapes@),
    ensures
        conforms_all(final(out)@, shapes@ + row(cell(seq![Shape::Text("Spine"@)]) + cell(br()) + cell(seq![Shape::Text("Table of Contents"@)]))),
{
    let ghost mut sh = shapes@;
    emit_plain(out, Ghost(sh), "tr", true);
    proof { sh = sh.push(Shape::Start("tr"@, Seq::empty())); }
    emit_text_cell(out, Ghost(sh), "Spine");
    proof { sh = sh + cell(seq![Shape::Text("Spine"@)]); }
    emit_br_cell(out, Ghost(sh));
    proof { sh = sh + cell(br()); }
    emit_text_cell(out, Ghost(sh), "Table of Contents");
    proof { sh = sh + cell(seq![Shape::Text("Table of Contents"@)]); }
    emit_plain(out, Ghost(sh), "tr", false);
    proof {
        sh = sh.push(Shape::End("tr"@));
        assert(sh =~= shapes@ + row(cell(seq![Shape::Text("Spine"@)]) + cell(br()) + cell(seq![Shape::Text("Table of Contents"@)])));
    }
}

fn emit_br_cell(out: &mut Vec<XmlEvent>, shapes: Ghost<Seq<Shape>>)
    requires
        conforms_all(old(out)@, shapes@),
    ensures
        conforms_all(final(out)@, shapes@ + cell(br())),
{
    emit_plain(out, shapes, "td", true);
    let ghost s1 = shapes@.push(Shape::Start("td"@, Seq::empty()));
    emit_br(out, Ghost(s1));
    emit_plain(out, Ghost(s1 + br()), "td", false);
    assert((s1 + br()).push(Shape::End("td"@)) =~= shapes@ + cell(br()));
}

fn emit_nonlinear_body(out: &mut Vec<XmlEvent>, shapes: Ghost<Seq<Shape>>, spine: &Vec<IndexLink>, toc: &Vec<IndexLink>)
    requires
        conforms_all(old(out)@, shapes@),
    ensures
        conforms_all(final(out)@, shapes@ + row(cell(ul(flat_items(link_views(spine@)))) + cell(br()) + cell(ul(nested_list(link_views(toc@), 0, 0))))),
{
    let ghost mut sh = shapes@;
    emit_plain(out, Ghost(sh), "tr", true);
    proof { sh = sh.push(Shape::Start("tr"@, Seq::empty())); }
    emit_plain(out, Ghost(sh), "td", true);
    proof { sh = sh.push(Shape::Start("td"@, Seq::empty())); }
    emit_plain(out, Ghost(sh), "ul", true);
    proof { sh = sh.push(Shape::Start("ul"@, Seq::empty())); }
    emit_flat_items(out, Ghost(sh), spine);
    proof { sh = sh + flat_items(link_views(spine@)); }
    emit_plain(out, Ghost(sh), "ul", false);
    proof { sh = sh.push(Shape::End("ul"@)); }
    emit_plain(out, Ghost(sh), "td", false);
    proof { sh = sh.push(Shape::End("td"@)); }
    emit_br_cell(out, Ghost(sh));
    proof { sh = sh + cell(br()); }
    emit_plain(out, Ghost(sh), "td", true);
    proof { sh = sh.push(Shape::Start("td"@, Seq::empty())); }
    emit_plain(out, Ghost(sh), "ul", true);
    proof { sh = sh.push(Shape::Start("ul"@, Seq::empty())); }
    emit_nested_list(out, Ghost(sh), toc);
    proof { sh = sh + nested_list(link_views(toc@), 0, 0); }
    emit_plain(out, Ghost(sh), "ul", false);
    proof { sh = sh.push(Shape::End("ul"@)); }
    emit_plain(out, Ghost(sh), "td", false);
    proof { sh = sh.push(Shape::End("td"@)); }
    emit_plain(out, Ghost(sh), "tr", false);
    proof {
        sh = sh.push(Shape::End("tr"@));
        assert(sh =~= shapes@ + row(cell(ul(flat_items(link_views(spine@)))) + cell(br()) + cell(ul(nested_list(link_views(toc@), 0, 0)))));
    }
}

fn emit_table(out: &mut Vec<XmlEvent>, shapes: Ghost<Seq<Shape>>, table: &IndexTable)
    requires
        conforms_all(old(out)@, shapes@),
    ensures
        conforms_all(final(out)@, shapes@ + table_view(*table)),
{
    match table {
        IndexTable::Linear(rows) => emit_linear_table(out, shapes, rows),
        IndexTable::Nonlinear(spine, toc) => {
            emit_nonlinear_header(out, shapes);
            let ghost s1 = shapes@ + row(cell(seq![Shape::Text("Spine"@)]) + cell(br()) + cell(seq![Shape::Text("Table of Contents"@)]));
            emit_nonlinear_body(out, Ghost(s1), spine, toc);
            assert(s1 + row(cell(ul(flat_items(link_views(spine@)))) + cell(br()) + cell(ul(nested_list(link_views(toc@), 0, 0)))) =~= shapes@ + table_view(*table));
        },
    }
}

/// The declaration, the head, and the body's start of the index page.
pub open spec fn page_head(title: Seq<char>) -> Seq<Shape> {
    seq![
        Shape::Declaration,
        Shape::Start("html"@, seq![("xmlns"@, XHTML_NAMESPACE@), ("lang"@, "en"@)]),
        Shape::Start("head"@, Seq::empty()),
        Shape::Start("meta"@, seq![("charset"@, "utf-8"@)]),
        Shape::End("meta"@),
    ] + text_element("title"@, Seq::empty(), "rib | "@ + title + " | Index"@) + seq![
        Shape::Start("link"@, seq![("rel"@, "stylesheet"@), ("href"@, "index_styles.css"@)]),
        Shape::End("link"@),
        Shape::End("head"@),
        Shape::Start("body"@, Seq::empty()),
    ]
}

fn emit_page_head(out: &mut Vec<XmlEvent>, shapes: Ghost<Seq<Shape>>, title: &str)
    requires
        conforms_all(old(out)@, shapes@),
    ensures
        conforms_all(final(out)@, shapes@ + page_head(title@)),
{
    let ghost mut sh: Seq<Shape> = shapes@;
    emit(out, Ghost(sh), declaration(), Ghost(Shape::Declaration));
    proof { sh = sh.push(Shape::Declaration); }
    let html = vec![attr("xmlns", XHTML_NAMESPACE), attr("lang", "en")];
    assert(html@.map_values(|p: (String, String)| (p.0@, p.1@)) =~= seq![("xmlns"@, XHTML_NAMESPACE@), ("lang"@, "en"@)]);
    emit(out, Ghost(sh), start_element("html", html), Ghost(Shape::Start("html"@, seq![("xmlns"@, XHTML_NAMESPACE@), ("lang"@, "en"@)])));
    proof { sh = sh.push(Shape::Start("html"@, seq![("xmlns"@, XHTML_NAMESPACE@), ("lang"@, "en"@)])); }
    emit_plain(out, Ghost(sh), "head", true);
    proof { sh = sh.push(Shape::Start("head"@, Seq::empty())); }
    emit(out, Ghost(sh), start_with("meta", "charset", "utf-8"), Ghost(Shape::Start("meta"@, seq![("charset"@, "utf-8"@)])));
    proof { sh = sh.push(Shape::Start("meta"@, seq![("charset"@, "utf-8"@)])); }
    emit_plain(out, Ghost(sh), "meta", false);
    proof { sh = sh.push(Shape::End("meta"@)); }
    let full_title = concat3("rib | ", title, " | Index");
    let none: Vec<(String, String)> = Vec::new();
    assert(none@.map_values(|p: (String, String)| (p.0@, p.1@)) =~= Seq::<(Seq<char>, Seq<char>)>::empty());
    emit_text_element(out, Ghost(sh), "title", none, full_title.as_str());
    proof {
        sh = sh + text_element("title"@, Seq::empty(), "rib | "@ + title@ + " | Index"@);
    }
    let link = vec![attr("rel", "stylesheet"), attr("href", "index_styles.css")];
    assert(link@.map_values(|p: (String, String)| (p.0@, p.1@)) =~= seq![("rel"@, "stylesheet"@), ("href"@, "index_styles.css"@)]);
    emit(out, Ghost(sh), start_element("link", link), Ghost(Shape::Start("link"@, seq![("rel"@, "stylesheet"@), ("href"@, "index_styles.css"@)])));
    proof { sh = sh.push(Shape::Start("link"@, seq![("rel"@, "stylesheet"@), ("href"@, "index_styles.css"@)])); }
    emit_plain(out, Ghost(sh), "link", false);
    proof { sh = sh.push(Shape::End("link"@)); }
    emit_plain(out, Ghost(sh), "head", false);
    proof { sh = sh.push(Shape::End("head"@)); }
    emit_plain(out, Ghost(sh), "body", true);
    proof { sh = sh.push(Shape::Start("body"@, Seq::empty())); }
    assert(sh =~= shapes@ + page_head(title@));
}

/// The events of an index page (see `index_page`).
#[verifier::spinoff_prover]
#[verifier::rlimit(50)]
pub fn index_page_events(
    title: &str,
    creators: &Option<String>,
    cover: &Option<String>,
    start: &str,
    end: &str,
    table: &IndexTable,
) -> (r: Vec<XmlEvent>)
    ensures
        conforms_all(r@, index_page(title@, crate::style::opt_str(*creators), crate::style::opt_str(*cover), start@, end@, table_view(*table))),
{
    let mut out: Vec<XmlEvent> = Vec::new();
    emit_page_head(&mut out, Ghost(Seq::empty()), title);
    let ghost mut sh: Seq<Shape> = Seq::empty() + page_head(title@);
    assert(sh =~= page_head(title@));
    let ghost top = sh;
    emit_heading_part(&mut out, Ghost(sh), title, creators, cover, start, end);
    proof {
        sh = sh + heading_part(title@, crate::style::opt_str(*creators), crate::style::opt_str(*cover), start@, end@);
    }
    emit_plain(&mut out, Ghost(sh), "table", true);
    proof { sh = sh.push(Shape::Start("table"@, Seq::empty())); }
    emit_table(&mut out, Ghost(sh), table);
    proof { sh = sh + table_view(*table); }
    emit_plain(&mut out, Ghost(sh), "table", false);
    proof { sh = sh.push(Shape::End("table"@)); }
    emit_plain(&mut out, Ghost(sh), "body", false);
    proof { sh = sh.push(Shape::End("body"@)); }
    emit_plain(&mut out, Ghost(sh), "html", false);
    proof {
        sh = sh.push(Shape::End("html"@));
        reveal(index_page);
        assert(sh =~= index_page(title@, crate::style::opt_str(*creators), crate::style::opt_str(*cover), start@, end@, table_view(*table)));
    }
    out
}

/// The top of the index page's body.
pub open spec fn heading_part(title: Seq<char>, creators: Option<Seq<char>>, cover: Option<Seq<char>>, start: Seq<char>, end: Seq<char>) -> Seq<Shape> {
    text_element("h1"@, Seq::empty(), title) + match creators {
        Some(c) => text_element("h3"@, Seq::empty(), c),
        None => Seq::empty(),
    } + match cover {
        Some(c) => seq![Shape::Start("img"@, seq![("alt"@, "book cover image"@), ("src"@, c)]), Shape::End("img"@)],
        None => Seq::empty(),
    } + seq![Shape::Start("p"@, Seq::empty())] + text_element("a"@, seq![("href"@, start)], "Start"@) + seq![Shape::End("p"@)]
      + seq![Shape::Start("p"@, Seq::empty())] + text_element("a"@, seq![("href"@, end)], "End"@) + seq![Shape::End("p"@)]
}

fn emit_heading_part(out: &mut Vec<XmlEvent>, shapes: Ghost<Seq<Shape>>, title: &str, creators: &Option<String>, cover: &Option<String>, start: &str, end: &str)
    requires
        conforms_all(old(out)@, shapes@),
    ensures
        conforms_all(final(out)@, shapes@ + heading_part(title@, crate::style::opt_str(*creators), crate::style::opt_str(*cover), start@, end@)),
{
    let ghost mut sh = shapes@;
    let none: Vec<(String, String)> = Vec::new();
    assert(none@.map_values(|p: (String, String)| (p.0@, p.1@)) =~= Seq::<(Seq<char>, Seq<char>)>::empty());
    emit_text_element(out, Ghost(sh), "h1", none, title);
    proof { sh = sh + text_element("h1"@, Seq::empty(), title@); }
    match creators {
        Some(c) => {
            let none2: Vec<(String, String)> = Vec::new();
            assert(none2@.map_values(|p: (String, String)| (p.0@, p.1@)) =~= Seq::<(Seq<char>, Seq<char>)>::empty());
            emit_text_element(out, Ghost(sh), "h3", none2, c.as_str());
            proof { sh = sh + text_element("h3"@, Seq::empty(), c@); }
        },
        None => {
            proof { assert(sh + Seq::<Shape>::empty() =~= sh); }
        },
    }
    match cover {
        Some(c) => {
            let img = vec![attr("alt", "book cover image"), attr("src", c.as_str())];
            assert(img@.map_values(|p: (String, String)| (p.0@, p.1@)) =~= seq![("alt"@, "book cover image"@), ("src"@, c@)]);
            emit(out, Ghost(sh), start_element("img", img), Ghost(Shape::Start("img"@, seq![("alt"@, "book cover image"@), ("src"@, c@)])));
            proof { sh = sh.push(Shape::Start("img"@, seq![("alt"@, "book cover image"@), ("src"@, c@)])); }
            emit_plain(out, Ghost(sh), "img", false);
            proof { sh = sh.push(Shape::End("img"@)); }
        },
        None => {},
    }
    emit_paragraph_link(out, Ghost(sh), start, "Start");
    proof { sh = sh + paragraph_link(start@, "Start"@); }
    emit_paragraph_link(out, Ghost(sh), end, "End");
    proof {
        sh = sh + paragraph_link(end@, "End"@);
        assert(sh =~= shapes@ + heading_part(title@, crate::style::opt_str(*creators), crate::style::opt_str(*cover), start@, end@));
    }
}

pub open spec fn paragraph_link(href: Seq<char>, text: Seq<char>) -> Seq<Shape> {
    seq![Shape::Start("p"@, Seq::empty())] + text_element("a"@, seq![("href"@, href)], text) + seq![Shape::End("p"@)]
}

fn emit_paragraph_link(out: &mut Vec<XmlEvent>, shapes: Ghost<Seq<Shape>>, href: &str, text: &str)
    requires
        conforms_all(old(out)@, shapes@),
    ensures
        conforms_all(final(out)@, shapes@ + paragraph_link(href@, text@)),
{
    emit_plain(out, shapes, "p", true);
    let ghost s1 = shapes@.push(Shape::Start("p"@, Seq::empty()));
    let a = vec![attr("href", href)];
    assert(a@.map_values(|p: (String, String)| (p.0@, p.1@)) =~= seq![("href"@, href@)]);
    emit_text_element(out, Ghost(s1), "a", a, text);
    let ghost s2 = s1 + text_element("a"@, seq![("href"@, href@)], text@);
    emit_plain(out, Ghost(s2), "p", false);
    assert(s2.push(Shape::End("p"@)) =~= shapes@ + paragraph_link(href@, text@));
}

/// Where the index page links to spine position `i`: its navigation page
/// when sections sit in wrappers, else the section under the contents directory.
pub open spec fn spine_href(path: Seq<char>, i: int, inject: bool, maps: Seq<SpineNavigationMap>, contents_dir: Seq<char>) -> Seq<char> {
    if inject {
        maps[i].navigation_filename@
    } else {
        crate::paths::path_join(contents_dir, path)
    }
}

fn spine_link(spine: &Vec<EpubSpineItem>, i: usize, inject: bool, maps: &Vec<SpineNavigationMap>, contents_dir: &str) -> (r: IndexLink)
    requires
        i < spine.len(),
        maps.len() == spine.len(),
    ensures
        r.href@ == spine_href(spine@[i as int].path@, i as int, inject, maps@, contents_dir@),
        r.label@ == spine@[i as int].path@,
        r.level == 0,
{
    let href = if inject {
        maps[i].navigation_filename.clone()
    } else {
        crate::paths::join_path(contents_dir, spine[i].path.as_str())
    };
    IndexLink { href, label: spine[i].path.clone(), level: 0 }
}

/// Where the index page links to an entry: the navigation page of the first
/// spine item it targets, fragment kept, when sections sit in wrappers (none
/// when no spine item has the target); else the target under the contents
/// directory.
pub open spec fn toc_href(spine: Seq<EpubSpineItem>, e: TocEntryView, inject: bool, maps: Seq<SpineNavigationMap>, contents_dir: Seq<char>) -> Option<Seq<char>> {
    if inject {
        match spine_position(spine_paths(spine), e.1) {
            Some(k) => Some(maps[k].navigation_filename@ + match e.3 {
                Some(f) => f,
                None => Seq::empty(),
            }),
            None => None,
        }
    } else {
        Some(crate::paths::path_join(contents_dir, e.2))
    }
}

fn toc_link(spine: &Vec<EpubSpineItem>, e: &TocEntry, inject: bool, maps: &Vec<SpineNavigationMap>, contents_dir: &str) -> (r: Result<IndexLink, IndexError>)
    requires
        maps.len() == spine.len(),
    ensures
        match r {
            Ok(l) => toc_href(spine@, e@, inject, maps@, contents_dir@) == Some(l.href@) && l.label@ == e.label@ && l.level == e.nesting_level,
            Err(x) => toc_href(spine@, e@, inject, maps@, contents_dir@).is_none() && x == IndexError::Internal,
        },
{
    let href = if inject {
        match position_in_spine(spine, &e.path_without_fragment) {
            Some(k) => {
                let mut h = maps[k].navigation_filename.clone();
                match &e.fragment {
                    Some(f) => h.append(f.as_str()),
                    None => {
                        assert(h@ =~= maps@[k as int].navigation_filename@ + Seq::<char>::empty());
                    },
                }
                h
            },
            None => return Err(IndexError::Internal),
        }
    } else {
        crate::paths::join_path(contents_dir, e.path_with_fragment.as_str())
    };
    Ok(IndexLink { href, label: e.label.clone(), level: e.nesting_level })
}

/// The entries' links; an error when one of them has no target page.
fn toc_links(spine: &Vec<EpubSpineItem>, entries: &Vec<TocEntry>, inject: bool, maps: &Vec<SpineNavigationMap>, contents_dir: &str) -> (r: Result<Vec<IndexLink>, IndexError>)
    requires
        maps.len() == spine.len(),
    ensures
        match r {
            Ok(v) => v.len() == entries.len() && forall|i: int| 0 <= i < v.len() ==> toc_href(spine@, entries@[i]@, inject, maps@, contents_dir@) == Some(#[trigger] v@[i].href@)
                && v@[i].label@ == entries@[i].label@ && v@[i].level == entries@[i].nesting_level,
            Err(_) => entries_fail(spine@, entries@, inject, maps@, contents_dir@),
        },
{
    let mut out: Vec<IndexLink> = Vec::new();
    let mut i: usize = 0;
    while i < entries.len()
        invariant
            i <= entries.len(),
            out.len() == i,
            maps.len() == spine.len(),
            forall|k: int| 0 <= k < i ==> toc_href(spine@, entries@[k]@, inject, maps@, contents_dir@) == Some(#[trigger] out@[k].href@)
                && out@[k].label@ == entries@[k].label@ && out@[k].level == entries@[k].nesting_level,
        decreases entries.len() - i,
    {
        match toc_link(spine, &entries[i], inject, maps, contents_dir) {
            Ok(l) => out.push(l),
            Err(x) => return Err(x),
        }
        i = i + 1;
    }
    Ok(out)
}

/// The links conform to the entries.
pub open spec fn links_for_entries(spine: Seq<EpubSpineItem>, entries: Seq<TocEntry>, links: Seq<IndexLink>, inject: bool, maps: Seq<SpineNavigationMap>, contents_dir: Seq<char>) -> bool {
    links.len() == entries.len() && forall|i: int| 0 <= i < links.len() ==> toc_href(spine, entries[i]@, inject, maps, contents_dir) == Some(#[trigger] links[i].href@)
        && links[i].label@ == entries[i].label@ && links[i].level == entries[i].nesting_level
}

/// The table resolves the index's links, row by row or column by column.
pub open spec fn table_resolves(index: EpubIndex, t: IndexTable, spine: Seq<EpubSpineItem>, inject: bool, maps: Seq<SpineNavigationMap>, contents_dir: Seq<char>) -> bool {
    match (index, t) {
        (EpubIndex::TocLinearRelativeToSpine(rows), IndexTable::Linear(out)) => linear_resolves(rows@, out@, spine, inject, maps, contents_dir),
        (EpubIndex::TocNonlinearRelativeToSpine(positions, entries), IndexTable::Nonlinear(links, toc)) => links.len() == positions.len()
            && (forall|k: int| 0 <= k < links.len() ==> is_spine_link(spine, positions@[k] as int, #[trigger] links@[k], inject, maps, contents_dir))
            && links_for_entries(spine, entries@, toc@, inject, maps, contents_dir),
        _ => false,
    }
}

pub open spec fn linear_resolves(rows: Seq<(usize, Vec<TocEntry>)>, out: Seq<(IndexLink, Vec<IndexLink>)>, spine: Seq<EpubSpineItem>, inject: bool, maps: Seq<SpineNavigationMap>, contents_dir: Seq<char>) -> bool {
    out.len() == rows.len() && forall|k: int| 0 <= k < out.len() ==> is_spine_link(spine, rows[k].0 as int, #[trigger] out[k].0, inject, maps, contents_dir)
        && links_for_entries(spine, rows[k].1@, out[k].1@, inject, maps, contents_dir)
}

/// Some entry has no target page.
pub open spec fn entries_fail(spine: Seq<EpubSpineItem>, entries: Seq<TocEntry>, inject: bool, maps: Seq<SpineNavigationMap>, contents_dir: Seq<char>) -> bool {
    exists|i: int| 0 <= i < entries.len() && toc_href(spine, (#[trigger] entries[i])@, inject, maps, contents_dir).is_none()
}

/// The index's links cannot all be resolved: a spine position out of range,
/// or an entry without a target page.
#[verifier::opaque]
pub open spec fn table_fails(index: EpubIndex, spine: Seq<EpubSpineItem>, inject: bool, maps: Seq<SpineNavigationMap>, contents_dir: Seq<char>) -> bool {
    match index {
        EpubIndex::TocLinearRelativeToSpine(rows) => exists|k: int| 0 <= k < rows.len() && ((#[trigger] rows@[k]).0 >= spine.len()
            || entries_fail(spine, rows@[k].1@, inject, maps, contents_dir)),
        EpubIndex::TocNonlinearRelativeToSpine(positions, entries) => (exists|k: int| 0 <= k < positions.len() && #[trigger] positions@[k] >= spine.len())
            || entries_fail(spine, entries@, inject, maps, contents_dir),
    }
}

/// The link is the one to spine position `i`.
pub open spec fn is_spine_link(spine: Seq<EpubSpineItem>, i: int, l: IndexLink, inject: bool, maps: Seq<SpineNavigationMap>, contents_dir: Seq<char>) -> bool {
    0 <= i < spine.len() && l.href@ == spine_href(spine[i].path@, i, inject, maps, contents_dir) && l.label@ == spine[i].path@ && l.level == 0
}

/// The creators line of the index page: the names joined by ` & `, none
/// without names.
pub open spec fn creators_line(names: Seq<String>) -> Option<Seq<char>> {
    if names.len() == 0 {
        None
    } else {
        Some(crate::css::joined(names.map_values(|n: String| n@), " & "@))
    }
}

/// The cover's location under the contents directory.
pub open spec fn cover_src(contents_dir: Seq<char>, cover: Option<String>) -> Option<Seq<char>> {
    match cover {
        Some(c) => Some(crate::paths::path_join(contents_dir, c@)),
        None => None,
    }
}

/// What `to_xhtml` gives: without a linear item, that error; else the
/// written form of the index page, whose Start and End lead to the first
/// and last linear items and whose table resolves the index's links; an
/// error only when the links cannot be resolved or the writer fails.
#[verifier::opaque]
pub open spec fn index_outcome(
    r: Result<Vec<u8>, IndexError>,
    index: EpubIndex,
    book: EpubInfo,
    inject: bool,
    maps: Seq<SpineNavigationMap>,
    contents_dir: Seq<char>,
) -> bool {
    let spine = book.spine_items@;
    match (crate::epub::first_linear(spine), crate::epub::last_linear(spine)) {
        (Some(f), Some(l)) => match r {
            Ok(b) => exists|t: IndexTable, out: Seq<XmlEvent>|
                #[trigger] table_resolves(index, t, spine, inject, maps, contents_dir) && conforms_all(
                    out,
                    index_page(
                        book.title@,
                        creators_line(book.creators@),
                        cover_src(contents_dir, book.cover_path),
                        spine_href(spine[f].path@, f, inject, maps, contents_dir),
                        spine_href(spine[l].path@, l, inject, maps, contents_dir),
                        table_view(t),
                    ),
                ) && #[trigger] crate::markup::indented_of(out) == Some(b@),
            Err(e) => table_fails(index, spine, inject, maps, contents_dir) || e is Write,
        },
        _ => r == Err::<Vec<u8>, IndexError>(IndexError::NoLinearItem),
    }
}

proof fn lemma_index_outcome(
    r: Result<Vec<u8>, IndexError>,
    index: EpubIndex,
    book: EpubInfo,
    inject: bool,
    maps: Seq<SpineNavigationMap>,
    contents_dir: Seq<char>,
    f: int,
    l: int,
    t: IndexTable,
    out: Seq<XmlEvent>,
)
    requires
        crate::epub::first_linear(book.spine_items@) == Some(f),
        crate::epub::last_linear(book.spine_items@) == Some(l),
        table_resolves(index, t, book.spine_items@, inject, maps, contents_dir),
        conforms_all(out, index_page(
            book.title@,
            creators_line(book.creators@),
            cover_src(contents_dir, book.cover_path),
            spine_href(book.spine_items@[f].path@, f, inject, maps, contents_dir),
            spine_href(book.spine_items@[l].path@, l, inject, maps, contents_dir),
            table_view(t),
        )),
        match r {
            Ok(b) => crate::markup::indented_of(out) == Some(b@),
            Err(e) => e is Write,
        },
    ensures
        index_outcome(r, index, book, inject, maps, contents_dir),
{
    reveal(index_outcome);
    if r is Ok {
        assert(table_resolves(index, t, book.spine_items@, inject, maps, contents_dir));
    }
}

proof fn lemma_no_linear_outcome(index: EpubIndex, book: EpubInfo, inject: bool, maps: Seq<SpineNavigationMap>, contents_dir: Seq<char>)
    requires
        crate::epub::first_linear(book.spine_items@).is_none() || crate::epub::last_linear(book.spine_items@).is_none(),
    ensures
        index_outcome(Err(IndexError::NoLinearItem), index, book, inject, maps, contents_dir),
{
    reveal(index_outcome);
}

proof fn lemma_table_error_outcome(r: Result<Vec<u8>, IndexError>, index: EpubIndex, book: EpubInfo, inject: bool, maps: Seq<SpineNavigationMap>, contents_dir: Seq<char>, f: int, l: int)
    requires
        crate::epub::first_linear(book.spine_items@) == Some(f),
        crate::epub::last_linear(book.spine_items@) == Some(l),
        r is Err,
        table_fails(index, book.spine_items@, inject, maps, contents_dir),
    ensures
        index_outcome(r, index, book, inject, maps, contents_dir),
{
    reveal(index_outcome);
}

proof fn lemma_row_fails(index: EpubIndex, rows: Vec<(usize, Vec<TocEntry>)>, k: int, spine: Seq<EpubSpineItem>, inject: bool, maps: Seq<SpineNavigationMap>, contents_dir: Seq<char>)
    requires
        index == EpubIndex::TocLinearRelativeToSpine(rows),
        0 <= k < rows.len(),
        rows@[k].0 >= spine.len() || entries_fail(spine, rows@[k].1@, inject, maps, contents_dir),
    ensures
        table_fails(index, spine, inject, maps, contents_dir),
{
    reveal(table_fails);
    let rs = index->TocLinearRelativeToSpine_0;
    assert(rs == rows);
    assert(rs@[k] == rows@[k]);
    assert(exists|k2: int| 0 <= k2 < rs.len() && ((#[trigger] rs@[k2]).0 >= spine.len() || entries_fail(spine, rs@[k2].1@, inject, maps, contents_dir)));
}

proof fn lemma_column_fails(index: EpubIndex, positions: Vec<usize>, entries: Vec<TocEntry>, k: int, spine: Seq<EpubSpineItem>, inject: bool, maps: Seq<SpineNavigationMap>, contents_dir: Seq<char>)
    requires
        index == EpubIndex::TocNonlinearRelativeToSpine(positions, entries),
        (0 <= k < positions.len() && positions@[k] >= spine.len()) || entries_fail(spine, entries@, inject, maps, contents_dir),
    ensures
        table_fails(index, spine, inject, maps, contents_dir),
{
    reveal(table_fails);
    let ps = index->TocNonlinearRelativeToSpine_0;
    assert(ps == positions);
    if 0 <= k < positions.len() && positions@[k] >= spine.len() {
        assert(ps@[k] >= spine.len());
        assert(exists|k2: int| 0 <= k2 < ps.len() && #[trigger] ps@[k2] >= spine.len());
    }
}

impl EpubIndex {
    /// The table with its links resolved for a rendition whose contents lie
    /// under `contents_dir`.
    pub fn table(&self, spine: &Vec<EpubSpineItem>, style: &Style, contents_dir: &str, maps: &Vec<SpineNavigationMap>) -> (r: Result<IndexTable, IndexError>)
        requires
            maps.len() == spine.len(),
        ensures
            match r {
                Ok(t) => table_resolves(*self, t, spine@, style.inject_navigation, maps@, contents_dir@),
                Err(_) => table_fails(*self, spine@, style.inject_navigation, maps@, contents_dir@),
            },
    {
        match self {
            EpubIndex::TocLinearRelativeToSpine(rows) => {
                let mut out: Vec<(IndexLink, Vec<IndexLink>)> = Vec::new();
                let mut k: usize = 0;
                while k < rows.len()
                    invariant
                        k <= rows.len(),
                        *self == EpubIndex::TocLinearRelativeToSpine(*rows),
                        maps.len() == spine.len(),
                        out.len() == k,
                        forall|j: int| 0 <= j < k ==> is_spine_link(spine@, rows@[j].0 as int, #[trigger] out@[j].0, style.inject_navigation, maps@, contents_dir@)
                            && links_for_entries(spine@, rows@[j].1@, out@[j].1@, style.inject_navigation, maps@, contents_dir@),
                    decreases rows.len() - k,
                {
                    let (i, entries) = &rows[k];
                    if *i >= spine.len() {
                        proof {
                            lemma_row_fails(*self, *rows, k as int, spine@, style.inject_navigation, maps@, contents_dir@);
                        }
                        return Err(IndexError::Internal);
                    }
                    let s = spine_link(spine, *i, style.inject_navigation, maps, contents_dir);
                    let t = match toc_links(spine, entries, style.inject_navigation, maps, contents_dir) {
                        Ok(t) => t,
                        Err(x) => {
                            proof {
                                lemma_row_fails(*self, *rows, k as int, spine@, style.inject_navigation, maps@, contents_dir@);
                            }
                            return Err(x);
                        },
                    };
                    out.push((s, t));
                    k = k + 1;
                }
                let t = IndexTable::Linear(out);
                assert(table_resolves(*self, t, spine@, style.inject_navigation, maps@, contents_dir@));
                Ok(t)
            },
            EpubIndex::TocNonlinearRelativeToSpine(positions, entries) => {
                let mut out: Vec<IndexLink> = Vec::new();
                let mut k: usize = 0;
                while k < positions.len()
                    invariant
                        k <= positions.len(),
                        *self == EpubIndex::TocNonlinearRelativeToSpine(*positions, *entries),
                        maps.len() == spine.len(),
                        out.len() == k,
                        forall|j: int| 0 <= j < k ==> is_spine_link(spine@, positions@[j] as int, #[trigger] out@[j], style.inject_navigation, maps@, contents_dir@),
                    decreases positions.len() - k,
                {
                    let i = positions[k];
                    if i >= spine.len() {
                        proof {
                            lemma_column_fails(*self, *positions, *entries, k as int, spine@, style.inject_navigation, maps@, contents_dir@);
                        }
                        return Err(IndexError::Internal);
                    }
                    out.push(spine_link(spine, i, style.inject_navigation, maps, contents_dir));
                    k = k + 1;
                }
                let t = match toc_links(spine, entries, style.inject_navigation, maps, contents_dir) {
                    Ok(t) => t,
                    Err(x) => {
                        proof {
                            lemma_column_fails(*self, *positions, *entries, 0, spine@, style.inject_navigation, maps@, contents_dir@);
                        }
                        return Err(x);
                    },
                };
                let table = IndexTable::Nonlinear(out, t);
                assert(table_resolves(*self, table, spine@, style.inject_navigation, maps@, contents_dir@));
                Ok(table)
            },
        }
    }

    /// The index page of a rendition: title, creators joined by ` & `, the
    /// cover, links to the first and last linear items, and the table.
    #[verifier::spinoff_prover]
    pub fn to_xhtml(&self, epub_info: &EpubInfo, style: &Style, contents_dir: &str, maps: &Vec<SpineNavigationMap>) -> (r: Result<Vec<u8>, IndexError>)
        requires
            maps.len() == epub_info.spine_items.len(),
        ensures
            index_outcome(r, *self, *epub_info, style.inject_navigation, maps@, contents_dir@),
    {
        let spine = &epub_info.spine_items;
        let first = match crate::epub::navigation::first_linear_index(spine) {
            Some(f) => f,
            None => {
                proof {
                    lemma_no_linear_outcome(*self, *epub_info, style.inject_navigation, maps@, contents_dir@);
                }
                return Err(IndexError::NoLinearItem);
            },
        };
        let last = match crate::epub::navigation::last_linear_index(spine) {
            Some(l) => l,
            None => {
                proof {
                    lemma_no_linear_outcome(*self, *epub_info, style.inject_navigation, maps@, contents_dir@);
                }
                return Err(IndexError::NoLinearItem);
            },
        };
        let start = spine_link(spine, first, style.inject_navigation, maps, contents_dir);
        let end = spine_link(spine, last, style.inject_navigation, maps, contents_dir);
        let creators = if epub_info.creators.len() == 0 {
            None
        } else {
            Some(join_creators(&epub_info.creators))
        };
        let cover = match &epub_info.cover_path {
            Some(c) => Some(crate::paths::join_path(contents_dir, c.as_str())),
            None => None,
        };
        let table = match self.table(spine, style, contents_dir, maps) {
            Ok(t) => t,
            Err(x) => {
                proof {
                    lemma_table_error_outcome(Err(x), *self, *epub_info, style.inject_navigation, maps@, contents_dir@, first as int, last as int);
                }
                return Err(x);
            },
        };
        let events = index_page_events(epub_info.title.as_str(), &creators, &cover, start.href.as_str(), end.href.as_str(), &table);
        let r = match crate::markup::write_indented(&events) {
            Ok(b) => Ok(b),
            Err(m) => Err(IndexError::Write(m)),
        };
        proof {
            lemma_index_outcome(r, *self, *epub_info, style.inject_navigation, maps@, contents_dir@, first as int, last as int, table, events@);
        }
        r
    }
}

/// Names joined by ` & `.
pub fn join_creators(names: &Vec<String>) -> (r: String)
    ensures
        r@ == crate::css::joined(names@.map_values(|n: String| n@), " & "@),
{
    let mut out = String::new();
    let mut i: usize = 0;
    while i < names.len()
        invariant
            i <= names.len(),
            out@ == crate::css::joined(names@.subrange(0, i as int).map_values(|n: String| n@), " & "@),
        decreases names.len() - i,
    {
        let ghost prev = out@;
        if i > 0 {
            out.append(" & ");
        }
        out.append(names[i].as_str());
        proof {
            let v = names@.subrange(0, i as int + 1).map_values(|n: String| n@);
            assert(v.drop_last() =~= names@.subrange(0, i as int).map_values(|n: String| n@));
            if i == 0 {
                assert(out@ =~= v[0]);
            }
        }
        i = i + 1;
    }
    assert(names@.subrange(0, names.len() as int) =~= names@);
    out
}

} // verus!
