//! Navigation wrappers: which neighbours a section's Previous and Next
//! controls lead to, and the wrapper page that frames the section.
use vstd::prelude::*;

use crate::css::{
    push_text,
    concat3, generate_stylesheet_img_block_unified, generate_stylesheet_link_block_unified,
    flat_model, is_flat, line_block, opt_line, push_line, push_opt_line, sheet_text,
    unified_img_block, unified_link_block, value_or, value_or_str, CssBlock, CssFile, FlatBlock,
};
use crate::epub::{first_linear, last_linear, EpubInfo, EpubSpineItem, SpineNavigationMap};
use crate::markup::{
    attr, characters, declaration, emit, end_element, start_element, start_plain, start_with,
    url_make_relative, Shape, XHTML_NAMESPACE,
};
use xml::reader::XmlEvent;
use crate::style::{
    style_background_color, style_margin_size, style_text_color, Style, StyleView,
};

verus! {

broadcast use vstd::std_specs::vec::group_vec_axioms;

/// The controls of one navigation bar: the spine positions that Previous
/// and Next lead to (`None`: disabled), and whether an Index control shows.
#[derive(Clone, Copy, Debug, PartialEq, Eq, Structural)]
pub struct NavigationBar {
    pub previous: Option<usize>,
    pub index: bool,
    pub next: Option<usize>,
}

/// The nearest linear item before position `i`.
pub open spec fn previous_linear(spine: Seq<EpubSpineItem>, i: int) -> Option<int> {
    if exists|j: int| 0 <= j < i && j < spine.len() && (#[trigger] spine[j]).linear {
        Some(choose|j: int| 0 <= j < i && j < spine.len() && (#[trigger] spine[j]).linear && forall|k: int| j < k < i && k < spine.len() ==> !(#[trigger] spine[k]).linear)
    } else {
        None
    }
}

/// The nearest linear item after position `i`.
pub open spec fn next_linear(spine: Seq<EpubSpineItem>, i: int) -> Option<int> {
    if exists|j: int| i < j < spine.len() && (#[trigger] spine[j]).linear {
        Some(choose|j: int| i < j < spine.len() && (#[trigger] spine[j]).linear && forall|k: int| i < k < j ==> !(#[trigger] spine[k]).linear)
    } else {
        None
    }
}

/// Previous at position `i`: disabled at or before the first linear item,
/// otherwise the nearest linear item before `i`.
pub open spec fn previous_control(spine: Seq<EpubSpineItem>, i: int) -> Option<usize> {
    match first_linear(spine) {
        Some(f) => if i <= f {
            None
        } else {
            match previous_linear(spine, i) {
                Some(j) => Some(j as usize),
                None => None,
            }
        },
        None => None,
    }
}

/// Next at position `i`: disabled at or after the last linear item,
/// otherwise the nearest linear item after `i`.
pub open spec fn next_control(spine: Seq<EpubSpineItem>, i: int) -> Option<usize> {
    match last_linear(spine) {
        Some(l) => if i >= l {
            None
        } else {
            match next_linear(spine, i) {
                Some(j) => Some(j as usize),
                None => None,
            }
        },
        None => None,
    }
}

/// The bar of position `i`.
#[verifier::opaque]
pub open spec fn spec_navigation_bar(spine: Seq<EpubSpineItem>, i: int, include_index: bool) -> NavigationBar {
    NavigationBar { previous: previous_control(spine, i), index: include_index, next: next_control(spine, i) }
}

pub fn first_linear_index(spine: &Vec<EpubSpineItem>) -> (r: Option<usize>)
    ensures
        match r {
            Some(i) => first_linear(spine@) == Some(i as int) && i < spine.len(),
            None => first_linear(spine@).is_none(),
        },
{
    reveal(first_linear);
    let mut i: usize = 0;
    while i < spine.len()
        invariant
            i <= spine.len(),
            forall|j: int| 0 <= j < i ==> !(#[trigger] spine@[j]).linear,
        decreases spine.len() - i,
    {
        if spine[i].linear {
            proof {
                reveal(first_linear);
            }
            let ghost c = choose|c: int| 0 <= c < spine@.len() && (#[trigger] spine@[c]).linear && forall|j: int| 0 <= j < c ==> !(#[trigger] spine@[j]).linear;
            assert(c == i) by {
                if c < i {
                } else if c > i {
                }
            }
            return Some(i);
        }
        i = i + 1;
    }
    None
}

pub fn last_linear_index(spine: &Vec<EpubSpineItem>) -> (r: Option<usize>)
    ensures
        match r {
            Some(i) => last_linear(spine@) == Some(i as int) && i < spine.len(),
            None => last_linear(spine@).is_none(),
        },
{
    reveal(last_linear);
    let mut i: usize = spine.len();
    while i > 0
        invariant
            i <= spine.len(),
            forall|j: int| i <= j < spine.len() ==> !(#[trigger] spine@[j]).linear,
        decreases i,
    {
        if spine[i - 1].linear {
            proof {
                reveal(last_linear);
            }
            let ghost c = choose|c: int| 0 <= c < spine@.len() && (#[trigger] spine@[c]).linear && forall|j: int| c < j < spine@.len() ==> !(#[trigger] spine@[j]).linear;
            assert(c == i - 1) by {
                if c < i - 1 {
                } else if c > i - 1 {
                }
            }
            return Some(i - 1);
        }
        i = i - 1;
    }
    None
}

/// The nearest linear item before `current`, scanning backward.
pub fn get_previous_linear_spine_item(spine: &Vec<EpubSpineItem>, current: usize) -> (r: Option<usize>)
    ensures
        match r {
            Some(j) => previous_linear(spine@, current as int) == Some(j as int),
            None => previous_linear(spine@, current as int).is_none(),
        },
{
    let mut i: usize = if current < spine.len() { current } else { spine.len() };
    while i > 0
        invariant
            i <= current,
            i <= spine.len(),
            forall|k: int| i <= k < current && k < spine.len() ==> !(#[trigger] spine@[k]).linear,
        decreases i,
    {
        if spine[i - 1].linear {
            let ghost s = spine@;
            let ghost c = choose|j: int| 0 <= j < current && j < s.len() && (#[trigger] s[j]).linear && forall|k: int| j < k < current && k < s.len() ==> !(#[trigger] s[k]).linear;
            assert(c == i - 1) by {
                if c < i - 1 {
                    assert(s[i - 1].linear);
                } else if c > i - 1 {
                }
            }
            return Some(i - 1);
        }
        i = i - 1;
    }
    None
}

/// The nearest linear item after `current`, scanning forward.
pub fn get_next_linear_spine_item(spine: &Vec<EpubSpineItem>, current: usize) -> (r: Option<usize>)
    ensures
        match r {
            Some(j) => next_linear(spine@, current as int) == Some(j as int),
            None => next_linear(spine@, current as int).is_none(),
        },
{
    if current >= spine.len() {
        return None;
    }
    let mut i: usize = current + 1;
    while i < spine.len()
        invariant
            current < i <= spine.len(),
            forall|k: int| current < k < i ==> !(#[trigger] spine@[k]).linear,
        decreases spine.len() - i,
    {
        if spine[i].linear {
            let ghost s = spine@;
            let ghost c = choose|j: int| current < j < s.len() && (#[trigger] s[j]).linear && forall|k: int| current < k < j ==> !(#[trigger] s[k]).linear;
            assert(c == i) by {
                if c < i {
                } else if c > i {
                    assert(s[i as int].linear);
                }
            }
            return Some(i);
        }
        i = i + 1;
    }
    None
}

#[verifier::spinoff_prover]
fn previous_of(spine: &Vec<EpubSpineItem>, spine_index: usize) -> (r: Option<usize>)
    ensures
        r == previous_control(spine@, spine_index as int),
{
    match first_linear_index(spine) {
        Some(f) => if spine_index <= f {
            None
        } else {
            get_previous_linear_spine_item(spine, spine_index)
        },
        None => None,
    }
}

#[verifier::spinoff_prover]
fn next_of(spine: &Vec<EpubSpineItem>, spine_index: usize) -> (r: Option<usize>)
    ensures
        r == next_control(spine@, spine_index as int),
{
    match last_linear_index(spine) {
        Some(l) => if spine_index >= l {
            None
        } else {
            get_next_linear_spine_item(spine, spine_index)
        },
        None => None,
    }
}

/// The navigation bar of spine position `spine_index` (see `spec_navigation_bar`).
pub fn navigation_bar(spine: &Vec<EpubSpineItem>, spine_index: usize, include_index: bool) -> (r: NavigationBar)
    ensures
        r == spec_navigation_bar(spine@, spine_index as int, include_index),
        r.index == include_index,
{
    reveal(spec_navigation_bar);
    NavigationBar {
        previous: previous_of(spine, spine_index),
        index: include_index,
        next: next_of(spine, spine_index),
    }
}

/// In a spine of linear items only, the first item's bar has Previous
/// disabled and Next on the item after it, the last item's the reverse.
pub proof fn lemma_boundary_controls(spine: Seq<EpubSpineItem>, include_index: bool)
    requires
        spine.len() >= 2,
        forall|i: int| 0 <= i < spine.len() ==> (#[trigger] spine[i]).linear,
    ensures
        spec_navigation_bar(spine, 0, include_index).previous.is_none(),
        spec_navigation_bar(spine, 0, include_index).next == Some(1usize),
        spec_navigation_bar(spine, spine.len() - 1, include_index).previous == Some((spine.len() - 2) as usize),
        spec_navigation_bar(spine, spine.len() - 1, include_index).next.is_none(),
{
    reveal(spec_navigation_bar);
    reveal(first_linear);
    reveal(last_linear);
    let n = spine.len() as int;
    assert(spine[0].linear);
    assert(spine[n - 1].linear);
    assert(spine[1].linear);
    assert(spine[n - 2].linear);
    let f = choose|i: int| 0 <= i < spine.len() && (#[trigger] spine[i]).linear && forall|j: int| 0 <= j < i ==> !(#[trigger] spine[j]).linear;
    assert(f == 0) by {
        if f > 0 {
            assert(spine[0].linear);
        }
    }
    let l = choose|i: int| 0 <= i < spine.len() && (#[trigger] spine[i]).linear && forall|j: int| i < j < spine.len() ==> !(#[trigger] spine[j]).linear;
    assert(l == n - 1) by {
        if l < n - 1 {
            assert(spine[n - 1].linear);
        }
    }
    let nx = choose|j: int| 0 < j < spine.len() && (#[trigger] spine[j]).linear && forall|k: int| 0 < k < j ==> !(#[trigger] spine[k]).linear;
    assert(nx == 1) by {
        if nx > 1 {
            assert(spine[1].linear);
        }
    }
    let pv = choose|j: int| 0 <= j < n - 1 && j < spine.len() && (#[trigger] spine[j]).linear && forall|k: int| j < k < n - 1 && k < spine.len() ==> !(#[trigger] spine[k]).linear;
    assert(pv == n - 2) by {
        if pv < n - 2 {
            assert(spine[n - 2].linear);
        }
    }
}

/// The wrapper page's body: the whole viewport, in the style's colours.
pub open spec fn navigation_body_block(s: StyleView) -> FlatBlock {
    ("body"@, seq!["margin: 0;"@, "padding: 0;"@, "height: 100vh;"@, "width: 100vw;"@, "overflow: hidden;"@]
        + opt_line(style_text_color(s), "color: "@, ";"@) + opt_line(
        style_background_color(s),
        "background-color: "@,
        ";"@,
    ))
}

/// The left and right offsets of the bar, widened by the style's margin.
pub open spec fn navigation_offset(s: StyleView) -> Seq<char> {
    match style_margin_size(s) {
        Some(m) => "calc(5vh + "@ + m.0 + ")"@,
        None => "5vh"@,
    }
}

/// The width of the bar, narrowed by twice the style's margin.
pub open spec fn navigation_width(s: StyleView) -> Seq<char> {
    match style_margin_size(s) {
        Some(m) => "calc(100vw - calc(10vh + 2.5rem + calc(2 * "@ + m.0 + ")))"@,
        None => "calc(100vw - calc(10vh + 2.5rem))"@,
    }
}

/// The floating bar: fixed near the bottom, hidden until hovered.
pub open spec fn navigation_bar_block(s: StyleView) -> FlatBlock {
    ("#navigation"@, seq![
        "position: fixed;"@,
        "bottom: 5vh;"@,
        "left: "@ + navigation_offset(s) + ";"@,
        "right: "@ + navigation_offset(s) + ";"@,
        "width: "@ + navigation_width(s) + ";"@,
        "padding: 1rem;"@,
        "border: 0.25rem solid "@ + value_or(style_text_color(s), "black"@) + ";"@,
        "border-radius: 2rem;"@,
        "background: "@ + value_or(style_background_color(s), "white"@) + ";"@,
        "text-align: center;"@,
        "opacity: 0;"@,
        "transition: opacity 0.4s ease-out;"@,
    ])
}

pub open spec fn navigation_button_block(s: StyleView) -> FlatBlock {
    (".navigation-button"@, seq![
        "padding: 0.1rem;"@,
        "border: 0.1rem solid "@ + value_or(style_text_color(s), "black"@) + ";"@,
        "border-radius: 0.2rem;"@,
        "text-decoration: none;"@,
    ])
}

/// The blocks of the wrapper pages' stylesheet.
pub open spec fn navigation_sheet(s: StyleView) -> Seq<FlatBlock> {
    seq![
        navigation_body_block(s),
        ("#section"@, seq!["border: none;"@, "height: 100%;"@, "width: 100%;"@]),
        navigation_bar_block(s),
        ("#navigation:hover"@, seq!["opacity: 1;"@]),
        navigation_button_block(s),
        unified_link_block(s),
        unified_img_block(s),
    ]
}

fn generate_stylesheet_body_block(style: &Style) -> (r: CssBlock)
    ensures
        is_flat(r),
        flat_model(r) == navigation_body_block(style@),
{
    let mut lines: Vec<String> = Vec::new();
    push_line(&mut lines, "margin: 0;");
    push_line(&mut lines, "padding: 0;");
    push_line(&mut lines, "height: 100vh;");
    push_line(&mut lines, "width: 100vw;");
    push_line(&mut lines, "overflow: hidden;");
    push_opt_line(&mut lines, style.text_color(), "color: ", ";");
    push_opt_line(&mut lines, style.background_color(), "background-color: ", ";");
    let r = line_block("body", lines);
    assert(flat_model(r).1 =~= navigation_body_block(style@).1);
    r
}

fn generate_stylesheet_navigation_block(style: &Style) -> (r: CssBlock)
    ensures
        is_flat(r),
        flat_model(r) == navigation_bar_block(style@),
{
    let (offset, width) = match style.margin_size() {
        Some(m) => (
            concat3("calc(5vh + ", m.value.as_str(), ")"),
            concat3("calc(100vw - calc(10vh + 2.5rem + calc(2 * ", m.value.as_str(), ")))"),
        ),
        None => (String::from_str("5vh"), String::from_str("calc(100vw - calc(10vh + 2.5rem))")),
    };
    let mut lines: Vec<String> = Vec::new();
    push_line(&mut lines, "position: fixed;");
    push_line(&mut lines, "bottom: 5vh;");
    push_text(&mut lines, concat3("left: ", offset.as_str(), ";"));
    push_text(&mut lines, concat3("right: ", offset.as_str(), ";"));
    push_text(&mut lines, concat3("width: ", width.as_str(), ";"));
    push_line(&mut lines, "padding: 1rem;");
    push_text(&mut lines, concat3("border: 0.25rem solid ", value_or_str(style.text_color(), "black"), ";"));
    push_line(&mut lines, "border-radius: 2rem;");
    push_text(&mut lines, concat3("background: ", value_or_str(style.background_color(), "white"), ";"));
    push_line(&mut lines, "text-align: center;");
    push_line(&mut lines, "opacity: 0;");
    push_line(&mut lines, "transition: opacity 0.4s ease-out;");
    let r = line_block("#navigation", lines);
    assert(flat_model(r).1 =~= navigation_bar_block(style@).1);
    r
}

fn generate_stylesheet_navigation_button_block(style: &Style) -> (r: CssBlock)
    ensures
        is_flat(r),
        flat_model(r) == navigation_button_block(style@),
{
    let mut lines: Vec<String> = Vec::new();
    push_line(&mut lines, "padding: 0.1rem;");
    push_text(&mut lines, concat3("border: 0.1rem solid ", value_or_str(style.text_color(), "black"), ";"));
    push_line(&mut lines, "border-radius: 0.2rem;");
    push_line(&mut lines, "text-decoration: none;");
    let r = line_block(".navigation-button", lines);
    assert(flat_model(r).1 =~= navigation_button_block(style@).1);
    r
}

/// The wrapper pages' stylesheet.
pub fn generate_stylesheet(style: &Style) -> (r: String)
    ensures
        sheet_text(navigation_sheet(style@)) == Some(r@),
{
    let mut section: Vec<String> = Vec::new();
    push_line(&mut section, "border: none;");
    push_line(&mut section, "height: 100%;");
    push_line(&mut section, "width: 100%;");
    let mut hover: Vec<String> = Vec::new();
    push_line(&mut hover, "opacity: 1;");
    assert(section@.map_values(|l: String| l@) =~= seq!["border: none;"@, "height: 100%;"@, "width: 100%;"@]);
    assert(hover@.map_values(|l: String| l@) =~= seq!["opacity: 1;"@]);
    let blocks = vec![
        generate_stylesheet_body_block(style),
        line_block("#section", section),
        generate_stylesheet_navigation_block(style),
        line_block("#navigation:hover", hover),
        generate_stylesheet_navigation_button_block(style),
        generate_stylesheet_link_block_unified(style),
        generate_stylesheet_img_block_unified(style),
    ];
    let file = CssFile::new(blocks);
    assert(file.blocks@.map_values(|b: CssBlock| flat_model(b)) =~= navigation_sheet(style@));
    proof {
        crate::css::lemma_sheet_has_text(navigation_sheet(style@), 1);
    }
    match file.flat_text() {
        Some(t) => t,
        None => String::new(),
    }
}

/// The three events of an element holding only text.
pub open spec fn text_element(name: Seq<char>, attrs: Seq<(Seq<char>, Seq<char>)>, text: Seq<char>) -> Seq<Shape> {
    seq![Shape::Start(name, attrs), Shape::Text(text), Shape::End(name)]
}

/// The wrapper page: the section in a frame, then the bar. Previous without
/// a target is a link that leads nowhere; Next without one is a disabled
/// button; the Index control appears only with a target.
#[verifier::opaque]
pub open spec fn navigation_page(
    title: Seq<char>,
    source: Seq<char>,
    stylesheet: Seq<char>,
    previous: Option<Seq<char>>,
    index: Option<Seq<char>>,
    next: Option<Seq<char>>,
) -> Seq<Shape> {
    seq![
        Shape::Declaration,
        Shape::Start("html"@, seq![("xmlns"@, XHTML_NAMESPACE@), ("lang"@, "en"@)]),
        Shape::Start("head"@, Seq::empty()),
        Shape::Start("meta"@, seq![("charset"@, "utf-8"@)]),
        Shape::End("meta"@),
    ] + text_element("title"@, Seq::empty(), "rib | "@ + title) + seq![
        Shape::Start("link"@, seq![("rel"@, "stylesheet"@), ("href"@, stylesheet)]),
        Shape::End("link"@),
        Shape::End("head"@),
        Shape::Start("body"@, Seq::empty()),
        Shape::Start("iframe"@, seq![("id"@, "section"@), ("srcdoc"@, source)]),
        Shape::End("iframe"@),
        Shape::Start("nav"@, seq![("id"@, "navigation"@)]),
    ] + match previous {
        Some(h) => text_element("a"@, seq![("class"@, "navigation-button"@), ("href"@, h)], "Previous"@),
        None => text_element("a"@, seq![("class"@, "navigation-button"@)], "Previous"@),
    } + match index {
        Some(h) => text_element("a"@, seq![("class"@, "navigation-button"@), ("href"@, h)], "Index"@),
        None => Seq::empty(),
    } + match next {
        Some(h) => text_element("a"@, seq![("class"@, "navigation-button"@), ("href"@, h)], "Next"@),
        None => text_element("button"@, seq![("type"@, "button"@), ("disabled"@, "disabled"@)], "Next"@),
    } + seq![Shape::End("nav"@), Shape::End("body"@), Shape::End("html"@)]
}

fn attrs2(a: &str, b: &str, c: &str, d: &str) -> (r: Vec<(String, String)>)
    ensures
        r@.map_values(|p: (String, String)| (p.0@, p.1@)) == seq![(a@, b@), (c@, d@)],
{
    let r = vec![attr(a, b), attr(c, d)];
    assert(r@.map_values(|p: (String, String)| (p.0@, p.1@)) =~= seq![(a@, b@), (c@, d@)]);
    r
}

/// The events of a wrapper page (see `navigation_page`).
#[verifier::spinoff_prover]
#[verifier::rlimit(50)]
pub fn navigation_page_events(
    title: &str,
    source: &str,
    stylesheet: &str,
    previous: &Option<String>,
    index: &Option<String>,
    next: &Option<String>,
) -> (r: Vec<XmlEvent>)
    ensures
        crate::markup::conforms_all(r@, navigation_page(
            title@,
            source@,
            stylesheet@,
            crate::style::opt_str(*previous),
            crate::style::opt_str(*index),
            crate::style::opt_str(*next),
        )),
{
    let mut out: Vec<XmlEvent> = Vec::new();
    let ghost mut sh: Seq<Shape> = Seq::empty();
    emit(&mut out, Ghost(sh), declaration(), Ghost(Shape::Declaration));
    proof { sh = sh.push(Shape::Declaration); }
    let html = start_element("html", attrs2("xmlns", XHTML_NAMESPACE, "lang", "en"));
    emit(&mut out, Ghost(sh), html, Ghost(Shape::Start("html"@, seq![("xmlns"@, XHTML_NAMESPACE@), ("lang"@, "en"@)])));
    proof { sh = sh.push(Shape::Start("html"@, seq![("xmlns"@, XHTML_NAMESPACE@), ("lang"@, "en"@)])); }
    emit(&mut out, Ghost(sh), start_plain("head"), Ghost(Shape::Start("head"@, Seq::empty())));
    proof { sh = sh.push(Shape::Start("head"@, Seq::empty())); }
    emit(&mut out, Ghost(sh), start_with("meta", "charset", "utf-8"), Ghost(Shape::Start("meta"@, seq![("charset"@, "utf-8"@)])));
    proof { sh = sh.push(Shape::Start("meta"@, seq![("charset"@, "utf-8"@)])); }
    emit(&mut out, Ghost(sh), end_element("meta"), Ghost(Shape::End("meta"@)));
    proof { sh = sh.push(Shape::End("meta"@)); }
    emit(&mut out, Ghost(sh), start_plain("title"), Ghost(Shape::Start("title"@, Seq::empty())));
    proof { sh = sh.push(Shape::Start("title"@, Seq::empty())); }
    let full_title = crate::css::concat3("rib | ", title, "");
    proof {
        reveal_strlit("");
        assert(full_title@ =~= "rib | "@ + title@);
    }
    emit(&mut out, Ghost(sh), characters(full_title.as_str()), Ghost(Shape::Text("rib | "@ + title@)));
    proof { sh = sh.push(Shape::Text("rib | "@ + title@)); }
    emit(&mut out, Ghost(sh), end_element("title"), Ghost(Shape::End("title"@)));
    proof { sh = sh.push(Shape::End("title"@)); }
    emit(&mut out, Ghost(sh), start_element("link", attrs2("rel", "stylesheet", "href", stylesheet)), Ghost(Shape::Start("link"@, seq![("rel"@, "stylesheet"@), ("href"@, stylesheet@)])));
    proof { sh = sh.push(Shape::Start("link"@, seq![("rel"@, "stylesheet"@), ("href"@, stylesheet@)])); }
    emit(&mut out, Ghost(sh), end_element("link"), Ghost(Shape::End("link"@)));
    proof { sh = sh.push(Shape::End("link"@)); }
    emit(&mut out, Ghost(sh), end_element("head"), Ghost(Shape::End("head"@)));
    proof { sh = sh.push(Shape::End("head"@)); }
    emit(&mut out, Ghost(sh), start_plain("body"), Ghost(Shape::Start("body"@, Seq::empty())));
    proof { sh = sh.push(Shape::Start("body"@, Seq::empty())); }
    emit(&mut out, Ghost(sh), start_element("iframe", attrs2("id", "section", "srcdoc", source)), Ghost(Shape::Start("iframe"@, seq![("id"@, "section"@), ("srcdoc"@, source@)])));
    proof { sh = sh.push(Shape::Start("iframe"@, seq![("id"@, "section"@), ("srcdoc"@, source@)])); }
    emit(&mut out, Ghost(sh), end_element("iframe"), Ghost(Shape::End("iframe"@)));
    proof { sh = sh.push(Shape::End("iframe"@)); }
    emit(&mut out, Ghost(sh), start_with("nav", "id", "navigation"), Ghost(Shape::Start("nav"@, seq![("id"@, "navigation"@)])));
    proof { sh = sh.push(Shape::Start("nav"@, seq![("id"@, "navigation"@)])); }
    let ghost head_part = sh;
    match previous {
        Some(h) => {
            emit_text_element(&mut out, Ghost(sh), "a", attrs2("class", "navigation-button", "href", h.as_str()), "Previous");
            proof { sh = sh + text_element("a"@, seq![("class"@, "navigation-button"@), ("href"@, h@)], "Previous"@); }
        },
        None => {
            let a = vec![attr("class", "navigation-button")];
            assert(a@.map_values(|p: (String, String)| (p.0@, p.1@)) =~= seq![("class"@, "navigation-button"@)]);
            emit_text_element(&mut out, Ghost(sh), "a", a, "Previous");
            proof { sh = sh + text_element("a"@, seq![("class"@, "navigation-button"@)], "Previous"@); }
        },
    }
    match index {
        Some(h) => {
            emit_text_element(&mut out, Ghost(sh), "a", attrs2("class", "navigation-button", "href", h.as_str()), "Index");
            proof { sh = sh + text_element("a"@, seq![("class"@, "navigation-button"@), ("href"@, h@)], "Index"@); }
        },
        None => {
            proof { assert(sh + Seq::<Shape>::empty() =~= sh); }
        },
    }
    match next {
        Some(h) => {
            emit_text_element(&mut out, Ghost(sh), "a", attrs2("class", "navigation-button", "href", h.as_str()), "Next");
            proof { sh = sh + text_element("a"@, seq![("class"@, "navigation-button"@), ("href"@, h@)], "Next"@); }
        },
        None => {
            emit_text_element(&mut out, Ghost(sh), "button", attrs2("type", "button", "disabled", "disabled"), "Next");
            proof { sh = sh + text_element("button"@, seq![("type"@, "button"@), ("disabled"@, "disabled"@)], "Next"@); }
        },
    }
    emit(&mut out, Ghost(sh), end_element("nav"), Ghost(Shape::End("nav"@)));
    proof { sh = sh.push(Shape::End("nav"@)); }
    emit(&mut out, Ghost(sh), end_element("body"), Ghost(Shape::End("body"@)));
    proof { sh = sh.push(Shape::End("body"@)); }
    emit(&mut out, Ghost(sh), end_element("html"), Ghost(Shape::End("html"@)));
    proof {
        sh = sh.push(Shape::End("html"@));
        reveal(navigation_page);
        assert(sh =~= navigation_page(
            title@,
            source@,
            stylesheet@,
            crate::style::opt_str(*previous),
            crate::style::opt_str(*index),
            crate::style::opt_str(*next),
        ));
    }
    out
}

/// Appends an element that holds only text.
pub(crate) fn emit_text_element(out: &mut Vec<XmlEvent>, shapes: Ghost<Seq<Shape>>, name: &str, attrs: Vec<(String, String)>, text: &str)
    requires
        crate::markup::conforms_all(old(out)@, shapes@),
    ensures
        crate::markup::conforms_all(final(out)@, shapes@ + text_element(name@, attrs@.map_values(|p: (String, String)| (p.0@, p.1@)), text@)),
{
    let ghost av = attrs@.map_values(|p: (String, String)| (p.0@, p.1@));
    emit(out, shapes, start_element(name, attrs), Ghost(Shape::Start(name@, av)));
    emit(out, Ghost(shapes@.push(Shape::Start(name@, av))), characters(text), Ghost(Shape::Text(text@)));
    emit(out, Ghost(shapes@.push(Shape::Start(name@, av)).push(Shape::Text(text@))), end_element(name), Ghost(Shape::End(name@)));
    assert(shapes@.push(Shape::Start(name@, av)).push(Shape::Text(text@)).push(Shape::End(name@)) =~= shapes@ + text_element(name@, av, text@));
}

/// The reference from the page at `from` to the file `name` in `dir`.
pub open spec fn page_link(from: Seq<char>, dir: Seq<char>, name: Seq<char>) -> Option<Seq<char>> {
    crate::markup::url_relative_of(from, crate::markup::file_url(crate::paths::path_join(dir, name)))
}

/// The reference to the navigation page of spine position `p`, when the
/// control has a target: `Some(None)` without one, `None` when it cannot be
/// expressed.
pub open spec fn neighbour_href(from: Seq<char>, dir: Seq<char>, maps: Seq<SpineNavigationMap>, p: Option<usize>) -> Option<Option<Seq<char>>> {
    match p {
        None => Some(None),
        Some(j) => if j < maps.len() {
            match page_link(from, dir, maps[j as int].navigation_filename@) {
                Some(h) => Some(Some(h)),
                None => None,
            }
        } else {
            None
        },
    }
}

/// The reference to the index page when the style asks for one.
pub open spec fn index_href(from: Seq<char>, dir: Seq<char>, wanted: bool) -> Option<Option<Seq<char>>> {
    if wanted {
        match page_link(from, dir, "index.xhtml"@) {
            Some(h) => Some(Some(h)),
            None => None,
        }
    } else {
        Some(None)
    }
}

/// What `create_navigation_wrapper` gives: the written form of the wrapper
/// page, whose Previous and Next lead to the navigation pages that the bar
/// picks and whose Index control shows exactly when the style asks for one;
/// an internal error when a reference cannot be expressed; a write error
/// from the writer.
pub open spec fn wrapper_outcome(
    r: Result<Vec<u8>, crate::epub::xhtml::XhtmlError>,
    title: Seq<char>,
    source: Seq<char>,
    dir: Seq<char>,
    spine: Seq<EpubSpineItem>,
    maps: Seq<SpineNavigationMap>,
    i: int,
    include_index: bool,
) -> bool {
    let bar = spec_navigation_bar(spine, i, include_index);
    let from = crate::markup::file_url(crate::paths::path_join(dir, maps[i].navigation_filename@));
    match (
        page_link(from, dir, "navigation_styles.css"@),
        neighbour_href(from, dir, maps, bar.previous),
        index_href(from, dir, include_index),
        neighbour_href(from, dir, maps, bar.next),
    ) {
        (Some(css), Some(previous), Some(index), Some(next)) => match r {
            Ok(b) => exists|out: Seq<XmlEvent>|
                crate::markup::conforms_all(out, navigation_page(title, source, css, previous, index, next))
                    && #[trigger] crate::markup::indented_of(out) == Some(b@),
            Err(e) => e is Write,
        },
        _ => r == Err::<Vec<u8>, crate::epub::xhtml::XhtmlError>(crate::epub::xhtml::XhtmlError::Internal),
    }
}

fn neighbour_link(from_url: &str, dir: &str, maps: &Vec<SpineNavigationMap>, p: Option<usize>) -> (r: Result<Option<String>, crate::epub::xhtml::XhtmlError>)
    ensures
        match r {
            Ok(h) => neighbour_href(from_url@, dir@, maps@, p) == Some(crate::style::opt_str(h)),
            Err(e) => neighbour_href(from_url@, dir@, maps@, p).is_none() && e == crate::epub::xhtml::XhtmlError::Internal,
        },
{
    match p {
        None => Ok(None),
        Some(j) => if j < maps.len() {
            match relative_link(from_url, dir, maps[j].navigation_filename.as_str()) {
                Some(h) => Ok(Some(h)),
                None => Err(crate::epub::xhtml::XhtmlError::Internal),
            }
        } else {
            Err(crate::epub::xhtml::XhtmlError::Internal)
        },
    }
}

/// The four references of a wrapper page: stylesheet, Previous, Index, Next.
fn wrapper_links(from_url: &str, dir: &str, maps: &Vec<SpineNavigationMap>, bar: NavigationBar) -> (r: Result<(String, Option<String>, Option<String>, Option<String>), crate::epub::xhtml::XhtmlError>)
    ensures
        match r {
            Ok(l) => page_link(from_url@, dir@, "navigation_styles.css"@) == Some(l.0@)
                && neighbour_href(from_url@, dir@, maps@, bar.previous) == Some(crate::style::opt_str(l.1))
                && index_href(from_url@, dir@, bar.index) == Some(crate::style::opt_str(l.2))
                && neighbour_href(from_url@, dir@, maps@, bar.next) == Some(crate::style::opt_str(l.3)),
            Err(e) => e == crate::epub::xhtml::XhtmlError::Internal && (page_link(from_url@, dir@, "navigation_styles.css"@).is_none()
                || neighbour_href(from_url@, dir@, maps@, bar.previous).is_none()
                || index_href(from_url@, dir@, bar.index).is_none()
                || neighbour_href(from_url@, dir@, maps@, bar.next).is_none()),
        },
{
    let stylesheet = match relative_link(from_url, dir, "navigation_styles.css") {
        Some(h) => h,
        None => return Err(crate::epub::xhtml::XhtmlError::Internal),
    };
    let previous = match neighbour_link(from_url, dir, maps, bar.previous) {
        Ok(h) => h,
        Err(e) => return Err(e),
    };
    let index = if bar.index {
        match relative_link(from_url, dir, "index.xhtml") {
            Some(h) => Some(h),
            None => return Err(crate::epub::xhtml::XhtmlError::Internal),
        }
    } else {
        None
    };
    let next = match neighbour_link(from_url, dir, maps, bar.next) {
        Ok(h) => h,
        Err(e) => return Err(e),
    };
    Ok((stylesheet, previous, index, next))
}

/// The wrapper page of spine position `spine_index` in a rendition whose
/// directory (under the library root) holds the wrapper pages, the index
/// page and the wrappers' stylesheet (see `wrapper_outcome`).
#[verifier::spinoff_prover]
pub fn create_navigation_wrapper(
    epub_info: &EpubInfo,
    maps: &Vec<SpineNavigationMap>,
    rendition_dir: &str,
    spine_index: usize,
    style: &Style,
    source: &str,
) -> (r: Result<Vec<u8>, crate::epub::xhtml::XhtmlError>)
    requires
        maps.len() == epub_info.spine_items.len(),
        spine_index < maps.len(),
    ensures
        wrapper_outcome(r, epub_info.title@, source@, rendition_dir@, epub_info.spine_items@, maps@, spine_index as int, style.include_index),
{
    let bar = navigation_bar(&epub_info.spine_items, spine_index, style.include_index);
    let destination = crate::paths::join_path(rendition_dir, maps[spine_index].navigation_filename.as_str());
    let destination_url = crate::markup::file_url_of(destination.as_str());
    let (stylesheet, previous, index, next) = match wrapper_links(destination_url.as_str(), rendition_dir, maps, bar) {
        Ok(l) => l,
        Err(e) => return Err(e),
    };
    let events = navigation_page_events(epub_info.title.as_str(), source, stylesheet.as_str(), &previous, &index, &next);
    let r = match crate::markup::write_indented(&events) {
        Ok(b) => Ok(b),
        Err(m) => Err(crate::epub::xhtml::XhtmlError::Write(m)),
    };
    assert(wrapper_outcome(r, epub_info.title@, source@, rendition_dir@, epub_info.spine_items@, maps@, spine_index as int, style.include_index));
    r
}

/// The reference from the page at `from_url` to the file `name` in `dir`.
pub fn relative_link(from_url: &str, dir: &str, name: &str) -> (r: Option<String>)
    ensures
        match r {
            Some(h) => crate::markup::url_relative_of(from_url@, crate::markup::file_url(crate::paths::path_join(dir@, name@))) == Some(h@),
            None => crate::markup::url_relative_of(from_url@, crate::markup::file_url(crate::paths::path_join(dir@, name@))).is_none(),
        },
{
    let target = crate::paths::join_path(dir, name);
    url_make_relative(from_url, crate::markup::file_url_of(target.as_str()).as_str())
}

} // verus!
