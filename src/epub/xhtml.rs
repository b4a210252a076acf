//! Rewriting a content section for a rendition: link targets, redirection
//! of links to navigation wrappers, injected stylesheets, and a base
//! reference for sections shown inside a wrapper.
use vstd::prelude::*;

use xml::attribute::OwnedAttribute;
use xml::name::OwnedName;
use xml::reader::XmlEvent;

use crate::css::{
    flat_model, is_flat, line_block, opt_line, push_opt_line, sheet_text, CssBlock, CssFile,
    FlatBlock,
};
use crate::markup::{
    parsed_of, transcribed_of, indented_of, utf8_of,
    attr_fulls, conforms, conforms_all, end_element, href_kind, href_kind_of,
    is_xhtml, start_element, strip_suffixes, url_join, url_join_of,
    url_make_relative, url_relative_of, url_with_path, url_with_path_of, without_suffixes, attr,
    AttrFull, HrefKind, Shape, XHTML_NAMESPACE,
};
use crate::style::{
    style_background_color, style_link_color, style_margin_size, style_max_image_height,
    style_max_image_width, style_text_color, PropertyView, StylesheetValue, Style, StyleView,
};

verus! {

broadcast use vstd::std_specs::vec::group_vec_axioms;

/// The property when its override flag is `override_book`.
pub open spec fn with_flag(p: Option<PropertyView>, override_book: bool) -> Option<PropertyView> {
    match p {
        Some(v) => if v.1 == override_book {
            Some(v)
        } else {
            None
        },
        None => None,
    }
}

/// `" !important"` for overriding rules, nothing otherwise.
pub open spec fn importance(override_book: bool) -> Seq<char> {
    if override_book {
        " !important"@
    } else {
        ""@
    }
}

/// Body rules of one kind: overriding ones on `body` with `!important`,
/// the others on `:where(body)`, which any rule of the book outranks.
pub open spec fn content_body_block(s: StyleView, o: bool) -> FlatBlock {
    (if o { "body"@ } else { ":where(body)"@ }, opt_line(with_flag(style_text_color(s), o), "color: "@, importance(o) + ";"@)
        + opt_line(with_flag(style_background_color(s), o), "background-color: "@, importance(o) + ";"@)
        + opt_line(with_flag(style_margin_size(s), o), "margin-left: "@, importance(o) + ";"@)
        + opt_line(with_flag(style_margin_size(s), o), "margin-right: "@, importance(o) + ";"@))
}

/// The link rule of one kind; empty when the link colour is of the other kind.
pub open spec fn content_link_block(s: StyleView, o: bool) -> FlatBlock {
    match with_flag(style_link_color(s), o) {
        Some(_) => (if o { ":any-link"@ } else { ":where(:any-link)"@ }, opt_line(
            with_flag(style_link_color(s), o),
            "color: "@,
            importance(o) + ";"@,
        )),
        None => (""@, Seq::empty()),
    }
}

pub open spec fn content_img_block(s: StyleView, o: bool) -> FlatBlock {
    (if o { "img"@ } else { ":where(img)"@ }, opt_line(with_flag(style_max_image_height(s), o), "max-height: "@, importance(o) + ";"@)
        + opt_line(with_flag(style_max_image_width(s), o), "max-width: "@, importance(o) + ";"@))
}

pub open spec fn content_sheet(s: StyleView, o: bool) -> Seq<FlatBlock> {
    seq![content_body_block(s, o), content_link_block(s, o), content_img_block(s, o)]
}

fn of_kind<'a>(p: Option<&'a StylesheetValue>, override_book: bool) -> (r: Option<&'a StylesheetValue>)
    ensures
        crate::style::opt_ref_view(r) == with_flag(crate::style::opt_ref_view(p), override_book),
{
    match p {
        Some(v) => if v.override_book == override_book {
            Some(v)
        } else {
            None
        },
        None => None,
    }
}

fn importance_str(override_book: bool) -> (r: &'static str)
    ensures
        r@ == importance(override_book),
{
    if override_book {
        " !important"
    } else {
        ""
    }
}

fn generate_stylesheet_body_block(style: &Style, override_book: bool) -> (r: CssBlock)
    ensures
        is_flat(r),
        flat_model(r) == content_body_block(style@, override_book),
{
    let tail = crate::css::concat3(importance_str(override_book), ";", "");
    proof {
        reveal_strlit("");
        assert(tail@ =~= importance(override_book) + ";"@);
    }
    let mut lines: Vec<String> = Vec::new();
    push_opt_line(&mut lines, of_kind(style.text_color(), override_book), "color: ", tail.as_str());
    push_opt_line(&mut lines, of_kind(style.background_color(), override_book), "background-color: ", tail.as_str());
    push_opt_line(&mut lines, of_kind(style.margin_size(), override_book), "margin-left: ", tail.as_str());
    push_opt_line(&mut lines, of_kind(style.margin_size(), override_book), "margin-right: ", tail.as_str());
    let selector = if override_book {
        "body"
    } else {
        ":where(body)"
    };
    let r = line_block(selector, lines);
    assert(flat_model(r).1 =~= content_body_block(style@, override_book).1);
    r
}

fn generate_stylesheet_link_block(style: &Style, override_book: bool) -> (r: CssBlock)
    ensures
        is_flat(r),
        flat_model(r) == content_link_block(style@, override_book),
{
    let tail = crate::css::concat3(importance_str(override_book), ";", "");
    proof {
        reveal_strlit("");
        assert(tail@ =~= importance(override_book) + ";"@);
    }
    let color = of_kind(style.link_color(), override_book);
    match color {
        Some(_) => {
            let mut lines: Vec<String> = Vec::new();
            push_opt_line(&mut lines, color, "color: ", tail.as_str());
            let selector = if override_book {
                ":any-link"
            } else {
                ":where(:any-link)"
            };
            line_block(selector, lines)
        },
        None => {
            let r = line_block("", Vec::new());
            assert(flat_model(r).1 =~= Seq::<Seq<char>>::empty());
            r
        },
    }
}

fn generate_stylesheet_img_block(style: &Style, override_book: bool) -> (r: CssBlock)
    ensures
        is_flat(r),
        flat_model(r) == content_img_block(style@, override_book),
{
    let tail = crate::css::concat3(importance_str(override_book), ";", "");
    proof {
        reveal_strlit("");
        assert(tail@ =~= importance(override_book) + ";"@);
    }
    let mut lines: Vec<String> = Vec::new();
    push_opt_line(&mut lines, of_kind(style.max_image_height(), override_book), "max-height: ", tail.as_str());
    push_opt_line(&mut lines, of_kind(style.max_image_width(), override_book), "max-width: ", tail.as_str());
    let selector = if override_book {
        "img"
    } else {
        ":where(img)"
    };
    let r = line_block(selector, lines);
    assert(flat_model(r).1 =~= content_img_block(style@, override_book).1);
    r
}

fn generate_sheet(style: &Style, override_book: bool) -> (r: Option<String>)
    ensures
        match r {
            Some(t) => sheet_text(content_sheet(style@, override_book)) == Some(t@),
            None => sheet_text(content_sheet(style@, override_book)).is_none(),
        },
{
    let file = CssFile::new(vec![
        generate_stylesheet_body_block(style, override_book),
        generate_stylesheet_link_block(style, override_book),
        generate_stylesheet_img_block(style, override_book),
    ]);
    assert(file.blocks@.map_values(|b: CssBlock| flat_model(b)) =~= content_sheet(style@, override_book));
    file.flat_text()
}

/// The stylesheets injected into content sections: the one whose rules the
/// book may still outrank, and the one that overrides the book; `None` for
/// one that would be empty.
pub fn generate_stylesheets(style: &Style) -> (r: (Option<String>, Option<String>))
    ensures
        match r.0 {
            Some(t) => sheet_text(content_sheet(style@, false)) == Some(t@),
            None => sheet_text(content_sheet(style@, false)).is_none(),
        },
        match r.1 {
            Some(t) => sheet_text(content_sheet(style@, true)) == Some(t@),
            None => sheet_text(content_sheet(style@, true)).is_none(),
        },
{
    (generate_sheet(style, false), generate_sheet(style, true))
}

/// Why a section could not be rewritten.
#[derive(Clone, Debug, PartialEq, Eq)]
pub enum XhtmlError {
    /// The section is not well-formed markup.
    Parse(String),
    /// A link's `href` is neither a URL nor a relative reference.
    BadHref(String),
    /// A link's `href` cannot be resolved against the section's location.
    UnresolvableHref(String),
    /// A `base` element's `href` cannot be resolved.
    BadBase(String),
    /// The head of the section never ends.
    NoHead,
    /// A location computed here could not be expressed; not the book's fault.
    Internal,
    /// The rewritten events could not be written out.
    Write(String),
}

/// Where a section is rewritten to, as URLs: the rewritten file, the
/// directory of the rendition's contents, the URL path of the directory that
/// holds the navigation pages, and the references of the two injected
/// stylesheets.
#[derive(Clone, Debug)]
pub struct AdjustContext {
    pub inject_navigation: bool,
    pub destination_url: String,
    pub contents_dir_url: String,
    pub navigation_dir_path: String,
    pub no_override_href: Option<String>,
    pub override_href: Option<String>,
}

/// The position of the first attribute with this local name.
pub open spec fn find_attr(attrs: Seq<AttrFull>, local: Seq<char>) -> Option<int> {
    if exists|i: int| 0 <= i < attrs.len() && (#[trigger] attrs[i]).0 == local {
        Some(choose|i: int| 0 <= i < attrs.len() && (#[trigger] attrs[i]).0 == local && forall|j: int| 0 <= j < i ==> (#[trigger] attrs[j]).0 != local)
    } else {
        None
    }
}

/// The first spine path equal to `path`.
pub open spec fn find_target(targets: Seq<(Seq<char>, Seq<char>)>, path: Seq<char>) -> Option<int> {
    if exists|i: int| 0 <= i < targets.len() && (#[trigger] targets[i]).0 == path {
        Some(choose|i: int| 0 <= i < targets.len() && (#[trigger] targets[i]).0 == path && forall|j: int| 0 <= j < i ==> (#[trigger] targets[j]).0 != path)
    } else {
        None
    }
}

/// Where a link opens: a URL in a new context; a relative reference in the
/// same context, or in the parent context when sections sit in wrappers.
pub open spec fn link_target(kind: HrefKind, inject: bool) -> Seq<char> {
    if kind == HrefKind::Absolute {
        "_blank"@
    } else if inject {
        "_parent"@
    } else {
        "_self"@
    }
}

/// Where a link to a spine item goes instead when sections sit in wrappers:
/// that item's navigation page, fragment and query kept; `None` when the link
/// leads elsewhere or wrappers are off.
pub open spec fn redirect(ctx: AdjustContext, targets: Seq<(Seq<char>, Seq<char>)>, href: Seq<char>) -> Result<Option<Seq<char>>, XhtmlError> {
    if !ctx.inject_navigation {
        Ok(None)
    } else {
        match url_join_of(ctx.destination_url@, href) {
            None => Err(XhtmlError::UnresolvableHref(arbitrary())),
            Some(abs) => match url_relative_of(ctx.contents_dir_url@, without_suffixes(abs)) {
                None => Ok(None),
                Some(rel) => match find_target(targets, rel) {
                    None => Ok(None),
                    Some(k) => match url_with_path_of(abs, ctx.navigation_dir_path@ + "/"@ + targets[k].1) {
                        None => Err(XhtmlError::Internal),
                        Some(moved) => match url_relative_of(ctx.destination_url@, moved) {
                            None => Err(XhtmlError::Internal),
                            Some(r) => Ok(Some(r)),
                        },
                    },
                },
            },
        }
    }
}

/// The attributes with `target` set: replaced where present, else added last.
pub open spec fn with_target(attrs: Seq<AttrFull>, t: Seq<char>) -> Seq<AttrFull> {
    match find_attr(attrs, "target"@) {
        Some(i) => attrs.update(i, (attrs[i].0, attrs[i].1, attrs[i].2, t)),
        None => attrs.push(("target"@, None, None, t)),
    }
}

/// The attributes of a rewritten link.
pub open spec fn anchor_attrs(attrs: Seq<AttrFull>, ctx: AdjustContext, targets: Seq<(Seq<char>, Seq<char>)>) -> Result<Seq<AttrFull>, XhtmlError> {
    match find_attr(attrs, "href"@) {
        None => Ok(attrs),
        Some(h) => {
            let href = attrs[h].3;
            if href_kind_of(href) == HrefKind::Invalid {
                Err(XhtmlError::BadHref(arbitrary()))
            } else {
                match redirect(ctx, targets, href) {
                    Err(e) => Err(e),
                    Ok(red) => {
                        let a1 = match red {
                            Some(r) => attrs.update(h, (attrs[h].0, attrs[h].1, attrs[h].2, r)),
                            None => attrs,
                        };
                        Ok(with_target(a1, link_target(href_kind_of(href), ctx.inject_navigation)))
                    },
                }
            }
        },
    }
}

/// A stylesheet reference element.
pub open spec fn link_shapes(href: Seq<char>) -> Seq<Shape> {
    seq![Shape::Start("link"@, seq![("rel"@, "stylesheet"@), ("href"@, href)]), Shape::End("link"@)]
}

/// What one event becomes: links rewritten; after the head's start, the
/// stylesheet that the book may outrank; before the head's end, the one that
/// overrides the book; everything else as it was.
pub open spec fn adjust_event(e: XmlEvent, ctx: AdjustContext, targets: Seq<(Seq<char>, Seq<char>)>) -> Result<Seq<Shape>, XhtmlError> {
    match e {
        XmlEvent::StartElement { name, attributes, namespace } => if is_xhtml(name, "a"@) {
            match anchor_attrs(attr_fulls(attributes@), ctx, targets) {
                Ok(a) => Ok(seq![Shape::Rebuilt(name, a, namespace)]),
                Err(x) => Err(x),
            }
        } else if is_xhtml(name, "head"@) && ctx.no_override_href.is_some() {
            Ok(seq![Shape::Same(e)] + link_shapes(ctx.no_override_href.unwrap()@))
        } else {
            Ok(seq![Shape::Same(e)])
        },
        XmlEvent::EndElement { name } => if is_xhtml(name, "head"@) && ctx.override_href.is_some() {
            Ok(link_shapes(ctx.override_href.unwrap()@).push(Shape::Same(e)))
        } else {
            Ok(seq![Shape::Same(e)])
        },
        _ => Ok(seq![Shape::Same(e)]),
    }
}

/// The first `n` events rewritten, or the first error.
pub open spec fn adjust_events_spec(events: Seq<XmlEvent>, ctx: AdjustContext, targets: Seq<(Seq<char>, Seq<char>)>, n: int) -> Result<Seq<Shape>, XhtmlError>
    decreases n,
{
    if n <= 0 || n > events.len() {
        Ok(Seq::empty())
    } else {
        match adjust_events_spec(events, ctx, targets, n - 1) {
            Err(x) => Err(x),
            Ok(s) => match adjust_event(events[n - 1], ctx, targets) {
                Err(x) => Err(x),
                Ok(t) => Ok(s + t),
            },
        }
    }
}

/// Both results are errors, or both succeed alike.
pub open spec fn same_outcome<T>(r: Result<T, XhtmlError>, s: Result<T, XhtmlError>) -> bool {
    match (r, s) {
        (Ok(a), Ok(b)) => a == b,
        (Err(_), Err(_)) => true,
        _ => false,
    }
}

pub open spec fn target_views(t: Seq<(String, String)>) -> Seq<(Seq<char>, Seq<char>)> {
    t.map_values(|p: (String, String)| (p.0@, p.1@))
}

fn find_attr_exec(attrs: &Vec<OwnedAttribute>, local: &str) -> (r: Option<usize>)
    ensures
        match r {
            Some(i) => find_attr(attr_fulls(attrs@), local@) == Some(i as int) && i < attrs.len(),
            None => find_attr(attr_fulls(attrs@), local@).is_none(),
        },
{
    let ghost v = attr_fulls(attrs@);
    let mut i: usize = 0;
    while i < attrs.len()
        invariant
            i <= attrs.len(),
            v == attr_fulls(attrs@),
            forall|j: int| 0 <= j < i ==> (#[trigger] v[j]).0 != local@,
        decreases attrs.len() - i,
    {
        if attrs[i].name.local_name.as_str().unicode_len() == local.unicode_len() && string_eq(&attrs[i].name.local_name, local) {
            assert(v[i as int].0 == local@);
            let ghost c = choose|c: int| 0 <= c < v.len() && (#[trigger] v[c]).0 == local@ && forall|j: int| 0 <= j < c ==> (#[trigger] v[j]).0 != local@;
            assert(c == i) by {
                if c < i {
                } else if c > i {
                }
            }
            return Some(i);
        }
        i = i + 1;
    }
    None
}

/// `s` and `t` hold the same characters.
fn string_eq(s: &String, t: &str) -> (r: bool)
    ensures
        r == (s@ == t@),
{
    let n = s.as_str().unicode_len();
    if n != t.unicode_len() {
        return false;
    }
    let mut i: usize = 0;
    while i < n
        invariant
            n == s@.len(),
            n == t@.len(),
            i <= n,
            forall|k: int| 0 <= k < i ==> s@[k] == t@[k],
        decreases n - i,
    {
        if s.as_str().get_char(i) != t.get_char(i) {
            return false;
        }
        i = i + 1;
    }
    assert(s@ =~= t@);
    true
}

/// `s` and `t` hold the same characters.
pub fn same_text(s: &String, t: &str) -> (r: bool)
    ensures
        r == (s@ == t@),
{
    string_eq(s, t)
}

fn is_xhtml_exec(n: &OwnedName, local: &str) -> (r: bool)
    ensures
        r == is_xhtml(*n, local@),
{
    string_eq(&n.local_name, local) && match &n.namespace {
        Some(ns) => string_eq(ns, XHTML_NAMESPACE),
        None => true,
    }
}

fn find_target_exec(targets: &Vec<(String, String)>, path: &String) -> (r: Option<usize>)
    ensures
        match r {
            Some(i) => find_target(target_views(targets@), path@) == Some(i as int) && i < targets.len(),
            None => find_target(target_views(targets@), path@).is_none(),
        },
{
    let ghost v = target_views(targets@);
    let mut i: usize = 0;
    while i < targets.len()
        invariant
            i <= targets.len(),
            v == target_views(targets@),
            forall|j: int| 0 <= j < i ==> (#[trigger] v[j]).0 != path@,
        decreases targets.len() - i,
    {
        if targets[i].0 == *path {
            assert(v[i as int].0 == path@);
            let ghost c = choose|c: int| 0 <= c < v.len() && (#[trigger] v[c]).0 == path@ && forall|j: int| 0 <= j < c ==> (#[trigger] v[j]).0 != path@;
            assert(c == i) by {
                if c < i {
                } else if c > i {
                }
            }
            return Some(i);
        }
        i = i + 1;
    }
    None
}

fn redirect_exec(ctx: &AdjustContext, targets: &Vec<(String, String)>, href: &String) -> (r: Result<Option<String>, XhtmlError>)
    ensures
        same_outcome(
            match r {
                Ok(Some(x)) => Ok(Some(x@)),
                Ok(None) => Ok(None),
                Err(e) => Err(e),
            },
            redirect(*ctx, target_views(targets@), href@),
        ),
{
    if !ctx.inject_navigation {
        return Ok(None);
    }
    let abs = match url_join(ctx.destination_url.as_str(), href.as_str()) {
        Some(a) => a,
        None => return Err(XhtmlError::UnresolvableHref(href.clone())),
    };
    let stripped = strip_suffixes(abs.as_str());
    let rel = match url_make_relative(ctx.contents_dir_url.as_str(), stripped.as_str()) {
        Some(x) => x,
        None => return Ok(None),
    };
    let k = match find_target_exec(targets, &rel) {
        Some(k) => k,
        None => return Ok(None),
    };
    let path = crate::css::concat3(ctx.navigation_dir_path.as_str(), "/", targets[k].1.as_str());
    let moved = match url_with_path(abs.as_str(), path.as_str()) {
        Some(m) => m,
        None => return Err(XhtmlError::Internal),
    };
    match url_make_relative(ctx.destination_url.as_str(), moved.as_str()) {
        Some(x) => Ok(Some(x)),
        None => Err(XhtmlError::Internal),
    }
}

fn set_value(attrs: &mut Vec<OwnedAttribute>, i: usize, value: String)
    requires
        i < old(attrs).len(),
    ensures
        attr_fulls(final(attrs)@) == attr_fulls(old(attrs)@).update(
            i as int,
            (attr_fulls(old(attrs)@)[i as int].0, attr_fulls(old(attrs)@)[i as int].1, attr_fulls(old(attrs)@)[i as int].2, value@),
        ),
{
    let ghost before = attr_fulls(attrs@);
    let mut a = attrs.remove(i);
    a.value = value;
    attrs.insert(i, a);
    assert(attr_fulls(attrs@) =~= before.update(i as int, (before[i as int].0, before[i as int].1, before[i as int].2, attrs@[i as int].value@)));
}

fn set_target(attrs: &mut Vec<OwnedAttribute>, t: &str)
    ensures
        attr_fulls(final(attrs)@) == with_target(attr_fulls(old(attrs)@), t@),
{
    proof {
        reveal_strlit("target");
    }
    match find_attr_exec(attrs, "target") {
        Some(i) => set_value(attrs, i, String::from_str(t)),
        None => {
            let ghost before = attr_fulls(attrs@);
            attrs.push(OwnedAttribute { name: crate::markup::local_name("target"), value: String::from_str(t) });
            assert(attr_fulls(attrs@) =~= before.push(("target"@, None, None, t@)));
        },
    }
}

fn link_target_str(kind: HrefKind, inject: bool) -> (r: &'static str)
    ensures
        r@ == link_target(kind, inject),
{
    if kind == HrefKind::Absolute {
        "_blank"
    } else if inject {
        "_parent"
    } else {
        "_self"
    }
}

fn adjust_anchor(attrs: &mut Vec<OwnedAttribute>, ctx: &AdjustContext, targets: &Vec<(String, String)>) -> (r: Result<(), XhtmlError>)
    ensures
        same_outcome(
            match r {
                Ok(_) => Ok(attr_fulls(final(attrs)@)),
                Err(e) => Err(e),
            },
            anchor_attrs(attr_fulls(old(attrs)@), *ctx, target_views(targets@)),
        ),
{
    proof {
        reveal_strlit("href");
    }
    let h = match find_attr_exec(attrs, "href") {
        Some(h) => h,
        None => return Ok(()),
    };
    let href = attrs[h].value.clone();
    let kind = href_kind(href.as_str());
    if kind == HrefKind::Invalid {
        return Err(XhtmlError::BadHref(href));
    }
    match redirect_exec(ctx, targets, &href) {
        Err(e) => Err(e),
        Ok(red) => {
            match red {
                Some(r) => set_value(attrs, h, r),
                None => {},
            }
            set_target(attrs, link_target_str(kind, ctx.inject_navigation));
            Ok(())
        },
    }
}

fn push_link(out: &mut Vec<XmlEvent>, href: &String)
    ensures
        final(out)@.len() == old(out)@.len() + 2,
        forall|i: int| 0 <= i < old(out)@.len() ==> final(out)@[i] == old(out)@[i],
        conforms(final(out)@[old(out)@.len() as int], link_shapes(href@)[0]),
        conforms(final(out)@[old(out)@.len() as int + 1], link_shapes(href@)[1]),
{
    let attrs = vec![attr("rel", "stylesheet"), attr("href", href.as_str())];
    assert(attrs@.map_values(|a: (String, String)| (a.0@, a.1@)) =~= seq![("rel"@, "stylesheet"@), ("href"@, href@)]);
    out.push(start_element("link", attrs));
    out.push(end_element("link"));
}

/// The events of `out` past `start` conform to `shapes`, those before are `before`.
pub open spec fn extended(out: Seq<XmlEvent>, before: Seq<XmlEvent>, shapes: Seq<Shape>) -> bool {
    out.len() == before.len() + shapes.len() && out.subrange(0, before.len() as int) == before
        && conforms_all(out.subrange(before.len() as int, out.len() as int), shapes)
}

proof fn lemma_extended_concat(before: Seq<XmlEvent>, s1: Seq<Shape>, out: Seq<XmlEvent>, s2: Seq<Shape>)
    requires
        conforms_all(before, s1),
        extended(out, before, s2),
    ensures
        conforms_all(out, s1 + s2),
{
    assert forall|k: int| 0 <= k < out.len() implies conforms(#[trigger] out[k], (s1 + s2)[k]) by {
        if k < before.len() {
            assert(out[k] == out.subrange(0, before.len() as int)[k]);
        } else {
            assert(out[k] == out.subrange(before.len() as int, out.len() as int)[k - before.len()]);
        }
    }
}

fn push_shaped(out: &mut Vec<XmlEvent>, e: XmlEvent)
    ensures
        extended(final(out)@, old(out)@, seq![Shape::Same(e)]),
{
    let ghost before = out@;
    out.push(e);
    assert(out@.subrange(0, before.len() as int) =~= before);
    assert(out@.subrange(before.len() as int, out@.len() as int) =~= seq![e]);
}

fn push_link_shaped(out: &mut Vec<XmlEvent>, href: &String)
    ensures
        extended(final(out)@, old(out)@, link_shapes(href@)),
{
    let ghost before = out@;
    push_link(out, href);
    assert(out@.subrange(0, before.len() as int) =~= before);
    let ghost tail = out@.subrange(before.len() as int, out@.len() as int);
    assert(tail[0] == out@[before.len() as int]);
    assert(tail[1] == out@[before.len() as int + 1]);
}

proof fn lemma_extended_chain(a: Seq<XmlEvent>, b: Seq<XmlEvent>, c: Seq<XmlEvent>, s1: Seq<Shape>, s2: Seq<Shape>)
    requires
        extended(b, a, s1),
        extended(c, b, s2),
    ensures
        extended(c, a, s1 + s2),
{
    assert(c.subrange(0, a.len() as int) =~= b.subrange(0, a.len() as int)) by {
        assert forall|k: int| 0 <= k < a.len() implies c[k] == b[k] by {
            assert(c[k] == c.subrange(0, b.len() as int)[k]);
        }
    }
    let t = c.subrange(a.len() as int, c.len() as int);
    assert forall|k: int| 0 <= k < t.len() implies conforms(#[trigger] t[k], (s1 + s2)[k]) by {
        if k < s1.len() {
            assert(t[k] == b.subrange(a.len() as int, b.len() as int)[k]) by {
                assert(c[a.len() + k] == c.subrange(0, b.len() as int)[a.len() + k]);
            }
        } else {
            assert(t[k] == c.subrange(b.len() as int, c.len() as int)[k - s1.len()]);
        }
    }
}

/// Rewrites one event onto `out`.
fn adjust_one(e: XmlEvent, ctx: &AdjustContext, targets: &Vec<(String, String)>, out: &mut Vec<XmlEvent>) -> (r: Result<(), XhtmlError>)
    ensures
        match r {
            Ok(_) => match adjust_event(e, *ctx, target_views(targets@)) {
                Ok(t) => extended(final(out)@, old(out)@, t),
                Err(_) => false,
            },
            Err(_) => adjust_event(e, *ctx, target_views(targets@)) is Err,
        },
{
    let ghost before = out@;
    let ghost orig = e;
    match e {
        XmlEvent::StartElement { name, mut attributes, namespace } => {
            if is_xhtml_exec(&name, "a") {
                match adjust_anchor(&mut attributes, ctx, targets) {
                    Err(x) => {
                        return Err(x);
                    },
                    Ok(_) => {},
                }
                let ghost a = attr_fulls(attributes@);
                let ev = XmlEvent::StartElement { name, attributes, namespace };
                out.push(ev);
                assert(out@.subrange(0, before.len() as int) =~= before);
                assert(out@.subrange(before.len() as int, out@.len() as int) =~= seq![ev]);
                assert(conforms(ev, Shape::Rebuilt(name, a, namespace)));
                Ok(())
            } else if is_xhtml_exec(&name, "head") && ctx.no_override_href.is_some() {
                let ev = XmlEvent::StartElement { name, attributes, namespace };
                push_shaped(out, ev);
                let ghost mid = out@;
                match &ctx.no_override_href {
                    Some(h) => {
                        push_link_shaped(out, h);
                        proof {
                            lemma_extended_chain(before, mid, out@, seq![Shape::Same(ev)], link_shapes(h@));
                        }
                    },
                    None => {},
                }
                Ok(())
            } else {
                let ev = XmlEvent::StartElement { name, attributes, namespace };
                push_shaped(out, ev);
                Ok(())
            }
        },
        XmlEvent::EndElement { name } => {
            if is_xhtml_exec(&name, "head") && ctx.override_href.is_some() {
                match &ctx.override_href {
                    Some(h) => {
                        push_link_shaped(out, h);
                        let ghost mid = out@;
                        let ev = XmlEvent::EndElement { name };
                        push_shaped(out, ev);
                        proof {
                            lemma_extended_chain(before, mid, out@, link_shapes(h@), seq![Shape::Same(ev)]);
                            assert(link_shapes(h@) + seq![Shape::Same(ev)] =~= link_shapes(h@).push(Shape::Same(ev)));
                        }
                    },
                    None => {},
                }
                Ok(())
            } else {
                let ev = XmlEvent::EndElement { name };
                push_shaped(out, ev);
                Ok(())
            }
        },
        other => {
            push_shaped(out, other);
            Ok(())
        },
    }
}

/// The rewriting succeeds and `out` conforms to the shapes it gives.
pub open spec fn adjusted_as_specified(events: Seq<XmlEvent>, ctx: AdjustContext, targets: Seq<(Seq<char>, Seq<char>)>, out: Seq<XmlEvent>) -> bool {
    match adjust_events_spec(events, ctx, targets, events.len() as int) {
        Ok(shapes) => conforms_all(out, shapes),
        Err(_) => false,
    }
}

proof fn lemma_adjust_err_extends(events: Seq<XmlEvent>, ctx: AdjustContext, targets: Seq<(Seq<char>, Seq<char>)>, i: int)
    requires
        0 <= i <= events.len(),
        adjust_events_spec(events, ctx, targets, i) is Err,
    ensures
        adjust_events_spec(events, ctx, targets, events.len() as int) is Err,
    decreases events.len() - i,
{
    if i < events.len() {
        lemma_adjust_err_extends(events, ctx, targets, i + 1);
    }
}

/// Rewrites a section's events (see `adjust_event`): the events conform to
/// the shapes that `adjust_events_spec` gives, or the error is the first one
/// it meets.
pub fn adjust_events(events: Vec<XmlEvent>, ctx: &AdjustContext, targets: &Vec<(String, String)>) -> (r: Result<Vec<XmlEvent>, XhtmlError>)
    ensures
        match r {
            Ok(out) => adjusted_as_specified(events@, *ctx, target_views(targets@), out@),
            Err(_) => adjust_events_spec(events@, *ctx, target_views(targets@), events@.len() as int) is Err,
        },
{
    let ghost input = events@;
    let ghost tv = target_views(targets@);
    let n = events.len();
    let mut rest = events;
    let mut reversed: Vec<XmlEvent> = Vec::new();
    while rest.len() > 0
        invariant
            rest@ + reversed@.reverse() == input,
        decreases rest.len(),
    {
        let e = rest.pop().unwrap();
        assert(rest@.push(e) + reversed@.reverse() =~= rest@ + reversed@.push(e).reverse());
        reversed.push(e);
    }
    assert(reversed@.reverse() =~= input);
    assert forall|k: int| 0 <= k < n implies reversed@[k] == input[n - 1 - k] by {
        assert(reversed@.reverse()[n - 1 - k] == reversed@[k]);
    }
    let mut out: Vec<XmlEvent> = Vec::new();
    let ghost mut shapes: Seq<Shape> = Seq::empty();
    let mut i: usize = 0;
    while i < n
        invariant
            n == input.len(),
            input == events@,
            i <= n,
            tv == target_views(targets@),
            reversed@.len() == n - i,
            forall|k: int| 0 <= k < n - i ==> reversed@[k] == input[n - 1 - k],
            adjust_events_spec(input, *ctx, tv, i as int) == Ok::<Seq<Shape>, XhtmlError>(shapes),
            conforms_all(out@, shapes),
        decreases n - i,
    {
        let e = reversed.pop().unwrap();
        assert(e == input[i as int]);
        let ghost before = out@;
        match adjust_one(e, ctx, targets, &mut out) {
            Err(x) => {
                proof {
                    assert(adjust_event(input[i as int], *ctx, tv) is Err);
                    assert(adjust_events_spec(input, *ctx, tv, i as int + 1) is Err);
                    lemma_adjust_err_extends(input, *ctx, tv, i as int + 1);
                }
                return Err(x);
            },
            Ok(_) => {},
        }
        proof {
            let t = adjust_event(e, *ctx, tv)->Ok_0;
            lemma_extended_concat(before, shapes, out@, t);
            shapes = shapes + t;
        }
        i = i + 1;
    }
    assert(adjust_events_spec(input, *ctx, tv, n as int) == Ok::<Seq<Shape>, XhtmlError>(shapes));
    assert(conforms_all(out@, shapes));
    assert(adjusted_as_specified(input, *ctx, tv, out@));
    Ok(out)
}

/// The `base` reference a section gets inside its wrapper: that of the first
/// `base` element with an `href` in the head (a URL kept, a relative
/// reference re-based from the section's location onto the rendition), or
/// the section's own path when the head ends first.
pub open spec fn base_scan(events: Seq<XmlEvent>, rendition_url: Seq<char>, source_path: Seq<char>, i: int) -> Result<Seq<char>, XhtmlError>
    decreases events.len() - i,
{
    if i < 0 || i >= events.len() {
        Err(XhtmlError::NoHead)
    } else {
        match events[i] {
            XmlEvent::StartElement { name, attributes, namespace } => if is_xhtml(name, "base"@) && find_attr(attr_fulls(attributes@), "href"@).is_some() {
                let h = attr_fulls(attributes@)[find_attr(attr_fulls(attributes@), "href"@).unwrap()].3;
                if href_kind_of(h) == HrefKind::Absolute {
                    Ok(h)
                } else if href_kind_of(h) == HrefKind::Relative {
                    match url_join_of(rendition_url, source_path) {
                        None => Err(XhtmlError::Internal),
                        Some(u1) => match url_join_of(u1, h) {
                            None => Err(XhtmlError::BadBase(arbitrary())),
                            Some(u2) => match url_relative_of(rendition_url, u2) {
                                None => Err(XhtmlError::BadBase(arbitrary())),
                                Some(r) => Ok(r),
                            },
                        },
                    }
                } else {
                    Err(XhtmlError::BadBase(arbitrary()))
                }
            } else {
                base_scan(events, rendition_url, source_path, i + 1)
            },
            XmlEvent::EndElement { name } => if is_xhtml(name, "head"@) {
                Ok(source_path)
            } else {
                base_scan(events, rendition_url, source_path, i + 1)
            },
            _ => base_scan(events, rendition_url, source_path, i + 1),
        }
    }
}

/// Each event, with a `base` element right after the head's start.
pub open spec fn with_base(events: Seq<XmlEvent>, base: Seq<char>, n: int) -> Seq<Shape>
    decreases n,
{
    if n <= 0 || n > events.len() {
        Seq::empty()
    } else {
        let e = events[n - 1];
        with_base(events, base, n - 1) + match e {
            XmlEvent::StartElement { name, attributes, namespace } => if is_xhtml(name, "head"@) {
                seq![Shape::Same(e), Shape::Start("base"@, seq![("href"@, base)]), Shape::End("base"@)]
            } else {
                seq![Shape::Same(e)]
            },
            _ => seq![Shape::Same(e)],
        }
    }
}

/// The base reference of a section (see `base_scan`).
pub fn find_base_href(events: &Vec<XmlEvent>, rendition_url: &str, source_path: &str) -> (r: Result<String, XhtmlError>)
    ensures
        same_outcome(
            match r {
                Ok(b) => Ok(b@),
                Err(e) => Err(e),
            },
            base_scan(events@, rendition_url@, source_path@, 0),
        ),
{
    let mut i: usize = 0;
    while i < events.len()
        invariant
            i <= events.len(),
            base_scan(events@, rendition_url@, source_path@, 0) == base_scan(events@, rendition_url@, source_path@, i as int),
        decreases events.len() - i,
    {
        match &events[i] {
            XmlEvent::StartElement { name, attributes, namespace } => {
                if is_xhtml_exec(name, "base") {
                    proof {
                        reveal_strlit("href");
                    }
                    match find_attr_exec(attributes, "href") {
                        Some(k) => {
                            let h = &attributes[k].value;
                            let kind = href_kind(h.as_str());
                            if kind == HrefKind::Absolute {
                                return Ok(h.clone());
                            } else if kind == HrefKind::Relative {
                                let u1 = match url_join(rendition_url, source_path) {
                                    Some(u) => u,
                                    None => return Err(XhtmlError::Internal),
                                };
                                let u2 = match url_join(u1.as_str(), h.as_str()) {
                                    Some(u) => u,
                                    None => return Err(XhtmlError::BadBase(h.clone())),
                                };
                                return match url_make_relative(rendition_url, u2.as_str()) {
                                    Some(r) => Ok(r),
                                    None => Err(XhtmlError::BadBase(h.clone())),
                                };
                            } else {
                                return Err(XhtmlError::BadBase(h.clone()));
                            }
                        },
                        None => {},
                    }
                }
            },
            XmlEvent::EndElement { name } => {
                if is_xhtml_exec(name, "head") {
                    return Ok(String::from_str(source_path));
                }
            },
            _ => {},
        }
        i = i + 1;
    }
    Err(XhtmlError::NoHead)
}

/// Adds a `base` element with `base` right after the head's start; the rest
/// is kept as it was.
pub fn insert_base(events: Vec<XmlEvent>, base: &String) -> (r: Vec<XmlEvent>)
    ensures
        conforms_all(r@, with_base(events@, base@, events@.len() as int)),
{
    let ghost input = events@;
    let n = events.len();
    let mut rev = crate::markup::reversed(events);
    let mut out: Vec<XmlEvent> = Vec::new();
    let mut i: usize = 0;
    while i < n
        invariant
            n == input.len(),
            i <= n,
            rev@.len() == n - i,
            forall|k: int| 0 <= k < n - i ==> rev@[k] == input[n - 1 - k],
            conforms_all(out@, with_base(input, base@, i as int)),
        decreases n - i,
    {
        let e = rev.pop().unwrap();
        assert(e == input[i as int]);
        let ghost before = out@;
        let ghost prior = with_base(input, base@, i as int);
        let is_head = match &e {
            XmlEvent::StartElement { name, attributes, namespace } => is_xhtml_exec(name, "head"),
            _ => false,
        };
        if is_head {
            push_shaped(&mut out, e);
            let ghost mid = out@;
            let attrs = vec![attr("href", base.as_str())];
            assert(attrs@.map_values(|a: (String, String)| (a.0@, a.1@)) =~= seq![("href"@, base@)]);
            let ghost m2 = out@;
            let start = start_element("base", attrs);
            push_shaped(&mut out, start);
            let ghost m3 = out@;
            let end = end_element("base");
            push_shaped(&mut out, end);
            proof {
                lemma_extended_chain(before, mid, m3, seq![Shape::Same(e)], seq![Shape::Same(start)]);
                lemma_extended_chain(before, m3, out@, seq![Shape::Same(e)] + seq![Shape::Same(start)], seq![Shape::Same(end)]);
                let step = seq![Shape::Same(e), Shape::Start("base"@, seq![("href"@, base@)]), Shape::End("base"@)];
                let got = seq![Shape::Same(e)] + seq![Shape::Same(start)] + seq![Shape::Same(end)];
                let tail = out@.subrange(before.len() as int, out@.len() as int);
                assert(conforms_all(tail, step)) by {
                    assert forall|k: int| 0 <= k < tail.len() implies conforms(#[trigger] tail[k], step[k]) by {
                        assert(conforms(tail[k], got[k]));
                    }
                }
                lemma_extended_concat(before, prior, out@, step);
                assert(with_base(input, base@, i as int + 1) == prior + step);
            }
        } else {
            push_shaped(&mut out, e);
            proof {
                lemma_extended_concat(before, prior, out@, seq![Shape::Same(e)]);
                assert(with_base(input, base@, i as int + 1) == prior + seq![Shape::Same(e)]);
            }
        }
        i = i + 1;
    }
    out
}

/// What `wrap_xhtml_source_for_navigation` gives: a parse error for a
/// document that does not parse; an error when no base can be found; else
/// the text of the written events with the base inserted, or an error from
/// the writer or the decoding.
pub open spec fn wrapped_source(r: Result<String, XhtmlError>, source: Seq<u8>, rendition_dir: Seq<char>, source_path: Seq<char>) -> bool {
    match parsed_of(source) {
        None => r is Err && r->Err_0 is Parse,
        Some(events) => match base_scan(events, crate::markup::dir_url(rendition_dir), source_path, 0) {
            Err(_) => r is Err,
            Ok(b) => match r {
                Ok(t) => exists|out: Seq<XmlEvent>|
                    conforms_all(out, with_base(events, b, events.len() as int)) && (#[trigger] transcribed_of(out)) is Some
                        && utf8_of(transcribed_of(out)->Some_0) == Some(t@),
                Err(e) => e is Write || e is Internal,
            },
        },
    }
}

/// A section prepared for its wrapper: its text with a `base` element that
/// keeps its references resolving from the section's own location.
pub fn wrap_xhtml_source_for_navigation(source: &[u8], rendition_dir: &str, source_path_from_rendition_dir: &str) -> (r: Result<String, XhtmlError>)
    ensures
        wrapped_source(r, source@, rendition_dir@, source_path_from_rendition_dir@),
{
    let events = match crate::markup::parse_markup(source) {
        Ok(e) => e,
        Err(m) => return Err(XhtmlError::Parse(m)),
    };
    let rendition_url = crate::markup::dir_url_of(rendition_dir);
    let base = match find_base_href(&events, rendition_url.as_str(), source_path_from_rendition_dir) {
        Ok(b) => b,
        Err(e) => return Err(e),
    };
    let ghost parsed = events@;
    let wrapped = insert_base(events, &base);
    let bytes = match crate::markup::write_transcribed(&wrapped) {
        Ok(b) => b,
        Err(m) => return Err(XhtmlError::Write(m)),
    };
    let ghost written = bytes@;
    let r = match crate::markup::utf8_text(bytes) {
        Some(t) => Ok(t),
        None => Err(XhtmlError::Internal),
    };
    assert(transcribed_of(wrapped@) == Some(written));
    assert(wrapped_source(r, source@, rendition_dir@, source_path_from_rendition_dir@));
    r
}

/// A path given as `&str`, as characters.
pub open spec fn opt_str_ref(p: Option<&str>) -> Option<Seq<char>> {
    match p {
        Some(x) => Some(x@),
        None => None,
    }
}

/// The reference from the rewritten file to a stylesheet: `Some(None)`
/// without one, `None` when it cannot be expressed.
pub open spec fn stylesheet_href(destination: Seq<char>, sheet: Option<Seq<char>>) -> Option<Option<Seq<char>>> {
    match sheet {
        None => Some(None),
        Some(p) => match url_relative_of(crate::markup::file_url(destination), crate::markup::file_url(p)) {
            Some(h) => Some(Some(h)),
            None => None,
        },
    }
}

/// The context that `adjust_xhtml_source` builds from its arguments.
pub open spec fn context_for(
    ctx: AdjustContext,
    rendition_dir: Seq<char>,
    destination: Seq<char>,
    no_override: Option<Seq<char>>,
    override_book: Option<Seq<char>>,
    inject: bool,
) -> bool {
    &&& ctx.inject_navigation == inject
    &&& ctx.destination_url@ == crate::markup::file_url(destination)
    &&& ctx.contents_dir_url@ == crate::markup::dir_url(crate::paths::path_join(rendition_dir, "contents"@))
    &&& ctx.navigation_dir_path@ == "/"@ + rendition_dir
    &&& crate::style::opt_str(ctx.no_override_href) == no_override
    &&& crate::style::opt_str(ctx.override_href) == override_book
}

/// The bytes are the written form of events rewritten as specified; an
/// error comes only when the rewriting fails or the writer does.
pub open spec fn adjust_outcome(r: Result<Vec<u8>, XhtmlError>, events: Seq<XmlEvent>, ctx: AdjustContext, targets: Seq<(Seq<char>, Seq<char>)>) -> bool {
    match r {
        Ok(b) => exists|out: Seq<XmlEvent>| adjusted_as_specified(events, ctx, targets, out) && transcribed_of(out) == Some(b@),
        Err(e) => adjust_events_spec(events, ctx, targets, events.len() as int) is Err
            || (e is Write && adjust_events_spec(events, ctx, targets, events.len() as int) is Ok),
    }
}

/// What `adjust_xhtml_source` gives: a parse error for a document that does
/// not parse; an internal error when a stylesheet cannot be referenced from
/// the rewritten file; otherwise the outcome of rewriting the events in the
/// context built from the arguments.
pub open spec fn adjusted_source(
    r: Result<Vec<u8>, XhtmlError>,
    source: Seq<u8>,
    rendition_dir: Seq<char>,
    destination: Seq<char>,
    no_override: Option<Seq<char>>,
    override_book: Option<Seq<char>>,
    inject: bool,
    targets: Seq<(Seq<char>, Seq<char>)>,
) -> bool {
    match parsed_of(source) {
        None => r is Err && r->Err_0 is Parse,
        Some(events) => match (stylesheet_href(destination, no_override), stylesheet_href(destination, override_book)) {
            (Some(weak), Some(strong)) => exists|ctx: AdjustContext|
                #[trigger] context_for(ctx, rendition_dir, destination, weak, strong, inject) && adjust_outcome(r, events, ctx, targets),
            _ => r == Err::<Vec<u8>, XhtmlError>(XhtmlError::Internal),
        },
    }
}

/// A section rewritten for a rendition (see `adjust_events`). Paths are
/// under the library root: the rendition's directory (its contents under
/// `contents`), the rewritten file, and the two stylesheets when present.
pub fn adjust_xhtml_source(
    source: &[u8],
    rendition_dir: &str,
    destination_path: &str,
    no_override_stylesheet_path: Option<&str>,
    override_stylesheet_path: Option<&str>,
    targets: &Vec<(String, String)>,
    style: &Style,
) -> (r: Result<Vec<u8>, XhtmlError>)
    ensures
        adjusted_source(r, source@, rendition_dir@, destination_path@, opt_str_ref(no_override_stylesheet_path), opt_str_ref(override_stylesheet_path), style.inject_navigation, target_views(targets@)),
{
    let events = match crate::markup::parse_markup(source) {
        Ok(e) => e,
        Err(m) => return Err(XhtmlError::Parse(m)),
    };
    let destination_url = crate::markup::file_url_of(destination_path);
    let contents_dir = crate::paths::join_path(rendition_dir, "contents");
    let no_override_href = match no_override_stylesheet_path {
        Some(p) => match url_make_relative(destination_url.as_str(), crate::markup::file_url_of(p).as_str()) {
            Some(h) => Some(h),
            None => return Err(XhtmlError::Internal),
        },
        None => None,
    };
    let override_href = match override_stylesheet_path {
        Some(p) => match url_make_relative(destination_url.as_str(), crate::markup::file_url_of(p).as_str()) {
            Some(h) => Some(h),
            None => return Err(XhtmlError::Internal),
        },
        None => None,
    };
    assert(stylesheet_href(destination_path@, opt_str_ref(no_override_stylesheet_path)) == Some(crate::style::opt_str(no_override_href)));
    assert(stylesheet_href(destination_path@, opt_str_ref(override_stylesheet_path)) == Some(crate::style::opt_str(override_href)));
    let navigation_dir_path = crate::css::concat3("/", rendition_dir, "");
    proof {
        reveal_strlit("");
        reveal_strlit("contents");
        assert(navigation_dir_path@ =~= "/"@ + rendition_dir@);
    }
    let ctx = AdjustContext {
        inject_navigation: style.inject_navigation,
        destination_url,
        contents_dir_url: crate::markup::dir_url_of(contents_dir.as_str()),
        navigation_dir_path,
        no_override_href,
        override_href,
    };
    let ghost parsed = events@;
    assert(context_for(
        ctx,
        rendition_dir@,
        destination_path@,
        crate::style::opt_str(ctx.no_override_href),
        crate::style::opt_str(ctx.override_href),
        style.inject_navigation,
    ));
    let r = match adjust_events(events, &ctx, targets) {
        Ok(adjusted) => match crate::markup::write_transcribed(&adjusted) {
            Ok(b) => Ok(b),
            Err(m) => Err(XhtmlError::Write(m)),
        },
        Err(e) => Err(e),
    };
    assert(adjust_outcome(r, parsed, ctx, target_views(targets@)));
    assert(parsed_of(source@) == Some(parsed));
    assert(adjusted_source(r, source@, rendition_dir@, destination_path@, opt_str_ref(no_override_stylesheet_path), opt_str_ref(override_stylesheet_path), style.inject_navigation, target_views(targets@)));
    r
}

} // verus!
