//! Markup events as xml-rs reads and writes them, the shapes that contracts
//! describe them by, and the calls into xml-rs and url that rewriting needs.
use vstd::prelude::*;

use xml::attribute::OwnedAttribute;
use xml::common::XmlVersion;
use xml::name::OwnedName;
use xml::namespace::Namespace;
use xml::reader::XmlEvent;

verus! {

broadcast use vstd::std_specs::vec::group_vec_axioms;

#[verifier::external_type_specification]
pub struct ExOwnedName(OwnedName);

#[verifier::external_type_specification]
pub struct ExOwnedAttribute(OwnedAttribute);

#[verifier::external_type_specification]
#[verifier::external_body]
pub struct ExNamespace(Namespace);

#[verifier::external_type_specification]
pub struct ExXmlVersion(XmlVersion);

#[verifier::external_type_specification]
pub struct ExXmlEvent(XmlEvent);

pub assume_specification[ Namespace::empty ]() -> Namespace;

/// The XHTML namespace.
pub const XHTML_NAMESPACE: &'static str = "http://www.w3.org/1999/xhtml";

/// An attribute as a name and a value.
pub type AttrView = (Seq<char>, Seq<char>);

/// What a contract says of one event: the event itself, or an element
/// start, end or text built here (names unqualified, namespaces left to the
/// writer).
pub enum Shape {
    Same(XmlEvent),
    Start(Seq<char>, Seq<AttrView>),
    End(Seq<char>),
    Text(Seq<char>),
    Declaration,
    /// An element start with this name and namespace, and attributes of
    /// these views.
    Rebuilt(OwnedName, Seq<AttrFull>, Namespace),
}

/// What an attribute is: local name, namespace, prefix, value.
pub type AttrFull = (Seq<char>, Option<Seq<char>>, Option<Seq<char>>, Seq<char>);

pub open spec fn attr_full(a: OwnedAttribute) -> AttrFull {
    (a.name.local_name@, crate::style::opt_str(a.name.namespace), crate::style::opt_str(a.name.prefix), a.value@)
}

pub open spec fn attr_fulls(a: Seq<OwnedAttribute>) -> Seq<AttrFull> {
    a.map_values(|x: OwnedAttribute| attr_full(x))
}

/// An unqualified name.
pub open spec fn plain_name(n: OwnedName, local: Seq<char>) -> bool {
    n.local_name@ == local && n.namespace.is_none() && n.prefix.is_none()
}

/// A name in the XHTML namespace, or in none.
pub open spec fn is_xhtml(n: OwnedName, local: Seq<char>) -> bool {
    n.local_name@ == local && match n.namespace {
        Some(ns) => ns@ == XHTML_NAMESPACE@,
        None => true,
    }
}

pub open spec fn attrs_conform(a: Seq<OwnedAttribute>, v: Seq<AttrView>) -> bool {
    a.len() == v.len() && forall|i: int| 0 <= i < a.len() ==> plain_name(#[trigger] a[i].name, v[i].0) && a[i].value@ == v[i].1
}

pub open spec fn conforms(e: XmlEvent, s: Shape) -> bool {
    match s {
        Shape::Same(x) => e == x,
        Shape::Start(name, attrs) => match e {
            XmlEvent::StartElement { name: n, attributes, namespace } => plain_name(n, name) && attrs_conform(attributes@, attrs),
            _ => false,
        },
        Shape::End(name) => match e {
            XmlEvent::EndElement { name: n } => plain_name(n, name),
            _ => false,
        },
        Shape::Text(t) => match e {
            XmlEvent::Characters(c) => c@ == t,
            _ => false,
        },
        Shape::Declaration => e is StartDocument,
        Shape::Rebuilt(n, attrs, ns) => match e {
            XmlEvent::StartElement { name, attributes, namespace } => name == n && namespace == ns && attr_fulls(attributes@) == attrs,
            _ => false,
        },
    }
}

/// Each event has the shape at its position.
pub open spec fn conforms_all(es: Seq<XmlEvent>, ss: Seq<Shape>) -> bool {
    es.len() == ss.len() && forall|i: int| 0 <= i < es.len() ==> conforms(#[trigger] es[i], ss[i])
}

pub proof fn lemma_conforms_push(es: Seq<XmlEvent>, ss: Seq<Shape>, e: XmlEvent, s: Shape)
    requires
        conforms_all(es, ss),
        conforms(e, s),
    ensures
        conforms_all(es.push(e), ss.push(s)),
{
    assert forall|i: int| 0 <= i < es.len() + 1 implies conforms(#[trigger] es.push(e)[i], ss.push(s)[i]) by {
        if i < es.len() {
            assert(es.push(e)[i] == es[i]);
        }
    }
}

/// An unqualified name.
pub fn local_name(name: &str) -> (r: OwnedName)
    ensures
        plain_name(r, name@),
{
    OwnedName { local_name: String::from_str(name), namespace: None, prefix: None }
}

/// An element start with unqualified attributes.
pub fn start_element(name: &str, attrs: Vec<(String, String)>) -> (r: XmlEvent)
    ensures
        conforms(r, Shape::Start(name@, attrs@.map_values(|a: (String, String)| (a.0@, a.1@)))),
{
    let mut attributes: Vec<OwnedAttribute> = Vec::new();
    let mut i: usize = 0;
    while i < attrs.len()
        invariant
            i <= attrs.len(),
            attributes.len() == i,
            forall|k: int| 0 <= k < i ==> plain_name(#[trigger] attributes@[k].name, attrs@[k].0@) && attributes@[k].value@ == attrs@[k].1@,
        decreases attrs.len() - i,
    {
        attributes.push(OwnedAttribute { name: local_name(attrs[i].0.as_str()), value: attrs[i].1.clone() });
        i = i + 1;
    }
    XmlEvent::StartElement { name: local_name(name), attributes, namespace: Namespace::empty() }
}

/// An attribute pair.
pub fn attr(name: &str, value: &str) -> (r: (String, String))
    ensures
        r.0@ == name@,
        r.1@ == value@,
{
    (String::from_str(name), String::from_str(value))
}

/// An element start with no attributes.
pub fn start_plain(name: &str) -> (r: XmlEvent)
    ensures
        conforms(r, Shape::Start(name@, Seq::empty())),
{
    let attrs: Vec<(String, String)> = Vec::new();
    assert(attrs@.map_values(|a: (String, String)| (a.0@, a.1@)) =~= Seq::<AttrView>::empty());
    start_element(name, attrs)
}

/// An element start with one attribute.
pub fn start_with(name: &str, key: &str, value: &str) -> (r: XmlEvent)
    ensures
        conforms(r, Shape::Start(name@, seq![(key@, value@)])),
{
    let attrs = vec![attr(key, value)];
    assert(attrs@.map_values(|a: (String, String)| (a.0@, a.1@)) =~= seq![(key@, value@)]);
    start_element(name, attrs)
}

/// An element end.
pub fn end_element(name: &str) -> (r: XmlEvent)
    ensures
        conforms(r, Shape::End(name@)),
{
    XmlEvent::EndElement { name: local_name(name) }
}

/// Character data.
pub fn characters(text: &str) -> (r: XmlEvent)
    ensures
        conforms(r, Shape::Text(text@)),
{
    XmlEvent::Characters(String::from_str(text))
}

/// The items of `v` in reverse order.
pub fn reversed<T>(v: Vec<T>) -> (r: Vec<T>)
    ensures
        r@.len() == v@.len(),
        forall|k: int| 0 <= k < v@.len() ==> r@[k] == v@[v@.len() - 1 - k],
{
    let ghost input = v@;
    let mut rest = v;
    let mut out: Vec<T> = Vec::new();
    while rest.len() > 0
        invariant
            rest@ + out@.reverse() == input,
        decreases rest.len(),
    {
        let e = rest.pop().unwrap();
        assert(rest@.push(e) + out@.reverse() =~= rest@ + out@.push(e).reverse());
        out.push(e);
    }
    assert(out@.reverse() =~= input);
    assert forall|k: int| 0 <= k < input.len() implies out@[k] == input[input.len() - 1 - k] by {
        assert(out@.reverse()[input.len() - 1 - k] == out@[k]);
    }
    out
}

/// A file's URL from its path under the library root.
pub open spec fn file_url(path: Seq<char>) -> Seq<char> {
    "file:///"@ + path
}

/// A directory's URL from its path under the library root.
pub open spec fn dir_url(path: Seq<char>) -> Seq<char> {
    "file:///"@ + path + "/"@
}

pub fn file_url_of(path: &str) -> (r: String)
    ensures
        r@ == file_url(path@),
{
    let r = crate::css::concat3("file:///", path, "");
    proof {
        reveal_strlit("");
        assert(r@ =~= file_url(path@));
    }
    r
}

pub fn dir_url_of(path: &str) -> (r: String)
    ensures
        r@ == dir_url(path@),
{
    crate::css::concat3("file:///", path, "/")
}

/// Names the text that `String::from_utf8` decodes from bytes.
pub uninterp spec fn utf8_of(bytes: Seq<u8>) -> Option<Seq<char>>;

/// Relies on `String::from_utf8`: the bytes as text when they are UTF-8.
#[verifier::external_body]
pub fn utf8_text(bytes: Vec<u8>) -> (r: Option<String>)
    ensures
        match r {
            Some(t) => utf8_of(bytes@) == Some(t@),
            None => utf8_of(bytes@).is_none(),
        },
{
    String::from_utf8(bytes).ok()
}

/// Appends an event of the given shape.
pub(crate) fn emit(out: &mut Vec<XmlEvent>, shapes: Ghost<Seq<Shape>>, e: XmlEvent, s: Ghost<Shape>)
    requires
        conforms_all(old(out)@, shapes@),
        conforms(e, s@),
    ensures
        conforms_all(final(out)@, shapes@.push(s@)),
{
    proof {
        lemma_conforms_push(out@, shapes@, e, s@);
    }
    out.push(e);
}

/// The XML declaration of a generated page.
pub fn declaration() -> (r: XmlEvent)
    ensures
        conforms(r, Shape::Declaration),
{
    XmlEvent::StartDocument { version: XmlVersion::Version10, encoding: String::from_str("utf-8"), standalone: None }
}

/// How a written document is laid out.
#[derive(Clone, Copy, Debug, PartialEq, Eq, Structural)]
pub enum MarkupLayout {
    /// As read: no declaration added, no indentation, elements kept as they are.
    Transcribed,
    /// A generated page: indented with tabs.
    Indented,
}

/// Names the events that xml-rs's reader, configured as in `parse_markup`,
/// reads from a document (`None` when it meets an error).
pub uninterp spec fn parsed_of(source: Seq<u8>) -> Option<Seq<XmlEvent>>;

/// Names the bytes that xml-rs's writer, configured as in `write_transcribed`,
/// writes for events (`None` when it meets an error).
pub uninterp spec fn transcribed_of(events: Seq<XmlEvent>) -> Option<Seq<u8>>;

/// Names the bytes that xml-rs's writer, configured as in `write_indented`,
/// writes for events (`None` when it meets an error).
pub uninterp spec fn indented_of(events: Seq<XmlEvent>) -> Option<Seq<u8>>;

/// Relies on xml-rs's `EventReader` (comments kept, input read as UTF-8):
/// the events of a document, or the message of the first parse error.
#[verifier::external_body]
pub fn parse_markup(source: &[u8]) -> (r: Result<Vec<XmlEvent>, String>)
    ensures
        match r {
            Ok(v) => parsed_of(source@) == Some(v@),
            Err(_) => parsed_of(source@).is_none(),
        },
{
    let reader = xml::ParserConfig::new()
        .ignore_comments(false)
        .override_encoding(Some(xml::Encoding::Utf8))
        .create_reader(source);
    reader.into_iter().collect::<Result<Vec<_>, _>>().map_err(|e| e.to_string())
}

/// Relies on xml-rs's `EventWriter`, configured to transcribe: the events
/// written out (those with no written form, such as the end of the
/// document, are skipped), or the message of the first write error.
#[verifier::external_body]
pub fn write_transcribed(events: &Vec<XmlEvent>) -> (r: Result<Vec<u8>, String>)
    ensures
        match r {
            Ok(b) => transcribed_of(events@) == Some(b@),
            Err(_) => transcribed_of(events@).is_none(),
        },
{
    let mut w = xml::EmitterConfig::new().write_document_declaration(false)
        .normalize_empty_elements(false).autopad_comments(false).pad_self_closing(false)
        .create_writer(Vec::new());
    for e in events.iter().filter_map(|e| e.as_writer_event()) {
        w.write(e).map_err(|e| e.to_string())?;
    }
    Ok(w.into_inner())
}

/// Relies on xml-rs's `EventWriter`, configured to indent with tabs: the
/// events written out, or the message of the first write error.
#[verifier::external_body]
pub fn write_indented(events: &Vec<XmlEvent>) -> (r: Result<Vec<u8>, String>)
    ensures
        match r {
            Ok(b) => indented_of(events@) == Some(b@),
            Err(_) => indented_of(events@).is_none(),
        },
{
    let mut w = xml::EmitterConfig::new().perform_indent(true).indent_string("\t")
        .normalize_empty_elements(false).pad_self_closing(false)
        .create_writer(Vec::new());
    for e in events.iter().filter_map(|e| e.as_writer_event()) {
        w.write(e).map_err(|e| e.to_string())?;
    }
    Ok(w.into_inner())
}

/// How a reference parses on its own.
#[derive(Clone, Copy, Debug, PartialEq, Eq, Structural)]
pub enum HrefKind {
    /// A URL in its own right.
    Absolute,
    /// A reference that needs a base.
    Relative,
    /// Neither.
    Invalid,
}

/// Names what `url::Url::parse` makes of a reference.
pub uninterp spec fn href_kind_of(s: Seq<char>) -> HrefKind;

/// Names the URL that `url::Url::join` gives for a reference against a base.
pub uninterp spec fn url_join_of(base: Seq<char>, reference: Seq<char>) -> Option<Seq<char>>;

/// Names the reference that `url::Url::make_relative` gives from a base to a target.
pub uninterp spec fn url_relative_of(base: Seq<char>, target: Seq<char>) -> Option<Seq<char>>;

/// Names the URL that `url::Url::set_path` leaves.
pub uninterp spec fn url_with_path_of(u: Seq<char>, path: Seq<char>) -> Option<Seq<char>>;

/// Relies on `url::Url::parse`: `Ok` for an absolute URL,
/// `RelativeUrlWithoutBase` for a relative reference, any other error otherwise.
#[verifier::external_body]
pub fn href_kind(s: &str) -> (r: HrefKind)
    ensures
        r == href_kind_of(s@),
{
    match url::Url::parse(s) {
        Ok(_) => HrefKind::Absolute,
        Err(url::ParseError::RelativeUrlWithoutBase) => HrefKind::Relative,
        Err(_) => HrefKind::Invalid,
    }
}

/// Relies on `url::Url::join`, the base parsed by `url::Url::parse`:
/// the joined URL, serialized.
#[verifier::external_body]
pub fn url_join(base: &str, reference: &str) -> (r: Option<String>)
    ensures
        match r {
            Some(u) => url_join_of(base@, reference@) == Some(u@),
            None => url_join_of(base@, reference@).is_none(),
        },
{
    url::Url::parse(base).and_then(|b| b.join(reference)).ok().map(String::from)
}

/// Relies on `url::Url::make_relative`, both URLs parsed by `url::Url::parse`.
#[verifier::external_body]
pub fn url_make_relative(base: &str, target: &str) -> (r: Option<String>)
    ensures
        match r {
            Some(u) => url_relative_of(base@, target@) == Some(u@),
            None => url_relative_of(base@, target@).is_none(),
        },
{
    match (url::Url::parse(base), url::Url::parse(target)) {
        (Ok(b), Ok(t)) => b.make_relative(&t),
        _ => None,
    }
}

/// Relies on `url::Url::set_path`, the URL parsed by `url::Url::parse`:
/// the URL with its path replaced, query and fragment kept.
#[verifier::external_body]
pub fn url_with_path(u: &str, path: &str) -> (r: Option<String>)
    ensures
        match r {
            Some(x) => url_with_path_of(u@, path@) == Some(x@),
            None => url_with_path_of(u@, path@).is_none(),
        },
{
    let mut parsed = url::Url::parse(u).ok()?;
    parsed.set_path(path);
    Some(String::from(parsed))
}

/// A serialized URL without its query and fragment: everything before the
/// first `?` or `#`.
pub open spec fn without_suffixes(u: Seq<char>) -> Seq<char>
    decreases u.len(),
{
    if u.len() == 0 {
        u
    } else if u[0] == '?' || u[0] == '#' {
        Seq::empty()
    } else {
        seq![u[0]] + without_suffixes(u.drop_first())
    }
}

proof fn lemma_without_suffixes_prefix(u: Seq<char>, i: int)
    requires
        0 <= i <= u.len(),
        forall|k: int| 0 <= k < i ==> u[k] != '?' && u[k] != '#',
    ensures
        without_suffixes(u) == u.subrange(0, i) + without_suffixes(u.subrange(i, u.len() as int)),
    decreases i,
{
    if i > 0 {
        lemma_without_suffixes_prefix(u.drop_first(), i - 1);
        assert(u.drop_first().subrange(0, i - 1) =~= u.subrange(1, i));
        assert(u.drop_first().subrange(i - 1, u.len() - 1) =~= u.subrange(i, u.len() as int));
        assert(seq![u[0]] + u.subrange(1, i) =~= u.subrange(0, i));
    } else {
        assert(u.subrange(0, u.len() as int) =~= u);
    }
}

fn suffix_starts_at(u: &str, i: usize) -> (r: bool)
    requires
        i < u@.len(),
    ensures
        r == (u@[i as int] == '?' || u@[i as int] == '#'),
{
    let c = u.get_char(i);
    c == '?' || c == '#'
}

/// A URL without its query and fragment.
pub fn strip_suffixes(u: &str) -> (r: String)
    ensures
        r@ == without_suffixes(u@),
{
    let n = u.unicode_len();
    let mut i: usize = 0;
    while i < n && !suffix_starts_at(u, i)
        invariant
            n == u@.len(),
            i <= n,
            forall|k: int| 0 <= k < i ==> u@[k] != '?' && u@[k] != '#',
        decreases n - i,
    {
        i = i + 1;
    }
    proof {
        lemma_without_suffixes_prefix(u@, i as int);
        if i < n {
            assert(without_suffixes(u@.subrange(i as int, n as int)) == Seq::<char>::empty());
        } else {
            assert(u@.subrange(i as int, n as int) =~= Seq::<char>::empty());
        }
    }
    let r = String::from_str(u.substring_char(0, i));
    assert(r@ =~= without_suffixes(u@));
    r
}

} // verus!
