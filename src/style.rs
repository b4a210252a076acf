use vstd::prelude::*;

use crate::cli::CliStyleCommands;

verus! {

/// One styleable property: its value, and whether it must win over the
/// book's own styling.
#[derive(Clone, Debug, Hash)]
pub struct StylesheetValue {
    pub value: String,
    pub override_book: bool,
}

/// What a property is: its text and its override flag.
pub type PropertyView = (Seq<char>, bool);

impl View for StylesheetValue {
    type V = PropertyView;

    open spec fn view(&self) -> PropertyView {
        (self.value@, self.override_book)
    }
}

impl PartialEq for StylesheetValue {
    fn eq(&self, o: &StylesheetValue) -> (r: bool) {
        self.override_book == o.override_book && self.value == o.value
    }
}

impl vstd::std_specs::cmp::PartialEqSpecImpl for StylesheetValue {
    open spec fn obeys_eq_spec() -> bool {
        true
    }

    open spec fn eq_spec(&self, o: &StylesheetValue) -> bool {
        self@ == o@
    }
}

impl Eq for StylesheetValue {}

/// The view of an optional property.
pub open spec fn opt_view(v: Option<StylesheetValue>) -> Option<PropertyView> {
    match v {
        Some(p) => Some(p@),
        None => None,
    }
}

/// The view of an optional string.
pub open spec fn opt_str(v: Option<String>) -> Option<Seq<char>> {
    match v {
        Some(s) => Some(s@),
        None => None,
    }
}

/// A property after command-line settings: a present property takes each
/// setting that was given; an absent one appears when a value was given, with
/// the override flag given or `false`.
pub open spec fn overridden(
    current: Option<PropertyView>,
    value: Option<Seq<char>>,
    override_book: Option<bool>,
) -> Option<PropertyView> {
    match current {
        Some(p) => Some(
            (
                match value {
                    Some(v) => v,
                    None => p.0,
                },
                match override_book {
                    Some(b) => b,
                    None => p.1,
                },
            ),
        ),
        None => match value {
            Some(v) => Some(
                (
                    v,
                    match override_book {
                        Some(b) => b,
                        None => false,
                    },
                ),
            ),
            None => None,
        },
    }
}

impl StylesheetValue {
    pub fn new(value: String, override_book: bool) -> (r: Self)
        ensures
            r.value == value,
            r.override_book == override_book,
    {
        Self { value, override_book }
    }

    pub fn with_overrides(&self, value_override: &Option<String>, override_book_override: Option<
        bool,
    >) -> (r: Self)
        ensures
            Some(r@) == overridden(Some(self@), opt_str(*value_override), override_book_override),
    {
        let value = match value_override {
            Some(v) => v.clone(),
            None => self.value.clone(),
        };
        let override_book = match override_book_override {
            Some(b) => b,
            None => self.override_book,
        };
        Self { value, override_book }
    }
}

/// A property after settings, computed on exec values.
fn override_property(current: &Option<StylesheetValue>, value: &Option<String>, override_book: Option<
    bool,
>) -> (r: Option<StylesheetValue>)
    ensures
        opt_view(r) == overridden(opt_view(*current), opt_str(*value), override_book),
{
    match current {
        Some(p) => Some(p.with_overrides(value, override_book)),
        None => match value {
            Some(v) => Some(
                StylesheetValue::new(
                    v.clone(),
                    match override_book {
                        Some(b) => b,
                        None => false,
                    },
                ),
            ),
            None => None,
        },
    }
}

/// A stylesheet as the configuration file spells it: values and flags apart.
#[derive(Clone, Debug)]
pub struct RawStylesheet {
    pub text_color: Option<String>,
    pub link_color: Option<String>,
    pub background_color: Option<String>,
    pub margin_size: Option<String>,
    pub max_image_height: Option<String>,
    pub max_image_width: Option<String>,
    pub text_color_override: bool,
    pub link_color_override: bool,
    pub background_color_override: bool,
    pub margin_size_override: bool,
    pub max_image_height_override: bool,
    pub max_image_width_override: bool,
}

/// A set of styleable properties, each optional.
#[derive(Clone, Debug, Hash)]
pub struct Stylesheet {
    pub text_color: Option<StylesheetValue>,
    pub link_color: Option<StylesheetValue>,
    pub background_color: Option<StylesheetValue>,
    pub margin_size: Option<StylesheetValue>,
    pub max_image_height: Option<StylesheetValue>,
    pub max_image_width: Option<StylesheetValue>,
}

/// The properties of a stylesheet, in a fixed order.
pub struct StylesheetView {
    pub text_color: Option<PropertyView>,
    pub link_color: Option<PropertyView>,
    pub background_color: Option<PropertyView>,
    pub margin_size: Option<PropertyView>,
    pub max_image_height: Option<PropertyView>,
    pub max_image_width: Option<PropertyView>,
}

impl View for Stylesheet {
    type V = StylesheetView;

    open spec fn view(&self) -> StylesheetView {
        StylesheetView {
            text_color: opt_view(self.text_color),
            link_color: opt_view(self.link_color),
            background_color: opt_view(self.background_color),
            margin_size: opt_view(self.margin_size),
            max_image_height: opt_view(self.max_image_height),
            max_image_width: opt_view(self.max_image_width),
        }
    }
}

fn eq_property(a: &Option<StylesheetValue>, b: &Option<StylesheetValue>) -> (r: bool)
    ensures
        r == (opt_view(*a) == opt_view(*b)),
{
    match (a, b) {
        (Some(x), Some(y)) => x.override_book == y.override_book && x.value == y.value,
        (None, None) => true,
        _ => false,
    }
}

impl PartialEq for Stylesheet {
    fn eq(&self, o: &Stylesheet) -> (r: bool) {
        eq_property(&self.text_color, &o.text_color) && eq_property(&self.link_color, &o.link_color)
            && eq_property(&self.background_color, &o.background_color) && eq_property(
            &self.margin_size,
            &o.margin_size,
        ) && eq_property(&self.max_image_height, &o.max_image_height) && eq_property(
            &self.max_image_width,
            &o.max_image_width,
        )
    }
}

impl vstd::std_specs::cmp::PartialEqSpecImpl for Stylesheet {
    open spec fn obeys_eq_spec() -> bool {
        true
    }

    open spec fn eq_spec(&self, o: &Stylesheet) -> bool {
        self@ == o@
    }
}

impl Eq for Stylesheet {}

impl From<RawStylesheet> for Stylesheet {
    fn from(value: RawStylesheet) -> (r: Stylesheet) {
        Stylesheet {
            text_color: match value.text_color {
                Some(v) => Some(StylesheetValue::new(v, value.text_color_override)),
                None => None,
            },
            link_color: match value.link_color {
                Some(v) => Some(StylesheetValue::new(v, value.link_color_override)),
                None => None,
            },
            background_color: match value.background_color {
                Some(v) => Some(StylesheetValue::new(v, value.background_color_override)),
                None => None,
            },
            margin_size: match value.margin_size {
                Some(v) => Some(StylesheetValue::new(v, value.margin_size_override)),
                None => None,
            },
            max_image_height: match value.max_image_height {
                Some(v) => Some(StylesheetValue::new(v, value.max_image_height_override)),
                None => None,
            },
            max_image_width: match value.max_image_width {
                Some(v) => Some(StylesheetValue::new(v, value.max_image_width_override)),
                None => None,
            },
        }
    }
}

impl vstd::std_specs::convert::FromSpecImpl<RawStylesheet> for Stylesheet {
    open spec fn obeys_from_spec() -> bool {
        true
    }

    open spec fn from_spec(v: RawStylesheet) -> Stylesheet {
        Stylesheet {
            text_color: match v.text_color {
                Some(s) => Some(StylesheetValue { value: s, override_book: v.text_color_override }),
                None => None,
            },
            link_color: match v.link_color {
                Some(s) => Some(StylesheetValue { value: s, override_book: v.link_color_override }),
                None => None,
            },
            background_color: match v.background_color {
                Some(s) => Some(
                    StylesheetValue { value: s, override_book: v.background_color_override },
                ),
                None => None,
            },
            margin_size: match v.margin_size {
                Some(s) => Some(
                    StylesheetValue { value: s, override_book: v.margin_size_override },
                ),
                None => None,
            },
            max_image_height: match v.max_image_height {
                Some(s) => Some(
                    StylesheetValue { value: s, override_book: v.max_image_height_override },
                ),
                None => None,
            },
            max_image_width: match v.max_image_width {
                Some(s) => Some(
                    StylesheetValue { value: s, override_book: v.max_image_width_override },
                ),
                None => None,
            },
        }
    }
}

impl Stylesheet {
    /// No property is set.
    pub open spec fn spec_is_null(&self) -> bool {
        &&& self.text_color.is_none()
        &&& self.link_color.is_none()
        &&& self.background_color.is_none()
        &&& self.margin_size.is_none()
        &&& self.max_image_height.is_none()
        &&& self.max_image_width.is_none()
    }

    pub fn is_null(&self) -> (r: bool)
        ensures
            r == self.spec_is_null(),
    {
        self.text_color.is_none() && self.link_color.is_none() && self.background_color.is_none()
            && self.margin_size.is_none() && self.max_image_height.is_none()
            && self.max_image_width.is_none()
    }

    /// Applies command-line settings, property by property.
    pub fn with_overrides(&self, overrides: &CliStyleCommands) -> (r: Self)
        ensures
            r@.text_color == overridden(
                self@.text_color,
                opt_str(overrides.text_color),
                overrides.text_color_override,
            ),
            r@.link_color == overridden(
                self@.link_color,
                opt_str(overrides.link_color),
                overrides.link_color_override,
            ),
            r@.background_color == overridden(
                self@.background_color,
                opt_str(overrides.background_color),
                overrides.background_color_override,
            ),
            r@.margin_size == overridden(
                self@.margin_size,
                opt_str(overrides.margin_size),
                overrides.margin_size_override,
            ),
            r@.max_image_height == overridden(
                self@.max_image_height,
                opt_str(overrides.max_image_height),
                overrides.max_image_height_override,
            ),
            r@.max_image_width == overridden(
                self@.max_image_width,
                opt_str(overrides.max_image_width),
                overrides.max_image_width_override,
            ),
    {
        Self {
            text_color: override_property(
                &self.text_color,
                &overrides.text_color,
                overrides.text_color_override,
            ),
            link_color: override_property(
                &self.link_color,
                &overrides.link_color,
                overrides.link_color_override,
            ),
            background_color: override_property(
                &self.background_color,
                &overrides.background_color,
                overrides.background_color_override,
            ),
            margin_size: override_property(
                &self.margin_size,
                &overrides.margin_size,
                overrides.margin_size_override,
            ),
            max_image_height: override_property(
                &self.max_image_height,
                &overrides.max_image_height,
                overrides.max_image_height_override,
            ),
            max_image_width: override_property(
                &self.max_image_width,
                &overrides.max_image_width,
                overrides.max_image_width_override,
            ),
        }
    }
}

/// How a rendition is built: a generated index page, navigation wrappers,
/// and an optional stylesheet.
#[derive(Clone, Debug, Hash)]
pub struct Style {
    pub include_index: bool,
    pub inject_navigation: bool,
    pub stylesheet: Option<Stylesheet>,
}

pub struct StyleView {
    pub include_index: bool,
    pub inject_navigation: bool,
    pub stylesheet: Option<StylesheetView>,
}

impl View for Style {
    type V = StyleView;

    open spec fn view(&self) -> StyleView {
        StyleView {
            include_index: self.include_index,
            inject_navigation: self.inject_navigation,
            stylesheet: match self.stylesheet {
                Some(s) => Some(s@),
                None => None,
            },
        }
    }
}

impl PartialEq for Style {
    fn eq(&self, o: &Style) -> (r: bool) {
        self.include_index == o.include_index && self.inject_navigation == o.inject_navigation
            && match (&self.stylesheet, &o.stylesheet) {
            (Some(a), Some(b)) => a.eq(b),
            (None, None) => true,
            _ => false,
        }
    }
}

impl vstd::std_specs::cmp::PartialEqSpecImpl for Style {
    open spec fn obeys_eq_spec() -> bool {
        true
    }

    open spec fn eq_spec(&self, o: &Style) -> bool {
        self@ == o@
    }
}

impl Eq for Style {}

impl Default for Style {
    fn default() -> (r: Self)
        ensures
            r.include_index,
            r.inject_navigation,
            r.stylesheet.is_none(),
    {
        Self { include_index: true, inject_navigation: true, stylesheet: None }
    }
}

/// The raw style: the book's own files, unchanged.
pub open spec fn raw_style() -> StyleView {
    StyleView { include_index: false, inject_navigation: false, stylesheet: None }
}

impl Style {
    pub fn raw() -> (r: Self)
        ensures
            r@ == raw_style(),
    {
        Self { include_index: false, inject_navigation: false, stylesheet: None }
    }

    /// The style's fingerprint. Relies on `std::hash::BuildHasher::hash_one`
    /// with the default hasher, unseeded; since its algorithm may change
    /// between Rust releases, nothing is stated of the number.
    #[verifier::external_body]
    pub fn get_default_hash(&self) -> (r: u64) {
        std::hash::BuildHasher::hash_one(
            &std::hash::BuildHasherDefault::<std::hash::DefaultHasher>::default(),
            self,
        )
    }

    /// The rendition can serve the book's raw files as they are.
    pub open spec fn spec_uses_raw_contents_dir(&self) -> bool {
        !(self.inject_navigation || self.stylesheet.is_some())
    }

    pub fn uses_raw_contents_dir(&self) -> (r: bool)
        ensures
            r == self.spec_uses_raw_contents_dir(),
    {
        !(self.inject_navigation || self.stylesheet.is_some())
    }

    pub fn text_color(&self) -> (r: Option<&StylesheetValue>)
        ensures
            opt_ref_view(r) == style_text_color(self@),
    {
        match &self.stylesheet {
            Some(s) => s.text_color.as_ref(),
            None => None,
        }
    }

    pub fn link_color(&self) -> (r: Option<&StylesheetValue>)
        ensures
            opt_ref_view(r) == style_link_color(self@),
    {
        match &self.stylesheet {
            Some(s) => s.link_color.as_ref(),
            None => None,
        }
    }

    pub fn background_color(&self) -> (r: Option<&StylesheetValue>)
        ensures
            opt_ref_view(r) == style_background_color(self@),
    {
        match &self.stylesheet {
            Some(s) => s.background_color.as_ref(),
            None => None,
        }
    }

    pub fn margin_size(&self) -> (r: Option<&StylesheetValue>)
        ensures
            opt_ref_view(r) == style_margin_size(self@),
    {
        match &self.stylesheet {
            Some(s) => s.margin_size.as_ref(),
            None => None,
        }
    }

    pub fn max_image_height(&self) -> (r: Option<&StylesheetValue>)
        ensures
            opt_ref_view(r) == style_max_image_height(self@),
    {
        match &self.stylesheet {
            Some(s) => s.max_image_height.as_ref(),
            None => None,
        }
    }

    pub fn max_image_width(&self) -> (r: Option<&StylesheetValue>)
        ensures
            opt_ref_view(r) == style_max_image_width(self@),
    {
        match &self.stylesheet {
            Some(s) => s.max_image_width.as_ref(),
            None => None,
        }
    }
}

pub open spec fn opt_ref_view(v: Option<&StylesheetValue>) -> Option<PropertyView> {
    match v {
        Some(p) => Some(p@),
        None => None,
    }
}

pub open spec fn style_text_color(s: StyleView) -> Option<PropertyView> {
    match s.stylesheet {
        Some(sheet) => sheet.text_color,
        None => None,
    }
}

pub open spec fn style_link_color(s: StyleView) -> Option<PropertyView> {
    match s.stylesheet {
        Some(sheet) => sheet.link_color,
        None => None,
    }
}

pub open spec fn style_background_color(s: StyleView) -> Option<PropertyView> {
    match s.stylesheet {
        Some(sheet) => sheet.background_color,
        None => None,
    }
}

pub open spec fn style_margin_size(s: StyleView) -> Option<PropertyView> {
    match s.stylesheet {
        Some(sheet) => sheet.margin_size,
        None => None,
    }
}

pub open spec fn style_max_image_height(s: StyleView) -> Option<PropertyView> {
    match s.stylesheet {
        Some(sheet) => sheet.max_image_height,
        None => None,
    }
}

pub open spec fn style_max_image_width(s: StyleView) -> Option<PropertyView> {
    match s.stylesheet {
        Some(sheet) => sheet.max_image_width,
        None => None,
    }
}

} // verus!
