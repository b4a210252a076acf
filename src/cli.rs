use vstd::prelude::*;

use crate::style::{overridden, opt_str, Style, Stylesheet};

verus! {

/// Subcommands that act on the configuration.
#[derive(Clone, Copy, Debug, PartialEq, Eq, Structural)]
pub enum ConfigSubcommand {
    /// Print the path of the configuration file.
    Path,
}

/// Subcommands that act on the library of previously opened books.
#[derive(Clone, Debug)]
pub enum LibrarySubcommand {
    /// Remove books: the named ones, then as many as the limits ask.
    Clear { ids: Vec<String>, all: bool, max_books: Option<usize>, max_bytes: Option<u64> },
    /// List the books of the library.
    List,
    /// Print the path of the library directory.
    Path,
}

/// Top-level subcommands.
#[derive(Clone, Debug)]
pub enum CliSubcommand {
    Config(ConfigSubcommand),
    Library(LibrarySubcommand),
}

/// Individual style settings given on the command line; each one, when
/// present, overrides the value of the chosen stylesheets.
#[derive(Clone, Debug)]
pub struct CliStyleCommands {
    pub text_color: Option<String>,
    pub link_color: Option<String>,
    pub background_color: Option<String>,
    pub margin_size: Option<String>,
    pub max_image_height: Option<String>,
    pub max_image_width: Option<String>,
    pub text_color_override: Option<bool>,
    pub link_color_override: Option<bool>,
    pub background_color_override: Option<bool>,
    pub margin_size_override: Option<bool>,
    pub max_image_height_override: Option<bool>,
    pub max_image_width_override: Option<bool>,
}

impl CliStyleCommands {
    /// No setting at all was given.
    pub open spec fn spec_is_undefined(&self) -> bool {
        &&& self.text_color.is_none()
        &&& self.link_color.is_none()
        &&& self.background_color.is_none()
        &&& self.margin_size.is_none()
        &&& self.max_image_height.is_none()
        &&& self.max_image_width.is_none()
        &&& self.text_color_override.is_none()
        &&& self.link_color_override.is_none()
        &&& self.background_color_override.is_none()
        &&& self.margin_size_override.is_none()
        &&& self.max_image_height_override.is_none()
        &&& self.max_image_width_override.is_none()
    }

    pub fn is_undefined(&self) -> (r: bool)
        ensures
            r == self.spec_is_undefined(),
    {
        self.text_color.is_none() && self.link_color.is_none() && self.background_color.is_none()
            && self.margin_size.is_none() && self.max_image_height.is_none()
            && self.max_image_width.is_none() && self.text_color_override.is_none()
            && self.link_color_override.is_none() && self.background_color_override.is_none()
            && self.margin_size_override.is_none() && self.max_image_height_override.is_none()
            && self.max_image_width_override.is_none()
    }
}

/// The parsed command line.
#[derive(Clone, Debug)]
pub struct Cli {
    pub subcommand: Option<CliSubcommand>,
    /// Paths of the books to open.
    pub paths: Vec<String>,
    /// Command to open a rendition with.
    pub browser: Option<String>,
    pub include_index: Option<bool>,
    pub inject_navigation: Option<bool>,
    /// Names of stylesheets from the configuration, applied in order.
    pub stylesheets: Vec<String>,
    pub styles: CliStyleCommands,
    /// Open the raw rendition, with no index, navigation or styling.
    pub raw: bool,
}

impl Cli {
    /// The style the command line asks for: the raw style with `--raw`;
    /// otherwise an index and navigation unless switched off, and a
    /// stylesheet made of the individual settings when any is given.
    pub fn requested_style(&self) -> (r: Style)
        ensures
            self.raw ==> r@ == crate::style::raw_style(),
            !self.raw ==> {
                &&& r.include_index == match self.include_index {
                    Some(b) => b,
                    None => true,
                }
                &&& r.inject_navigation == match self.inject_navigation {
                    Some(b) => b,
                    None => true,
                }
                &&& (self.styles.spec_is_undefined() <==> r.stylesheet.is_none())
                &&& r.stylesheet.is_some() ==> r.stylesheet.unwrap()@.text_color == overridden(None, opt_str(self.styles.text_color), self.styles.text_color_override)
                    && r.stylesheet.unwrap()@.link_color == overridden(None, opt_str(self.styles.link_color), self.styles.link_color_override)
                    && r.stylesheet.unwrap()@.background_color == overridden(None, opt_str(self.styles.background_color), self.styles.background_color_override)
                    && r.stylesheet.unwrap()@.margin_size == overridden(None, opt_str(self.styles.margin_size), self.styles.margin_size_override)
                    && r.stylesheet.unwrap()@.max_image_height == overridden(None, opt_str(self.styles.max_image_height), self.styles.max_image_height_override)
                    && r.stylesheet.unwrap()@.max_image_width == overridden(None, opt_str(self.styles.max_image_width), self.styles.max_image_width_override)
            },
    {
        if self.raw {
            return Style::raw();
        }
        let stylesheet = if self.styles.is_undefined() {
            None
        } else {
            let empty = Stylesheet {
                text_color: None,
                link_color: None,
                background_color: None,
                margin_size: None,
                max_image_height: None,
                max_image_width: None,
            };
            Some(empty.with_overrides(&self.styles))
        };
        Style {
            include_index: match self.include_index {
                Some(b) => b,
                None => true,
            },
            inject_navigation: match self.inject_navigation {
                Some(b) => b,
                None => true,
            },
            stylesheet,
        }
    }
}

} // verus!
