//! Settings read from the configuration file.
use vstd::prelude::*;

verus! {

/// The user's settings: a default viewer command and the library's budgets.
#[derive(Clone, Debug)]
pub struct Config {
    pub default_browser: Option<String>,
    pub max_library_books: Option<usize>,
    pub max_library_bytes: Option<u64>,
}

impl Default for Config {
    fn default() -> (r: Self)
        ensures
            r.default_browser.is_none(),
            r.max_library_books.is_none(),
            r.max_library_bytes.is_none(),
    {
        Config { default_browser: None, max_library_books: None, max_library_bytes: None }
    }
}

impl Config {
    /// The viewer to open books with: the one given on the command line,
    /// else the configured default, else none (the system's opener).
    pub fn browser(&self, requested: &Option<String>) -> (r: Option<String>)
        ensures
            crate::style::opt_str(r) == match requested {
                Some(b) => Some(b@),
                None => crate::style::opt_str(self.default_browser),
            },
    {
        match requested {
            Some(b) => Some(b.clone()),
            None => match &self.default_browser {
                Some(b) => Some(b.clone()),
                None => None,
            },
        }
    }
}

} // verus!
