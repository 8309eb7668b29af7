//! The top-level plugin value a host application registers to have markup
//! text parsed, styled and kept up to date.

use vstd::prelude::*;

verus! {

/// The markup plugin: remembers where to load fonts from.
#[derive(Debug)]
pub struct BbcodePlugin {
    /// The path to a folder containing the fonts to use.
    pub font_folder_path: Option<String>,
}

impl BbcodePlugin {
    /// Create a new markup plugin.
    ///
    /// You probably also want to load fonts to make the text formatting
    /// work, see [`BbcodePlugin::with_fonts`].
    pub fn new() -> (r: Self)
        ensures
            r.font_folder_path is None,
    {
        Self { font_folder_path: None }
    }

    /// Load the fonts in the given directory.
    /// The directory should only contain font files and nothing else.
    pub fn with_fonts(self, folder_path: &str) -> (r: Self)
        ensures
            match r.font_folder_path {
                Some(p) => p@ == folder_path@,
                None => false,
            },
    {
        Self { font_folder_path: Some(String::from_str(folder_path)) }
    }
}

impl Default for BbcodePlugin {
    /// A plugin that loads no fonts.
    fn default() -> (r: Self)
        ensures
            r.font_folder_path is None,
    {
        Self { font_folder_path: None }
    }
}

} // verus!
