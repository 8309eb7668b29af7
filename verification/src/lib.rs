//! A verified parser and serializer for a compact bracketed markup language
//! (`[b]bold[/b]`, optional tag parameters, escape sequences, arbitrary
//! nesting), together with the styling model that turns a parsed tree into
//! flat runs of styled text.

pub mod chars;
pub mod color;
pub mod conversion;
pub mod font;
pub mod plugin;
pub mod laws;
pub mod parser;
pub mod settings;
pub mod tree;

pub use color::ColorMap;
pub use parser::parse_bbcode;
pub use plugin::BbcodePlugin;
pub use settings::Bbcode;
pub use settings::BbcodeSettings;
pub use tree::BbcodeNode;
pub use tree::BbcodeTag;
