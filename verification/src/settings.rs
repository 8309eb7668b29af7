//! The value that carries a piece of markup text, and the settings that
//! steer how a parsed tree is turned into styled runs.

use vstd::prelude::*;

use crate::chars::str_eq;
use crate::color::BbCodeColor;
use crate::color::SpecColor;

verus! {

/// A piece of markup-formatted text to render.
#[derive(Debug, PartialEq, Eq)]
pub struct Bbcode {
    /// The markup-formatted text.
    pub content: String,
}

impl Bbcode {
    /// Create a new markup text with the given content.
    pub fn new(content: &str) -> (r: Self)
        ensures
            r.content@ == content@,
    {
        Self { content: String::from_str(content) }
    }
}

/// Mathematical model of the rendering settings.
pub ghost struct SpecSettings {
    /// The default font family.
    pub font_family: Seq<char>,
    /// The default text color.
    pub color: SpecColor,
    /// The marker names registered for the `m` tag, in registration order.
    pub markers: Seq<Seq<char>>,
}

/// Rendering settings: the default font family and color, and the marker
/// names registered for the `m` tag.
#[derive(Debug)]
pub struct BbcodeSettings {
    /// The default font family.
    pub font_family: String,
    /// The default text color.
    pub color: BbCodeColor,
    /// The registered marker names.
    pub markers: Vec<String>,
}

impl View for BbcodeSettings {
    type V = SpecSettings;

    open spec fn view(&self) -> SpecSettings {
        SpecSettings {
            font_family: self.font_family@,
            color: self.color@,
            markers: self.markers.deep_view(),
        }
    }
}

impl BbcodeSettings {
    /// Settings with the given default font family and color, and no
    /// registered markers.
    pub fn new(font_family: &str, color: BbCodeColor) -> (r: Self)
        ensures
            r@ == (SpecSettings {
                font_family: font_family@,
                color: color@,
                markers: Seq::empty(),
            }),
    {
        let r = Self { font_family: String::from_str(font_family), color, markers: Vec::new() };
        proof {
            assert(r@.markers =~= Seq::<Seq<char>>::empty());
        }
        r
    }

    /// Register a marker name for the `m` tag.
    pub fn with_marker(self, tag_name: &str) -> (r: Self)
        ensures
            r@ == (SpecSettings { markers: self@.markers.push(tag_name@), ..self@ }),
    {
        let ghost orig = self@;
        let mut r = self;
        r.markers.push(String::from_str(tag_name));
        proof {
            assert(r@.markers =~= orig.markers.push(tag_name@));
        }
        r
    }

    /// Whether `name` is a registered marker name.
    #[verifier::loop_isolation(false)]
    pub fn has_marker(&self, name: &str) -> (r: bool)
        ensures
            r == self@.markers.contains(name@),
    {
        let n = self.markers.len();
        let mut i: usize = 0;
        while i < n
            invariant
                0 <= i <= n,
                forall|j: int| 0 <= j < i ==> self@.markers[j] != name@,
            decreases n - i,
        {
            if str_eq(self.markers[i].as_str(), name) {
                proof {
                    assert(self@.markers[i as int] == name@);
                }
                return true;
            }
            i = i + 1;
        }
        proof {
            if self@.markers.contains(name@) {
                let j = choose|j: int| 0 <= j < self@.markers.len() && self@.markers[j] == name@;
            }
        }
        false
    }
}

impl Default for BbcodeSettings {
    /// White text with no particular font family and no markers.
    fn default() -> (r: Self)
        ensures
            r@ == (SpecSettings {
                font_family: Seq::empty(),
                color: SpecColor::Static(crate::color::spec_white()),
                markers: Seq::empty(),
            }),
    {
        let r = Self {
            font_family: String::new(),
            color: BbCodeColor::Static(
                crate::color::Rgba { red: 255, green: 255, blue: 255, alpha: 255 },
            ),
            markers: Vec::new(),
        };
        proof {
            assert(r@.markers =~= Seq::<Seq<char>>::empty());
        }
        r
    }
}

} // verus!
