//! Colors for the styling layer: an RGBA value with 8-bit channels, color
//! references that are either direct values or names, and the named-color
//! table with its update tracking.

use vstd::prelude::*;

use crate::chars::str_eq;

verus! {

/// A color with 8-bit red, green, blue and alpha channels.
#[derive(Debug, Clone, Copy, PartialEq, Eq, Structural)]
pub struct Rgba {
    pub red: u8,
    pub green: u8,
    pub blue: u8,
    pub alpha: u8,
}

/// Opaque white, the fallback when a named color is not in the table.
pub open spec fn spec_white() -> Rgba {
    Rgba { red: 255, green: 255, blue: 255, alpha: 255 }
}

/// Mathematical model of a color reference.
pub ghost enum SpecColor {
    Named(Seq<char>),
    Static(Rgba),
}

/// A color for rendered text: either a name to look up in the
/// [`ColorMap`], or a direct value.
#[derive(Debug, PartialEq, Eq)]
pub enum BbCodeColor {
    Named(String),
    Static(Rgba),
}

impl View for BbCodeColor {
    type V = SpecColor;

    open spec fn view(&self) -> SpecColor {
        match self {
            BbCodeColor::Named(n) => SpecColor::Named(n@),
            BbCodeColor::Static(c) => SpecColor::Static(*c),
        }
    }
}

impl Clone for BbCodeColor {
    fn clone(&self) -> (res: Self)
        ensures
            res@ == self@,
    {
        match self {
            BbCodeColor::Named(n) => BbCodeColor::Named(n.clone()),
            BbCodeColor::Static(c) => BbCodeColor::Static(*c),
        }
    }
}

impl From<Rgba> for BbCodeColor {
    fn from(value: Rgba) -> (r: Self) {
        BbCodeColor::Static(value)
    }
}

impl vstd::std_specs::convert::FromSpecImpl<Rgba> for BbCodeColor {
    open spec fn obeys_from_spec() -> bool {
        true
    }

    open spec fn from_spec(v: Rgba) -> Self {
        BbCodeColor::Static(v)
    }
}

impl From<String> for BbCodeColor {
    fn from(value: String) -> (r: Self) {
        BbCodeColor::Named(value)
    }
}

impl vstd::std_specs::convert::FromSpecImpl<String> for BbCodeColor {
    open spec fn obeys_from_spec() -> bool {
        true
    }

    open spec fn from_spec(v: String) -> Self {
        BbCodeColor::Named(v)
    }
}

/// Registers the named-color table and its update pass with a host
/// application.
#[derive(Debug)]
pub struct ColorPlugin;

/// Marks rendered text whose color came from a named reference, so a later
/// change of that name's color can reach it.
#[derive(Debug, PartialEq, Eq)]
pub struct BbCodeColored {
    pub name: String,
}

/// The table of named colors. A lookup finds the most recently inserted
/// value for a name; the table also tracks which names were updated since
/// the tracker was last cleared.
#[derive(Debug)]
pub struct ColorMap {
    map: Vec<(String, Rgba)>,
    was_updated: Vec<String>,
}

spec fn assoc_find(m: Seq<(String, Rgba)>, name: Seq<char>) -> Option<Rgba>
    decreases m.len(),
{
    if m.len() == 0 {
        None
    } else if m[0].0@ == name {
        Some(m[0].1)
    } else {
        assoc_find(m.skip(1), name)
    }
}

impl ColorMap {
    /// The color the table holds for `name`, if any.
    pub closed spec fn spec_get(self, name: Seq<char>) -> Option<Rgba> {
        assoc_find(self.map@, name)
    }

    /// Whether `name` was updated since the tracker was last cleared.
    pub closed spec fn spec_updated(self, name: Seq<char>) -> bool {
        exists|i: int| 0 <= i < self.was_updated@.len() && self.was_updated@[i]@ == name
    }

    /// Insert (add or update) a new named color.
    pub fn insert(&mut self, name: &str, color: Rgba)
        ensures
            forall|n: Seq<char>| #[trigger]
                final(self).spec_get(n) == (if n == name@ {
                    Some(color)
                } else {
                    old(self).spec_get(n)
                }),
            forall|n: Seq<char>| #[trigger]
                final(self).spec_updated(n) == (n == name@ || old(self).spec_updated(n)),
    {
        let ghost m0 = self.map@;
        let ghost u0 = self.was_updated@;
        self.map.insert(0, (String::from_str(name), color));
        self.was_updated.push(String::from_str(name));
        proof {
            assert forall|n: Seq<char>| #[trigger]
                final(self).spec_get(n) == (if n == name@ {
                    Some(color)
                } else {
                    old(self).spec_get(n)
                }) by {
                assert(self.map@ =~= seq![(self.map@[0].0, color)] + m0);
                assert(self.map@.skip(1) =~= m0);
                assert(self.map@[0].0@ == name@);
            }
            assert forall|n: Seq<char>| #[trigger]
                final(self).spec_updated(n) == (n == name@ || old(self).spec_updated(n)) by {
                assert(self.was_updated@ =~= u0.push(self.was_updated@[u0.len() as int]));
                assert(self.was_updated@[u0.len() as int]@ == name@);
                if self.spec_updated(n) {
                    let i = choose|i: int|
                        0 <= i < self.was_updated@.len() && self.was_updated@[i]@ == n;
                    if i < u0.len() {
                        assert(u0[i]@ == n);
                    }
                }
                if n == name@ {
                    assert(self.was_updated@[u0.len() as int]@ == n);
                }
                if old(self).spec_updated(n) {
                    let i = choose|i: int| 0 <= i < u0.len() && u0[i]@ == n;
                    assert(self.was_updated@[i]@ == n);
                }
            }
        }
    }

    /// Get the color for the given name.
    #[verifier::loop_isolation(false)]
    pub fn get(&self, name: &str) -> (r: Option<Rgba>)
        ensures
            r == self.spec_get(name@),
    {
        let n = self.map.len();
        proof {
            assert(self.map@.skip(0) =~= self.map@);
        }
        let mut i: usize = 0;
        while i < n
            invariant
                0 <= i <= n,
                assoc_find(self.map@, name@) == assoc_find(self.map@.skip(i as int), name@),
            decreases n - i,
        {
            if str_eq(self.map[i].0.as_str(), name) {
                proof {
                    assert(self.map@.skip(i as int)[0] == self.map@[i as int]);
                }
                return Some(self.map[i].1);
            }
            proof {
                assert(self.map@.skip(i as int)[0] == self.map@[i as int]);
                assert(self.map@.skip(i as int).skip(1) =~= self.map@.skip(i as int + 1));
            }
            i = i + 1;
        }
        proof {
            assert(self.map@.skip(n as int).len() == 0);
        }
        None
    }

    /// Determine if any color has been updated.
    pub fn has_update(&self) -> (r: bool)
        ensures
            r == exists|n: Seq<char>| #[trigger] self.spec_updated(n),
    {
        if self.was_updated.len() > 0 {
            proof {
                let witness = self.was_updated@[0]@;
                assert(self.spec_updated(witness));
            }
            true
        } else {
            proof {
                if exists|n: Seq<char>| #[trigger] self.spec_updated(n) {
                    let n = choose|n: Seq<char>| #[trigger] self.spec_updated(n);
                    let i = choose|i: int|
                        0 <= i < self.was_updated@.len() && self.was_updated@[i]@ == n;
                }
            }
            false
        }
    }

    /// Determine if the color with the given name has been updated, and if
    /// yes to which value.
    ///
    /// You should probably call [`ColorMap::clear_was_updated`] at some
    /// point afterwards.
    #[verifier::loop_isolation(false)]
    pub fn get_update(&self, name: &str) -> (r: Option<Rgba>)
        ensures
            r == (if self.spec_updated(name@) {
                self.spec_get(name@)
            } else {
                None::<Rgba>
            }),
    {
        let n = self.was_updated.len();
        let mut i: usize = 0;
        while i < n
            invariant
                0 <= i <= n,
                forall|j: int| 0 <= j < i ==> self.was_updated@[j]@ != name@,
            decreases n - i,
        {
            if str_eq(self.was_updated[i].as_str(), name) {
                proof {
                    assert(self.spec_updated(name@));
                }
                return self.get(name);
            }
            i = i + 1;
        }
        proof {
            if self.spec_updated(name@) {
                let j = choose|j: int|
                    0 <= j < self.was_updated@.len() && self.was_updated@[j]@ == name@;
            }
        }
        None
    }

    /// Clear the tracker for the color names which had their values updated.
    pub fn clear_was_updated(&mut self)
        ensures
            forall|n: Seq<char>| !(#[trigger] final(self).spec_updated(n)),
            forall|n: Seq<char>| #[trigger] final(self).spec_get(n) == old(self).spec_get(n),
    {
        self.was_updated.clear();
    }
}

impl Default for ColorMap {
    /// An empty table with nothing marked updated.
    fn default() -> (r: Self)
        ensures
            forall|n: Seq<char>| (#[trigger] r.spec_get(n)) is None,
            forall|n: Seq<char>| !(#[trigger] r.spec_updated(n)),
    {
        ColorMap { map: Vec::new(), was_updated: Vec::new() }
    }
}

impl BbCodeColor {
    /// Resolve this reference against the named-color table.
    pub fn to_color(&self, color_map: &ColorMap) -> (r: Option<Rgba>)
        ensures
            r == spec_to_color(self@, *color_map),
    {
        match self {
            BbCodeColor::Static(color) => Some(*color),
            BbCodeColor::Named(name) => color_map.get(name.as_str()),
        }
    }
}

/// What a color reference resolves to: a direct value is itself, a name is
/// looked up in the table.
pub open spec fn spec_to_color(c: SpecColor, m: ColorMap) -> Option<Rgba> {
    match c {
        SpecColor::Static(x) => Some(x),
        SpecColor::Named(n) => m.spec_get(n),
    }
}

/// One pass of the color-update tracking: for each piece of named-colored
/// text, the new color it should take, if its name was updated; then the
/// tracker is cleared. The table's colors themselves do not change.
pub fn update_colors(color_map: &mut ColorMap, colored: &Vec<BbCodeColored>) -> (r: Vec<
    Option<Rgba>,
>)
    ensures
        r@.len() == colored@.len(),
        forall|i: int|
            0 <= i < colored@.len() ==> r@[i] == (if old(color_map).spec_updated(
                colored@[i].name@,
            ) {
                old(color_map).spec_get(colored@[i].name@)
            } else {
                None::<Rgba>
            }),
        forall|n: Seq<char>| #[trigger] final(color_map).spec_get(n) == old(color_map).spec_get(n),
        forall|n: Seq<char>| !(#[trigger] final(color_map).spec_updated(n)),
{
    let nc = colored.len();
    if !color_map.has_update() {
        let mut r: Vec<Option<Rgba>> = Vec::new();
        let mut i: usize = 0;
        while i < nc
            invariant
                0 <= i <= nc,
                r@.len() == i,
                forall|j: int| 0 <= j < i ==> r@[j] is None,
            decreases nc - i,
        {
            r.push(None);
            i = i + 1;
        }
        color_map.clear_was_updated();
        return r;
    }
    let mut r: Vec<Option<Rgba>> = Vec::new();
    let mut i: usize = 0;
    while i < nc
        invariant
            0 <= i <= nc,
            nc == colored@.len(),
            r@.len() == i,
            *color_map == *old(color_map),
            forall|j: int|
                0 <= j < i ==> r@[j] == (if old(color_map).spec_updated(colored@[j].name@) {
                    old(color_map).spec_get(colored@[j].name@)
                } else {
                    None::<Rgba>
                }),
        decreases nc - i,
    {
        let v = color_map.get_update(colored[i].name.as_str());
        r.push(v);
        i = i + 1;
    }
    color_map.clear_was_updated();
    r
}

} // verus!
