//! Turning a parsed tree into flat runs of styled text: the ambient styling
//! context, how each tag changes it, and the walk that emits one run per
//! text leaf.

use vstd::prelude::*;

use crate::chars::str_eq;
use crate::color::BbCodeColor;
use crate::color::ColorMap;
use crate::color::Rgba;
use crate::color::SpecColor;
use crate::color::spec_white;
use crate::settings::BbcodeSettings;
use crate::settings::SpecSettings;
use crate::tree::BbcodeNode;
use crate::tree::BbcodeTag;
use crate::tree::SpecNode;
use crate::tree::SpecTag;
use crate::tree::nodes_view;
use crate::tree::lemma_nodes_view_index;
use crate::tree::lemma_nodes_view_len;

verus! {

/// An ASCII whitespace character, as trimmed around color values.
pub open spec fn is_space(c: char) -> bool {
    c == ' ' || c == '\t' || c == '\n' || c == '\r'
}

/// Executable check for [`is_space`].
pub fn char_is_space(c: char) -> (r: bool)
    ensures
        r == is_space(c),
{
    c == ' ' || c == '\t' || c == '\n' || c == '\r'
}

/// The number of whitespace characters at the front of `s`.
pub open spec fn leading_spaces(s: Seq<char>) -> int
    decreases s.len(),
{
    if s.len() > 0 && is_space(s[0]) {
        1 + leading_spaces(s.skip(1))
    } else {
        0
    }
}

/// The number of whitespace characters at the back of `s`.
pub open spec fn trailing_spaces(s: Seq<char>) -> int
    decreases s.len(),
{
    if s.len() > 0 && is_space(s.last()) {
        1 + trailing_spaces(s.drop_last())
    } else {
        0
    }
}

/// `s` with leading and trailing whitespace removed.
pub open spec fn spec_trim(s: Seq<char>) -> Seq<char> {
    let a = leading_spaces(s);
    let rest = s.skip(a);
    rest.take(rest.len() - trailing_spaces(rest))
}

proof fn lemma_leading_spaces_is(s: Seq<char>, k: int)
    requires
        0 <= k <= s.len(),
        forall|j: int| 0 <= j < k ==> is_space(s[j]),
        k < s.len() ==> !is_space(s[k]),
    ensures
        leading_spaces(s) == k,
    decreases s.len(),
{
    if k > 0 {
        assert(is_space(s[0]));
        assert forall|j: int| 0 <= j < k - 1 implies is_space(s.skip(1)[j]) by {
            assert(s.skip(1)[j] == s[j + 1]);
        }
        if k - 1 < s.skip(1).len() {
            assert(s.skip(1)[k - 1] == s[k]);
        }
        lemma_leading_spaces_is(s.skip(1), k - 1);
    }
}

proof fn lemma_trailing_spaces_is(s: Seq<char>, k: int)
    requires
        0 <= k <= s.len(),
        forall|j: int| s.len() - k <= j < s.len() ==> is_space(s[j]),
        k < s.len() ==> !is_space(s[s.len() - k - 1]),
    ensures
        trailing_spaces(s) == k,
    decreases s.len(),
{
    if k > 0 {
        assert(is_space(s.last()));
        let d = s.drop_last();
        assert forall|j: int| d.len() - (k - 1) <= j < d.len() implies is_space(d[j]) by {
            assert(d[j] == s[j]);
        }
        if k - 1 < d.len() {
            assert(d[d.len() - (k - 1) - 1] == s[s.len() - k - 1]);
        }
        lemma_trailing_spaces_is(d, k - 1);
    }
}

/// Trim ASCII whitespace from both ends of a string.
#[verifier::loop_isolation(false)]
pub fn trim_str(s: &str) -> (r: String)
    ensures
        r@ == spec_trim(s@),
{
    let n = s.unicode_len();
    let mut a: usize = 0;
    while a < n
        invariant
            0 <= a <= n,
            forall|j: int| 0 <= j < a ==> is_space(s@[j]),
        decreases n - a,
    {
        if !char_is_space(s.get_char(a)) {
            break;
        }
        a = a + 1;
    }
    proof {
        lemma_leading_spaces_is(s@, a as int);
    }
    let mut b: usize = n;
    while b > a
        invariant
            a <= b <= n,
            forall|j: int| b <= j < n ==> is_space(s@[j]),
        decreases b,
    {
        if !char_is_space(s.get_char(b - 1)) {
            break;
        }
        b = b - 1;
    }
    proof {
        let rest = s@.skip(a as int);
        assert forall|j: int| rest.len() - (n - b) <= j < rest.len() implies is_space(rest[j]) by {
            assert(rest[j] == s@[j + a]);
        }
        if b > a {
            assert(rest[rest.len() - (n - b) - 1] == s@[b - 1]);
        }
        lemma_trailing_spaces_is(rest, n - b);
        assert(rest.take(rest.len() - (n - b)) =~= s@.subrange(a as int, b as int));
    }
    String::from_str(s.substring_char(a, b))
}

/// A hexadecimal digit.
pub open spec fn is_hex_digit(c: char) -> bool {
    (48 <= c as u32 && c as u32 <= 57) || (97 <= c as u32 && c as u32 <= 102) || (65 <= c as u32
        && c as u32 <= 70)
}

/// The value of a hexadecimal digit.
pub open spec fn hex_val(c: char) -> u32 {
    if 48 <= c as u32 && c as u32 <= 57 {
        (c as u32 - 48) as u32
    } else if 97 <= c as u32 && c as u32 <= 102 {
        (c as u32 - 87) as u32
    } else {
        (c as u32 - 55) as u32
    }
}

/// The channel value of a two-digit pair.
pub open spec fn hex_pair(hi: char, lo: char) -> u8 {
    (hex_val(hi) * 16 + hex_val(lo)) as u8
}

/// The channel value of one digit doubled, as in short color forms.
pub open spec fn hex_dup(c: char) -> u8 {
    (hex_val(c) * 17) as u8
}

/// Whether every character of `h` is a hexadecimal digit.
pub open spec fn all_hex_digits(h: Seq<char>) -> bool {
    forall|i: int| 0 <= i < h.len() ==> is_hex_digit(h[i])
}

/// A hex color value: an optional leading `#`, then 3, 4, 6 or 8 hex
/// digits, short forms doubling each digit, alpha defaulting to opaque.
pub open spec fn spec_hex_color(s: Seq<char>) -> Option<Rgba> {
    let h = if s.len() > 0 && s[0] == '#' {
        s.skip(1)
    } else {
        s
    };
    if all_hex_digits(h) {
        if h.len() == 3 {
            Some(Rgba { red: hex_dup(h[0]), green: hex_dup(h[1]), blue: hex_dup(h[2]), alpha: 255 })
        } else if h.len() == 4 {
            Some(
                Rgba {
                    red: hex_dup(h[0]),
                    green: hex_dup(h[1]),
                    blue: hex_dup(h[2]),
                    alpha: hex_dup(h[3]),
                },
            )
        } else if h.len() == 6 {
            Some(
                Rgba {
                    red: hex_pair(h[0], h[1]),
                    green: hex_pair(h[2], h[3]),
                    blue: hex_pair(h[4], h[5]),
                    alpha: 255,
                },
            )
        } else if h.len() == 8 {
            Some(
                Rgba {
                    red: hex_pair(h[0], h[1]),
                    green: hex_pair(h[2], h[3]),
                    blue: hex_pair(h[4], h[5]),
                    alpha: hex_pair(h[6], h[7]),
                },
            )
        } else {
            None
        }
    } else {
        None
    }
}

/// Executable check for [`is_hex_digit`].
fn char_is_hex_digit(c: char) -> (r: bool)
    ensures
        r == is_hex_digit(c),
{
    let u = c as u32;
    (48 <= u && u <= 57) || (97 <= u && u <= 102) || (65 <= u && u <= 70)
}

/// Executable form of [`hex_val`].
fn hex_val_char(c: char) -> (r: u32)
    requires
        is_hex_digit(c),
    ensures
        r == hex_val(c),
        r <= 15,
{
    let u = c as u32;
    if 48 <= u && u <= 57 {
        u - 48
    } else if 97 <= u && u <= 102 {
        u - 87
    } else {
        u - 55
    }
}

/// Parse a hex color value as [`spec_hex_color`] describes it.
#[verifier::loop_isolation(false)]
pub fn parse_hex_color(s: &str) -> (r: Option<Rgba>)
    ensures
        r == spec_hex_color(s@),
{
    let n = s.unicode_len();
    let start: usize = if n > 0 && s.get_char(0) == '#' {
        1
    } else {
        0
    };
    let ghost h = if s@.len() > 0 && s@[0] == '#' {
        s@.skip(1)
    } else {
        s@
    };
    proof {
        assert(h =~= s@.skip(start as int));
    }
    let m = n - start;
    if !(m == 3 || m == 4 || m == 6 || m == 8) {
        proof {
            assert(h.len() == m);
            assert(h.len() != 3 && h.len() != 4 && h.len() != 6 && h.len() != 8);
            assert(spec_hex_color(s@) is None);
        }
        return None;
    }
    let mut i: usize = 0;
    while i < m
        invariant
            0 <= i <= m,
            forall|j: int| 0 <= j < i ==> is_hex_digit(h[j]),
        decreases m - i,
    {
        if !char_is_hex_digit(s.get_char(start + i)) {
            proof {
                assert(h[i as int] == s@[start + i]);
                assert(!is_hex_digit(h[i as int]));
                assert(!all_hex_digits(h));
            }
            return None;
        }
        proof {
            assert(h[i as int] == s@[start + i]);
        }
        i = i + 1;
    }
    let d0 = s.get_char(start);
    let d1 = s.get_char(start + 1);
    let d2 = s.get_char(start + 2);
    proof {
        assert(h[0] == s@[start as int]);
        assert(h[1] == s@[start as int + 1]);
        assert(h[2] == s@[start as int + 2]);
    }
    if m == 3 {
        Some(
            Rgba {
                red: (hex_val_char(d0) * 17) as u8,
                green: (hex_val_char(d1) * 17) as u8,
                blue: (hex_val_char(d2) * 17) as u8,
                alpha: 255,
            },
        )
    } else if m == 4 {
        let d3 = s.get_char(start + 3);
        proof {
            assert(h[3] == s@[start as int + 3]);
        }
        Some(
            Rgba {
                red: (hex_val_char(d0) * 17) as u8,
                green: (hex_val_char(d1) * 17) as u8,
                blue: (hex_val_char(d2) * 17) as u8,
                alpha: (hex_val_char(d3) * 17) as u8,
            },
        )
    } else {
        let d3 = s.get_char(start + 3);
        let d4 = s.get_char(start + 4);
        let d5 = s.get_char(start + 5);
        proof {
            assert(h[3] == s@[start as int + 3]);
            assert(h[4] == s@[start as int + 4]);
            assert(h[5] == s@[start as int + 5]);
        }
        if m == 6 {
            Some(
                Rgba {
                    red: (hex_val_char(d0) * 16 + hex_val_char(d1)) as u8,
                    green: (hex_val_char(d2) * 16 + hex_val_char(d3)) as u8,
                    blue: (hex_val_char(d4) * 16 + hex_val_char(d5)) as u8,
                    alpha: 255,
                },
            )
        } else {
            let d6 = s.get_char(start + 6);
            let d7 = s.get_char(start + 7);
            proof {
                assert(h[6] == s@[start as int + 6]);
                assert(h[7] == s@[start as int + 7]);
            }
            Some(
                Rgba {
                    red: (hex_val_char(d0) * 16 + hex_val_char(d1)) as u8,
                    green: (hex_val_char(d2) * 16 + hex_val_char(d3)) as u8,
                    blue: (hex_val_char(d4) * 16 + hex_val_char(d5)) as u8,
                    alpha: (hex_val_char(d6) * 16 + hex_val_char(d7)) as u8,
                },
            )
        }
    }
}

/// Clone a vector of strings, keeping every element equal.
fn clone_strings(v: &Vec<String>) -> (r: Vec<String>)
    ensures
        r@ == v@,
{
    let n = v.len();
    let mut r: Vec<String> = Vec::new();
    let mut i: usize = 0;
    while i < n
        invariant
            0 <= i <= n,
            n == v@.len(),
            r@.len() == i,
            forall|j: int| 0 <= j < i ==> r@[j] == v@[j],
        decreases n - i,
    {
        r.push(v[i].clone());
        i = i + 1;
    }
    proof {
        assert(r@ =~= v@);
    }
    r
}

/// Mathematical model of the ambient styling context.
pub ghost struct SpecContext {
    /// The font family active for text.
    pub font_family: Seq<char>,
    /// Whether text is written bold.
    pub is_bold: bool,
    /// Whether text is written italic.
    pub is_italic: bool,
    /// The active color reference.
    pub color: SpecColor,
    /// The simple parameters of the enclosing marker tags, outermost first.
    pub markers: Seq<Seq<char>>,
}

/// The ambient styling state while walking a parsed tree.
#[derive(Debug)]
pub struct BbcodeContext {
    /// The name of the font family to use for the text.
    pub font_family: String,
    /// Whether the text should be written bold.
    pub is_bold: bool,
    /// Whether the text should be written italic.
    pub is_italic: bool,
    /// The color of the text.
    pub color: BbCodeColor,
    /// Marker names gathered from enclosing `m` tags.
    pub markers: Vec<String>,
}

impl View for BbcodeContext {
    type V = SpecContext;

    open spec fn view(&self) -> SpecContext {
        SpecContext {
            font_family: self.font_family@,
            is_bold: self.is_bold,
            is_italic: self.is_italic,
            color: self.color@,
            markers: self.markers.deep_view(),
        }
    }
}

impl Clone for BbcodeContext {
    fn clone(&self) -> (res: Self)
        ensures
            res@ == self@,
    {
        let res = BbcodeContext {
            font_family: self.font_family.clone(),
            is_bold: self.is_bold,
            is_italic: self.is_italic,
            color: self.color.clone(),
            markers: clone_strings(&self.markers),
        };
        proof {
            assert(res@.markers =~= self@.markers);
        }
        res
    }
}

/// How one tag changes the ambient context: `b` and `i` set the weight and
/// slant, `c`/`color` sets the color (a hex value directly, any other value
/// as a name to look up), `m`/`marker` stacks a marker name, `font` sets
/// the font family, and every other tag changes nothing. A styling tag
/// whose parameter is missing also changes nothing.
pub open spec fn spec_apply_tag(ctx: SpecContext, tag: SpecTag) -> SpecContext {
    if tag.name == "b"@ {
        SpecContext { is_bold: true, ..ctx }
    } else if tag.name == "i"@ {
        SpecContext { is_italic: true, ..ctx }
    } else if tag.name == "c"@ || tag.name == "color"@ {
        match tag.simple_param {
            Some(p) => match spec_hex_color(spec_trim(p)) {
                Some(c) => (SpecContext { color: SpecColor::Static(c), ..ctx }),
                None => (SpecContext { color: SpecColor::Named(p), ..ctx }),
            },
            None => ctx,
        }
    } else if tag.name == "m"@ || tag.name == "marker"@ {
        match tag.simple_param {
            Some(p) => (SpecContext { markers: ctx.markers.push(p), ..ctx }),
            None => ctx,
        }
    } else if tag.name == "font"@ {
        match tag.simple_param {
            Some(p) => (SpecContext { font_family: p, ..ctx }),
            None => ctx,
        }
    } else {
        ctx
    }
}

impl BbcodeContext {
    /// Change the style according to the tag.
    pub fn apply_tag(&self, tag: &BbcodeTag) -> (r: Self)
        ensures
            r@ == spec_apply_tag(self@, tag@),
    {
        let name = tag.name();
        if str_eq(name, "b") {
            let mut r = self.clone();
            r.is_bold = true;
            r
        } else if str_eq(name, "i") {
            let mut r = self.clone();
            r.is_italic = true;
            r
        } else if str_eq(name, "c") || str_eq(name, "color") {
            match tag.simple_param() {
                Some(color) => {
                    let trimmed = trim_str(color.as_str());
                    let mut r = self.clone();
                    match parse_hex_color(trimmed.as_str()) {
                        Some(c) => {
                            r.color = BbCodeColor::Static(c);
                        },
                        None => {
                            r.color = BbCodeColor::Named(color.clone());
                        },
                    }
                    r
                },
                None => self.clone(),
            }
        } else if str_eq(name, "m") || str_eq(name, "marker") {
            match tag.simple_param() {
                Some(marker) => {
                    let mut r = self.clone();
                    let ghost ms = r@.markers;
                    r.markers.push(marker.clone());
                    proof {
                        assert(r@.markers =~= ms.push(marker@));
                    }
                    r
                },
                None => self.clone(),
            }
        } else if str_eq(name, "font") {
            match tag.simple_param() {
                Some(font_family) => {
                    let mut r = self.clone();
                    r.font_family = font_family.clone();
                    r
                },
                None => self.clone(),
            }
        } else {
            self.clone()
        }
    }
}


/// Mathematical model of one run of styled text.
pub ghost struct SpecRun {
    /// The text of the run.
    pub text: Seq<char>,
    /// The font family active at the leaf.
    pub font_family: Seq<char>,
    /// Whether the run is bold.
    pub is_bold: bool,
    /// Whether the run is italic.
    pub is_italic: bool,
    /// The resolved color, white when a name is not in the table.
    pub color: Rgba,
    /// The color name, when the active color is a named reference.
    pub color_name: Option<Seq<char>>,
    /// The registered markers to apply, in context order.
    pub markers: Seq<Seq<char>>,
}

/// One run of styled text, ready for a renderer.
#[derive(Debug, PartialEq, Eq)]
pub struct TextRun {
    /// The text of the run.
    pub text: String,
    /// The font family active at the leaf.
    pub font_family: String,
    /// Whether the run is bold.
    pub is_bold: bool,
    /// Whether the run is italic.
    pub is_italic: bool,
    /// The resolved color, white when a name is not in the table.
    pub color: Rgba,
    /// The color name, when the active color is a named reference.
    pub color_name: Option<String>,
    /// The registered markers to apply, in context order.
    pub markers: Vec<String>,
}

impl View for TextRun {
    type V = SpecRun;

    open spec fn view(&self) -> SpecRun {
        SpecRun {
            text: self.text@,
            font_family: self.font_family@,
            is_bold: self.is_bold,
            is_italic: self.is_italic,
            color: self.color,
            color_name: match self.color_name {
                Some(n) => Some(n@),
                None => None,
            },
            markers: self.markers.deep_view(),
        }
    }
}

impl DeepView for TextRun {
    type V = SpecRun;

    open spec fn deep_view(&self) -> SpecRun {
        self.view()
    }
}

/// The color a context paints text in: a direct value as it stands, a named
/// reference resolved against the table, white when the name is unknown.
pub open spec fn spec_resolve_color(c: SpecColor, m: ColorMap) -> Rgba {
    match c {
        SpecColor::Static(x) => x,
        SpecColor::Named(n) => match m.spec_get(n) {
            Some(x) => x,
            None => spec_white(),
        },
    }
}

/// The color name a run is tracked under, when the context color is named.
pub open spec fn spec_color_name(c: SpecColor) -> Option<Seq<char>> {
    match c {
        SpecColor::Named(n) => Some(n),
        SpecColor::Static(x) => None,
    }
}

/// The context markers that are registered in the settings, in order.
pub open spec fn spec_applied_markers(ms: Seq<Seq<char>>, st: SpecSettings) -> Seq<Seq<char>>
    decreases ms.len(),
{
    if ms.len() == 0 {
        Seq::empty()
    } else {
        (if st.markers.contains(ms[0]) {
            seq![ms[0]]
        } else {
            Seq::<Seq<char>>::empty()
        }) + spec_applied_markers(ms.skip(1), st)
    }
}

proof fn lemma_applied_markers_concat(a: Seq<Seq<char>>, b: Seq<Seq<char>>, st: SpecSettings)
    ensures
        spec_applied_markers(a + b, st) == spec_applied_markers(a, st) + spec_applied_markers(
            b,
            st,
        ),
    decreases a.len(),
{
    if a.len() == 0 {
        assert(a + b =~= b);
        assert(spec_applied_markers(a, st) + spec_applied_markers(b, st) =~= spec_applied_markers(
            b,
            st,
        ));
    } else {
        assert((a + b)[0] == a[0]);
        assert((a + b).skip(1) =~= a.skip(1) + b);
        lemma_applied_markers_concat(a.skip(1), b, st);
        assert((if st.markers.contains(a[0]) {
            seq![a[0]]
        } else {
            Seq::<Seq<char>>::empty()
        }) + (spec_applied_markers(a.skip(1), st) + spec_applied_markers(b, st)) =~= ((if st.markers.contains(
            a[0],
        ) {
            seq![a[0]]
        } else {
            Seq::<Seq<char>>::empty()
        }) + spec_applied_markers(a.skip(1), st)) + spec_applied_markers(b, st));
    }
}

/// The run a text leaf produces under a given context.
pub open spec fn spec_run_of(text: Seq<char>, ctx: SpecContext, st: SpecSettings, m: ColorMap) -> SpecRun {
    SpecRun {
        text: text,
        font_family: ctx.font_family,
        is_bold: ctx.is_bold,
        is_italic: ctx.is_italic,
        color: spec_resolve_color(ctx.color, m),
        color_name: spec_color_name(ctx.color),
        markers: spec_applied_markers(ctx.markers, st),
    }
}

/// The runs a node sequence produces: one per text leaf, in source order,
/// each styled by the context its enclosing tags built up.
pub open spec fn spec_runs(
    ns: Seq<SpecNode>,
    ctx: SpecContext,
    st: SpecSettings,
    m: ColorMap,
) -> Seq<SpecRun>
    decreases ns,
{
    if ns.len() == 0 {
        Seq::empty()
    } else {
        (match ns[0] {
            SpecNode::Text(t) => seq![spec_run_of(t, ctx, st, m)],
            SpecNode::Tag(tg) => spec_runs(tg.children, spec_apply_tag(ctx, tg), st, m),
        }) + spec_runs(ns.skip(1), ctx, st, m)
    }
}

/// The context markers that the settings register, in order.
#[verifier::loop_isolation(false)]
fn applied_markers(markers: &Vec<String>, settings: &BbcodeSettings) -> (r: Vec<String>)
    ensures
        r.deep_view() == spec_applied_markers(markers.deep_view(), settings@),
{
    let ghost mv = markers.deep_view();
    let n = markers.len();
    let mut r: Vec<String> = Vec::new();
    let mut i: usize = 0;
    while i < n
        invariant
            0 <= i <= n,
            r.deep_view() == spec_applied_markers(mv.take(i as int), settings@),
        decreases n - i,
    {
        let ghost r0 = r.deep_view();
        let ghost one = seq![mv[i as int]];
        if settings.has_marker(markers[i].as_str()) {
            r.push(markers[i].clone());
            proof {
                assert(r.deep_view() =~= r0 + one);
            }
        } else {
            proof {
                assert(r.deep_view() =~= r0 + Seq::<Seq<char>>::empty());
            }
        }
        proof {
            reveal_with_fuel(spec_applied_markers, 2);
            assert(mv.take(i + 1) =~= mv.take(i as int) + one);
            lemma_applied_markers_concat(mv.take(i as int), one, settings@);
            assert(one.skip(1) =~= Seq::<Seq<char>>::empty());
            assert(mv[i as int] == markers@[i as int]@);
            if settings@.markers.contains(mv[i as int]) {
                assert(spec_applied_markers(one, settings@) =~= one);
            } else {
                assert(spec_applied_markers(one, settings@) =~= Seq::<Seq<char>>::empty());
            }
            assert(r.deep_view() =~= spec_applied_markers(mv.take(i + 1), settings@));
        }
        i = i + 1;
    }
    proof {
        assert(mv.take(n as int) =~= mv);
    }
    r
}

/// Walk the nodes under a context and emit one styled run per text leaf, as
/// the rendering layer consumes them.
#[verifier::loop_isolation(false)]
pub fn compute_text_runs(
    nodes: &Vec<BbcodeNode>,
    context: &BbcodeContext,
    settings: &BbcodeSettings,
    color_map: &ColorMap,
) -> (r: Vec<TextRun>)
    ensures
        r.deep_view() == spec_runs(nodes_view(nodes@), context@, settings@, *color_map),
    decreases nodes@,
{
    let ghost nv = nodes_view(nodes@);
    proof {
        lemma_nodes_view_len(nodes@);
    }
    let n = nodes.len();
    let mut out: Vec<TextRun> = Vec::new();
    let mut i: usize = 0;
    while i < n
        invariant
            0 <= i <= n,
            out.deep_view() == spec_runs(nv.take(i as int), context@, settings@, *color_map),
        decreases n - i,
    {
        proof {
            lemma_nodes_view_index(nodes@, i as int);
        }
        let ghost out0 = out.deep_view();
        match &nodes[i] {
            BbcodeNode::Text(text) => {
                let color = match context.color.to_color(color_map) {
                    Some(c) => c,
                    None => Rgba { red: 255, green: 255, blue: 255, alpha: 255 },
                };
                let color_name = match &context.color {
                    BbCodeColor::Named(nm) => Some(nm.clone()),
                    BbCodeColor::Static(c) => None,
                };
                let run = TextRun {
                    text: text.clone(),
                    font_family: context.font_family.clone(),
                    is_bold: context.is_bold,
                    is_italic: context.is_italic,
                    color,
                    color_name,
                    markers: applied_markers(&context.markers, settings),
                };
                proof {
                    assert(run@ == spec_run_of(text@, context@, settings@, *color_map));
                }
                out.push(run);
                proof {
                    assert(out.deep_view() =~= out0 + seq![
                        spec_run_of(text@, context@, settings@, *color_map),
                    ]);
                }
            },
            BbcodeNode::Tag(tag) => {
                let sub_context = context.apply_tag(tag);
                let mut sub = compute_text_runs(&tag.children, &sub_context, settings, color_map);
                let ghost subv = sub.deep_view();
                let ghost outlen = out.deep_view().len();
                out.append(&mut sub);
                proof {
                    assert(out.deep_view() =~= out0 + subv);
                }
            },
        }
        proof {
            let ghost one = seq![nv[i as int]];
            assert(nv.take(i + 1) =~= nv.take(i as int) + one);
            lemma_spec_runs_concat(nv.take(i as int), one, context@, settings@, *color_map);
            assert(one.skip(1) =~= Seq::<SpecNode>::empty());
            reveal_with_fuel(spec_runs, 2);
            assert(spec_runs(one, context@, settings@, *color_map) =~= (match one[0] {
                SpecNode::Text(t) => seq![spec_run_of(t, context@, settings@, *color_map)],
                SpecNode::Tag(tg) => spec_runs(
                    tg.children,
                    spec_apply_tag(context@, tg),
                    settings@,
                    *color_map,
                ),
            }));
            assert(out.deep_view() =~= spec_runs(
                nv.take(i + 1),
                context@,
                settings@,
                *color_map,
            ));
        }
        i = i + 1;
    }
    proof {
        assert(nv.take(n as int) =~= nv);
    }
    out
}

proof fn lemma_spec_runs_concat(
    a: Seq<SpecNode>,
    b: Seq<SpecNode>,
    ctx: SpecContext,
    st: SpecSettings,
    m: ColorMap,
)
    ensures
        spec_runs(a + b, ctx, st, m) == spec_runs(a, ctx, st, m) + spec_runs(b, ctx, st, m),
    decreases a.len(),
{
    if a.len() == 0 {
        assert(a + b =~= b);
        assert(spec_runs(a, ctx, st, m) + spec_runs(b, ctx, st, m) =~= spec_runs(b, ctx, st, m));
    } else {
        assert((a + b)[0] == a[0]);
        assert((a + b).skip(1) =~= a.skip(1) + b);
        lemma_spec_runs_concat(a.skip(1), b, ctx, st, m);
        let head = match a[0] {
            SpecNode::Text(t) => seq![spec_run_of(t, ctx, st, m)],
            SpecNode::Tag(tg) => spec_runs(tg.children, spec_apply_tag(ctx, tg), st, m),
        };
        assert(head + (spec_runs(a.skip(1), ctx, st, m) + spec_runs(b, ctx, st, m)) =~= (head
            + spec_runs(a.skip(1), ctx, st, m)) + spec_runs(b, ctx, st, m));
    }
}

/// What a whole document renders to: `None` when the input is malformed
/// (its parse leaves a remainder), else the styled runs of its tree under
/// the settings' initial context.
pub open spec fn spec_convert(content: Seq<char>, st: SpecSettings, m: ColorMap) -> Option<
    Seq<SpecRun>,
> {
    let (nodes, rem) = crate::parser::spec_nodes(content);
    if rem.len() > 0 {
        None
    } else {
        Some(
            spec_runs(
                nodes,
                SpecContext {
                    font_family: st.font_family,
                    is_bold: false,
                    is_italic: false,
                    color: st.color,
                    markers: Seq::empty(),
                },
                st,
                m,
            ),
        )
    }
}

/// Parse a document and turn it into styled runs; reject malformed input
/// (input whose parse leaves a remainder) instead of rendering a prefix.
pub fn convert_bbcode(content: &str, settings: &BbcodeSettings, color_map: &ColorMap) -> (r: Option<
    Vec<TextRun>,
>)
    ensures
        match r {
            Some(runs) => spec_convert(content@, settings@, *color_map) == Some(runs.deep_view()),
            None => spec_convert(content@, settings@, *color_map) is None,
        },
{
    let (remainder, nodes) = crate::parser::parse_bbcode(content);
    if remainder.unicode_len() > 0 {
        return None;
    }
    let context = BbcodeContext {
        font_family: settings.font_family.clone(),
        is_bold: false,
        is_italic: false,
        color: settings.color.clone(),
        markers: Vec::new(),
    };
    proof {
        assert(context@.markers =~= Seq::<Seq<char>>::empty());
    }
    let runs = compute_text_runs(&nodes, &context, settings, color_map);
    Some(runs)
}

} // verus!
