//! A recursive-descent parser for the bracketed markup language.
//!
//! The grammar is stated as spec functions over `Seq<char>`; each executable
//! parsing function is proved to return exactly what the corresponding spec
//! function says. A parse attempt either consumes a non-empty prefix and
//! yields a value, or consumes nothing and fails; the top-level entry point
//! never fails and hands back the unconsumed remainder.

use vstd::prelude::*;

use crate::chars::char_eq_icase;
use crate::chars::char_is_name;
use crate::chars::contains_char;
use crate::chars::eq_icase;
use crate::chars::is_name_char;
use crate::chars::push_char;
use crate::tree::BbcodeNode;
use crate::tree::BbcodeTag;
use crate::tree::SpecNode;
use crate::tree::SpecTag;
use crate::tree::node_view;
use crate::tree::nodes_view;

verus! {

/// The characters that end a literal run in general text.
pub open spec fn text_excl() -> Seq<char> {
    seq!['[', ']', '\\']
}

/// The characters that end a literal run inside a quoted parameter.
pub open spec fn quoted_excl() -> Seq<char> {
    seq!['"', '\\']
}

/// The characters that end an unquoted parameter value.
pub open spec fn unquoted_excl() -> Seq<char> {
    seq!['"', '\\', '[', ']', ' ']
}

/// The escape table: the literal a character denotes when it follows a
/// backslash, or `None` if it is not a recognized escape code.
pub open spec fn decode_escape(c: char) -> Option<char> {
    if c == '"' {
        Some('"')
    } else if c == '/' {
        Some('/')
    } else if c == '[' {
        Some('[')
    } else if c == ']' {
        Some(']')
    } else if c == '\\' {
        Some('\\')
    } else if c == 'n' {
        Some('\n')
    } else if c == 'r' {
        Some('\r')
    } else if c == 't' {
        Some('\t')
    } else if c == 'b' {
        Some('\u{8}')
    } else if c == 'f' {
        Some('\u{c}')
    } else {
        None
    }
}

/// Decode the character following a backslash.
pub fn decode_escape_char(c: char) -> (r: Option<char>)
    ensures
        r == decode_escape(c),
{
    match c {
        '"' => Some('"'),
        '/' => Some('/'),
        '[' => Some('['),
        ']' => Some(']'),
        '\\' => Some('\\'),
        'n' => Some('\n'),
        'r' => Some('\r'),
        't' => Some('\t'),
        'b' => Some('\u{8}'),
        'f' => Some('\u{c}'),
        _ => None,
    }
}

/// The length of the longest prefix of `s` holding no character of `excl`.
pub open spec fn spec_literal_len(s: Seq<char>, excl: Seq<char>) -> int
    decreases s.len(),
{
    if s.len() > 0 && !excl.contains(s[0]) {
        1 + spec_literal_len(s.skip(1), excl)
    } else {
        0
    }
}

pub proof fn lemma_literal_len_bounds(s: Seq<char>, excl: Seq<char>)
    ensures
        0 <= spec_literal_len(s, excl) <= s.len(),
        forall|i: int| 0 <= i < spec_literal_len(s, excl) ==> !excl.contains(s[i]),
        spec_literal_len(s, excl) < s.len() ==> excl.contains(s[spec_literal_len(s, excl)]),
    decreases s.len(),
{
    if s.len() > 0 && !excl.contains(s[0]) {
        lemma_literal_len_bounds(s.skip(1), excl);
        let n = spec_literal_len(s, excl);
        assert forall|i: int| 0 <= i < n implies !excl.contains(s[i]) by {
            if i >= 1 {
                assert(s[i] == s.skip(1)[i - 1]);
            }
        }
        if n < s.len() {
            assert(s[n] == s.skip(1)[n - 1]);
        }
    }
}

/// The longest prefix of `s` free of excluded characters is exactly `k` when
/// the first `k` characters are not excluded and the next one (if any) is.
pub proof fn lemma_literal_len_is(s: Seq<char>, excl: Seq<char>, k: int)
    requires
        0 <= k <= s.len(),
        forall|j: int| 0 <= j < k ==> !excl.contains(s[j]),
        k < s.len() ==> excl.contains(s[k]),
    ensures
        spec_literal_len(s, excl) == k,
    decreases s.len(),
{
    if k == 0 {
    } else {
        assert(!excl.contains(s[0]));
        assert forall|j: int| 0 <= j < k - 1 implies !excl.contains(s.skip(1)[j]) by {
            assert(s.skip(1)[j] == s[j + 1]);
        }
        if k - 1 < s.skip(1).len() {
            assert(s.skip(1)[k - 1] == s[k]);
        }
        lemma_literal_len_is(s.skip(1), excl, k - 1);
    }
}

/// The same for tag names: the longest prefix of ASCII letters.
pub open spec fn spec_name_len(s: Seq<char>) -> int
    decreases s.len(),
{
    if s.len() > 0 && is_name_char(s[0]) {
        1 + spec_name_len(s.skip(1))
    } else {
        0
    }
}

pub proof fn lemma_name_len_bounds(s: Seq<char>)
    ensures
        0 <= spec_name_len(s) <= s.len(),
        forall|i: int| 0 <= i < spec_name_len(s) ==> is_name_char(s[i]),
        spec_name_len(s) < s.len() ==> !is_name_char(s[spec_name_len(s)]),
    decreases s.len(),
{
    if s.len() > 0 && is_name_char(s[0]) {
        lemma_name_len_bounds(s.skip(1));
        let n = spec_name_len(s);
        assert forall|i: int| 0 <= i < n implies is_name_char(s[i]) by {
            if i >= 1 {
                assert(s[i] == s.skip(1)[i - 1]);
            }
        }
        if n < s.len() {
            assert(s[n] == s.skip(1)[n - 1]);
        }
    }
}

pub proof fn lemma_name_len_is(s: Seq<char>, k: int)
    requires
        0 <= k <= s.len(),
        forall|j: int| 0 <= j < k ==> is_name_char(s[j]),
        k < s.len() ==> !is_name_char(s[k]),
    ensures
        spec_name_len(s) == k,
    decreases s.len(),
{
    if k == 0 {
    } else {
        assert(is_name_char(s[0]));
        assert forall|j: int| 0 <= j < k - 1 implies is_name_char(s.skip(1)[j]) by {
            assert(s.skip(1)[j] == s[j + 1]);
        }
        if k - 1 < s.skip(1).len() {
            assert(s.skip(1)[k - 1] == s[k]);
        }
        lemma_name_len_is(s.skip(1), k - 1);
    }
}

/// One scanned fragment: the longest non-empty literal run, or, when the
/// input starts with a backslash, one decoded escape character.
pub open spec fn spec_fragment(s: Seq<char>, excl: Seq<char>) -> Option<(Seq<char>, Seq<char>)> {
    let n = spec_literal_len(s, excl);
    if n > 0 {
        Some((s.take(n), s.skip(n)))
    } else if s.len() >= 2 && s[0] == '\\' && decode_escape(s[1]) is Some {
        Some((seq![decode_escape(s[1]).unwrap()], s.skip(2)))
    } else {
        None
    }
}

pub proof fn lemma_fragment_consumes(s: Seq<char>, excl: Seq<char>)
    ensures
        spec_fragment(s, excl) matches Some((v, rem)) ==> v.len() > 0 && rem.len() < s.len(),
{
    lemma_literal_len_bounds(s, excl);
}

/// One-or-more fragments folded into a single value: literal runs verbatim,
/// escapes decoded. Fails only when not even one fragment can be scanned.
pub open spec fn spec_inner_string(s: Seq<char>, excl: Seq<char>) -> Option<(Seq<char>, Seq<char>)>
    decreases s.len(),
{
    match spec_fragment(s, excl) {
        None => None,
        Some((v, rem)) => if rem.len() < s.len() {
            match spec_inner_string(rem, excl) {
                None => Some((v, rem)),
                Some((v2, rem2)) => Some((v + v2, rem2)),
            }
        } else {
            None
        },
    }
}

pub proof fn lemma_inner_string_consumes(s: Seq<char>, excl: Seq<char>)
    ensures
        spec_inner_string(s, excl) matches Some((v, rem)) ==> v.len() > 0 && rem.len() < s.len(),
    decreases s.len(),
{
    lemma_fragment_consumes(s, excl);
    match spec_fragment(s, excl) {
        Some((v0, rem0)) => {
            if rem0.len() < s.len() {
                lemma_inner_string_consumes(rem0, excl);
            }
        },
        None => {},
    }
}

/// A text production: fragments terminated by `[`, `]` or end of input.
pub open spec fn spec_text(s: Seq<char>) -> Option<(Seq<char>, Seq<char>)> {
    spec_inner_string(s, text_excl())
}

/// A quoted parameter value: `"` + possibly empty fragment content + `"`.
pub open spec fn spec_quoted(s: Seq<char>) -> Option<(Seq<char>, Seq<char>)> {
    if s.len() > 0 && s[0] == '"' {
        let after = s.skip(1);
        match spec_inner_string(after, quoted_excl()) {
            Some((v, rem)) => if rem.len() > 0 && rem[0] == '"' {
                Some((v, rem.skip(1)))
            } else {
                None
            },
            None => if after.len() > 0 && after[0] == '"' {
                Some((Seq::empty(), after.skip(1)))
            } else {
                None
            },
        }
    } else {
        None
    }
}

/// A simple parameter value: the quoted form, else a non-empty unquoted
/// literal ended by `"`, `\`, `[`, `]` or a space.
pub open spec fn spec_param(s: Seq<char>) -> Option<(Seq<char>, Seq<char>)> {
    match spec_quoted(s) {
        Some(r) => Some(r),
        None => {
            let n = spec_literal_len(s, unquoted_excl());
            if n > 0 {
                Some((s.take(n), s.skip(n)))
            } else {
                None
            }
        },
    }
}

pub proof fn lemma_param_consumes(s: Seq<char>)
    ensures
        spec_param(s) matches Some((v, rem)) ==> rem.len() < s.len(),
{
    lemma_inner_string_consumes(s.skip(1), quoted_excl());
    lemma_literal_len_bounds(s, unquoted_excl());
}

/// An opening delimiter: `[`, a non-empty alphabetic name, an optional
/// `=` with a simple parameter, and `]`. Yields a tag without children.
pub open spec fn spec_opening_tag(s: Seq<char>) -> Option<(SpecTag, Seq<char>)> {
    if s.len() > 0 && s[0] == '[' {
        let n = spec_name_len(s.skip(1));
        if n > 0 {
            let name = s.skip(1).take(n);
            let rest = s.skip(1 + n);
            let sp_rest: (Option<Seq<char>>, Seq<char>) = if rest.len() > 0 && rest[0] == '=' {
                match spec_param(rest.skip(1)) {
                    Some((v, r)) => (Some(v), r),
                    None => (None, rest),
                }
            } else {
                (None, rest)
            };
            if sp_rest.1.len() > 0 && sp_rest.1[0] == ']' {
                Some(
                    (
                        SpecTag {
                            name: name,
                            simple_param: sp_rest.0,
                            complex_params: Seq::empty(),
                            children: Seq::empty(),
                        },
                        sp_rest.1.skip(1),
                    ),
                )
            } else {
                None
            }
        } else {
            None
        }
    } else {
        None
    }
}

pub proof fn lemma_opening_tag_consumes(s: Seq<char>)
    ensures
        spec_opening_tag(s) matches Some((t, rem)) ==> rem.len() < s.len() && t.name.len() > 0
            && t.children.len() == 0 && t.complex_params.len() == 0,
{
    if s.len() > 0 && s[0] == '[' {
        let n = spec_name_len(s.skip(1));
        lemma_name_len_bounds(s.skip(1));
        if n > 0 {
            let rest = s.skip(1 + n);
            if rest.len() > 0 && rest[0] == '=' {
                lemma_param_consumes(rest.skip(1));
            }
        }
    }
}

/// ASCII case-insensitive equality of two character sequences.
pub open spec fn seq_eq_icase(a: Seq<char>, b: Seq<char>) -> bool {
    a.len() == b.len() && (forall|i: int| 0 <= i < a.len() ==> eq_icase(a[i], b[i]))
}

/// A closing delimiter `[/name]`, the name compared case-insensitively.
pub open spec fn spec_closing_tag(s: Seq<char>, name: Seq<char>) -> Option<Seq<char>> {
    if s.len() >= 2 && s[0] == '[' && s[1] == '/' {
        let after = s.skip(2);
        if after.len() >= name.len() && seq_eq_icase(after.take(name.len() as int), name) {
            let rest = after.skip(name.len() as int);
            if rest.len() > 0 && rest[0] == ']' {
                Some(rest.skip(1))
            } else {
                None
            }
        } else {
            None
        }
    } else {
        None
    }
}

/// A whole tag: opening delimiter, child nodes, then the matching closing
/// delimiter. If the closing delimiter is absent the whole tag fails and
/// nothing is consumed.
pub open spec fn spec_tag(s: Seq<char>) -> Option<(SpecTag, Seq<char>)>
    decreases s.len(), 0int,
{
    match spec_opening_tag(s) {
        None => None,
        Some((t, rest)) => if rest.len() < s.len() {
            let (children, rest2) = spec_nodes(rest);
            match spec_closing_tag(rest2, t.name) {
                Some(rest3) => Some(
                    (
                        SpecTag {
                            name: t.name,
                            simple_param: t.simple_param,
                            complex_params: t.complex_params,
                            children: children,
                        },
                        rest3,
                    ),
                ),
                None => None,
            }
        } else {
            None
        },
    }
}

/// One node: a text production, else a tag.
pub open spec fn spec_node(s: Seq<char>) -> Option<(SpecNode, Seq<char>)>
    decreases s.len(), 1int,
{
    match spec_text(s) {
        Some((v, rem)) => Some((SpecNode::Text(v), rem)),
        None => match spec_tag(s) {
            Some((t, rem)) => Some((SpecNode::Tag(t), rem)),
            None => None,
        },
    }
}

/// Greedily parse nodes until none matches; never fails. Yields the nodes in
/// order and the unconsumed remainder.
pub open spec fn spec_nodes(s: Seq<char>) -> (Seq<SpecNode>, Seq<char>)
    decreases s.len(), 2int,
{
    match spec_node(s) {
        None => (Seq::empty(), s),
        Some((nd, rem)) => if rem.len() < s.len() {
            let (rest, rem2) = spec_nodes(rem);
            (seq![nd] + rest, rem2)
        } else {
            (Seq::empty(), s)
        },
    }
}

pub proof fn lemma_tag_consumes(s: Seq<char>)
    ensures
        spec_tag(s) matches Some((t, rem)) ==> rem.len() < s.len(),
    decreases s.len(), 0int,
{
    lemma_opening_tag_consumes(s);
    match spec_opening_tag(s) {
        Some((t, rest)) => {
            lemma_nodes_consumes(rest);
        },
        None => {},
    }
}

pub proof fn lemma_node_consumes(s: Seq<char>)
    ensures
        spec_node(s) matches Some((nd, rem)) ==> rem.len() < s.len(),
    decreases s.len(), 1int,
{
    lemma_inner_string_consumes(s, text_excl());
    lemma_tag_consumes(s);
}

pub proof fn lemma_nodes_consumes(s: Seq<char>)
    ensures
        spec_nodes(s).1.len() <= s.len(),
    decreases s.len(), 2int,
{
    lemma_node_consumes(s);
    match spec_node(s) {
        Some((nd, rem)) => {
            if rem.len() < s.len() {
                lemma_nodes_consumes(rem);
            }
        },
        None => {},
    }
}


/// One scanned unit of a text production: either a run of literal
/// characters taken from the input unchanged, or one character produced by
/// decoding an escape sequence.
#[derive(Debug, PartialEq, Eq)]
pub enum StringFragment {
    Literal(String),
    EscapedChar(char),
}

/// The characters a fragment contributes to the assembled value.
pub open spec fn frag_view(f: StringFragment) -> Seq<char> {
    match f {
        StringFragment::Literal(t) => t@,
        StringFragment::EscapedChar(c) => seq![c],
    }
}

/// Scan the longest run of characters from `pos` that holds no character of
/// `excl`; return the index just past it.
#[verifier::loop_isolation(false)]
fn scan_literal(s: &str, pos: usize, excl: &str) -> (end: usize)
    requires
        pos <= s@.len(),
    ensures
        pos <= end <= s@.len(),
        end - pos == spec_literal_len(s@.skip(pos as int), excl@),
{
    let ghost t = s@.skip(pos as int);
    let n = s.unicode_len();
    let mut end: usize = pos;
    while end < n
        invariant
            pos <= end <= n,
            forall|j: int| pos <= j < end ==> !excl@.contains(s@[j]),
        decreases n - end,
    {
        if contains_char(excl, s.get_char(end)) {
            proof {
                assert forall|j: int| 0 <= j < end - pos implies !excl@.contains(t[j]) by {
                    assert(t[j] == s@[j + pos]);
                }
                assert(t[end - pos] == s@[end as int]);
                lemma_literal_len_is(t, excl@, end - pos);
            }
            return end;
        }
        end = end + 1;
    }
    proof {
        assert forall|j: int| 0 <= j < end - pos implies !excl@.contains(t[j]) by {
            assert(t[j] == s@[j + pos]);
        }
        lemma_literal_len_is(t, excl@, end - pos);
    }
    end
}

/// Scan the longest run of tag-name characters from `pos`.
#[verifier::loop_isolation(false)]
fn scan_name(s: &str, pos: usize) -> (end: usize)
    requires
        pos <= s@.len(),
    ensures
        pos <= end <= s@.len(),
        end - pos == spec_name_len(s@.skip(pos as int)),
{
    let ghost t = s@.skip(pos as int);
    let n = s.unicode_len();
    let mut end: usize = pos;
    while end < n
        invariant
            pos <= end <= n,
            forall|j: int| pos <= j < end ==> is_name_char(s@[j]),
        decreases n - end,
    {
        if !char_is_name(s.get_char(end)) {
            proof {
                assert forall|j: int| 0 <= j < end - pos implies is_name_char(t[j]) by {
                    assert(t[j] == s@[j + pos]);
                }
                assert(t[end - pos] == s@[end as int]);
                lemma_name_len_is(t, end - pos);
            }
            return end;
        }
        end = end + 1;
    }
    proof {
        assert forall|j: int| 0 <= j < end - pos implies is_name_char(t[j]) by {
            assert(t[j] == s@[j + pos]);
        }
        lemma_name_len_is(t, end - pos);
    }
    end
}

/// Parse one escape sequence: a backslash and a recognized escape code.
pub fn parse_escaped_char(s: &str, pos: usize) -> (r: Option<(char, usize)>)
    requires
        pos <= s@.len(),
    ensures
        match r {
            Some((c, j)) => j == pos + 2 && j <= s@.len() && s@[pos as int] == '\\'
                && decode_escape(s@[pos as int + 1]) == Some(c),
            None => !(pos + 2 <= s@.len() && s@[pos as int] == '\\' && decode_escape(
                s@[pos as int + 1],
            ) is Some),
        },
{
    let n = s.unicode_len();
    if pos < n && s.get_char(pos) == '\\' {
        if pos + 1 < n {
            match decode_escape_char(s.get_char(pos + 1)) {
                Some(c) => Some((c, pos + 2)),
                None => None,
            }
        } else {
            None
        }
    } else {
        None
    }
}

/// Parse one fragment: a non-empty literal run, else one escape sequence.
pub fn parse_fragment(s: &str, pos: usize, excl: &str) -> (r: Option<(StringFragment, usize)>)
    requires
        pos <= s@.len(),
    ensures
        match r {
            Some((f, j)) => pos < j <= s@.len() && spec_fragment(s@.skip(pos as int), excl@)
                == Some((frag_view(f), s@.skip(j as int))),
            None => spec_fragment(s@.skip(pos as int), excl@) is None,
        },
{
    let ghost t = s@.skip(pos as int);
    let end = scan_literal(s, pos, excl);
    if end > pos {
        let lit = s.substring_char(pos, end);
        proof {
            let n = spec_literal_len(t, excl@);
            assert(t.take(n) =~= s@.subrange(pos as int, end as int));
            assert(t.skip(n) =~= s@.skip(end as int));
        }
        Some((StringFragment::Literal(String::from_str(lit)), end))
    } else {
        match parse_escaped_char(s, pos) {
            Some((c, j)) => {
                proof {
                    assert(t.len() >= 2);
                    assert(t[0] == s@[pos as int]);
                    assert(t[1] == s@[pos as int + 1]);
                    assert(t.skip(2) =~= s@.skip(j as int));
                    assert(frag_view(StringFragment::EscapedChar(c)) =~= seq![c]);
                }
                Some((StringFragment::EscapedChar(c), j))
            },
            None => {
                proof {
                    if t.len() >= 2 && t[0] == '\\' && decode_escape(t[1]) is Some {
                        assert(t[0] == s@[pos as int]);
                        assert(t[1] == s@[pos as int + 1]);
                        assert(pos + 2 <= s@.len());
                        assert(false);
                    }
                }
                None
            },
        }
    }
}

/// Fold one-or-more fragments into a single owned string.
pub fn parse_inner_string(s: &str, pos: usize, excl: &str) -> (r: Option<(String, usize)>)
    requires
        pos <= s@.len(),
    ensures
        match r {
            Some((v, j)) => pos < j <= s@.len() && spec_inner_string(s@.skip(pos as int), excl@)
                == Some((v@, s@.skip(j as int))),
            None => spec_inner_string(s@.skip(pos as int), excl@) is None,
        },
    decreases s@.len() - pos,
{
    let ghost t = s@.skip(pos as int);
    match parse_fragment(s, pos, excl) {
        None => None,
        Some((f, j)) => {
            let ghost fv = frag_view(f);
            proof {
                assert(s@.skip(j as int).len() < t.len());
            }
            let mut v: String = match f {
                StringFragment::Literal(lit) => lit,
                StringFragment::EscapedChar(c) => {
                    let mut z = String::new();
                    push_char(&mut z, c);
                    proof {
                        assert(z@ =~= seq![c]);
                    }
                    z
                },
            };
            proof {
                assert(v@ == fv);
            }
            match parse_inner_string(s, j, excl) {
                None => Some((v, j)),
                Some((v2, j2)) => {
                    v.append(v2.as_str());
                    Some((v, j2))
                },
            }
        },
    }
}

/// Parse a text production: fragments ended by `[`, `]` or end of input.
pub fn parse_text(s: &str, pos: usize) -> (r: Option<(String, usize)>)
    requires
        pos <= s@.len(),
    ensures
        match r {
            Some((v, j)) => pos < j <= s@.len() && spec_text(s@.skip(pos as int)) == Some(
                (v@, s@.skip(j as int)),
            ),
            None => spec_text(s@.skip(pos as int)) is None,
        },
{
    proof {
        reveal_strlit("[]\\");
        assert("[]\\"@ =~= text_excl());
    }
    parse_inner_string(s, pos, "[]\\")
}

/// Parse a quoted parameter value.
pub fn parse_quoted_string(s: &str, pos: usize) -> (r: Option<(String, usize)>)
    requires
        pos <= s@.len(),
    ensures
        match r {
            Some((v, j)) => pos < j <= s@.len() && spec_quoted(s@.skip(pos as int)) == Some(
                (v@, s@.skip(j as int)),
            ),
            None => spec_quoted(s@.skip(pos as int)) is None,
        },
{
    proof {
        reveal_strlit("\"\\");
        assert("\"\\"@ =~= quoted_excl());
    }
    let ghost t = s@.skip(pos as int);
    let n = s.unicode_len();
    if pos < n && s.get_char(pos) == '"' {
        proof {
            assert(t[0] == s@[pos as int]);
            assert(t.skip(1) =~= s@.skip(pos as int + 1));
        }
        match parse_inner_string(s, pos + 1, "\"\\") {
            Some((v, j)) => {
                if j < n && s.get_char(j) == '"' {
                    proof {
                        assert(s@.skip(j as int)[0] == s@[j as int]);
                        assert(s@.skip(j as int).skip(1) =~= s@.skip(j as int + 1));
                    }
                    Some((v, j + 1))
                } else {
                    proof {
                        if s@.skip(j as int).len() > 0 {
                            assert(s@.skip(j as int)[0] == s@[j as int]);
                        }
                    }
                    None
                }
            },
            None => {
                if pos + 1 < n && s.get_char(pos + 1) == '"' {
                    proof {
                        assert(t.skip(1)[0] == s@[pos as int + 1]);
                        assert(t.skip(1).skip(1) =~= s@.skip(pos as int + 2));
                        assert(Seq::<char>::empty() =~= Seq::<char>::empty());
                    }
                    let v = String::new();
                    Some((v, pos + 2))
                } else {
                    proof {
                        if t.skip(1).len() > 0 {
                            assert(t.skip(1)[0] == s@[pos as int + 1]);
                        }
                    }
                    None
                }
            },
        }
    } else {
        proof {
            if t.len() > 0 {
                assert(t[0] == s@[pos as int]);
            }
        }
        None
    }
}

/// Parse a simple parameter value: quoted, else unquoted.
pub fn parse_param(s: &str, pos: usize) -> (r: Option<(String, usize)>)
    requires
        pos <= s@.len(),
    ensures
        match r {
            Some((v, j)) => pos < j <= s@.len() && spec_param(s@.skip(pos as int)) == Some(
                (v@, s@.skip(j as int)),
            ),
            None => spec_param(s@.skip(pos as int)) is None,
        },
{
    let ghost t = s@.skip(pos as int);
    match parse_quoted_string(s, pos) {
        Some((v, j)) => Some((v, j)),
        None => {
            proof {
                reveal_strlit("\"\\[] ");
                assert("\"\\[] "@ =~= unquoted_excl());
            }
            let end = scan_literal(s, pos, "\"\\[] ");
            if end > pos {
                let lit = s.substring_char(pos, end);
                proof {
                    let n = spec_literal_len(t, unquoted_excl());
                    assert(t.take(n) =~= s@.subrange(pos as int, end as int));
                    assert(t.skip(n) =~= s@.skip(end as int));
                }
                Some((String::from_str(lit), end))
            } else {
                None
            }
        },
    }
}


/// Parse an opening delimiter `[name]` or `[name=param]`.
pub fn parse_opening_tag(s: &str, pos: usize) -> (r: Option<(BbcodeTag, usize)>)
    requires
        pos <= s@.len(),
    ensures
        match r {
            Some((tag, j)) => pos < j <= s@.len() && spec_opening_tag(s@.skip(pos as int)) == Some(
                (tag@, s@.skip(j as int)),
            ),
            None => spec_opening_tag(s@.skip(pos as int)) is None,
        },
{
    let ghost t = s@.skip(pos as int);
    let n = s.unicode_len();
    if !(pos < n && s.get_char(pos) == '[') {
        proof {
            if t.len() > 0 {
                assert(t[0] == s@[pos as int]);
            }
        }
        return None;
    }
    proof {
        assert(t[0] == s@[pos as int]);
        assert(t.skip(1) =~= s@.skip(pos as int + 1));
    }
    let name_end = scan_name(s, pos + 1);
    if name_end == pos + 1 {
        return None;
    }
    let ghost nlen = spec_name_len(t.skip(1));
    let name = s.substring_char(pos + 1, name_end);
    proof {
        assert(name@ =~= t.skip(1).take(nlen));
        assert(t.skip(1 + nlen) =~= s@.skip(name_end as int));
    }
    let mut tag = BbcodeTag::new(name);
    let mut cur: usize = name_end;
    let ghost mut sp: Option<Seq<char>> = None;
    let ghost rest = t.skip(1 + nlen);
    if cur < n && s.get_char(cur) == '=' {
        proof {
            assert(rest[0] == s@[name_end as int]);
            assert(rest.skip(1) =~= s@.skip(name_end as int + 1));
        }
        match parse_param(s, cur + 1) {
            Some((v, r2)) => {
                tag.add_simple_param(v.as_str());
                cur = r2;
                proof {
                    sp = Some(v@);
                }
            },
            None => {},
        }
    } else {
        proof {
            if rest.len() > 0 {
                assert(rest[0] == s@[name_end as int]);
            }
        }
    }
    let ghost sp_rest = s@.skip(cur as int);
    proof {
        assert(sp_rest.len() == n - cur);
    }
    if cur < n && s.get_char(cur) == ']' {
        proof {
            assert(sp_rest[0] == s@[cur as int]);
            assert(sp_rest.skip(1) =~= s@.skip(cur as int + 1));
        }
        Some((tag, cur + 1))
    } else {
        proof {
            if sp_rest.len() > 0 {
                assert(sp_rest[0] == s@[cur as int]);
            }
        }
        None
    }
}

/// Parse a closing delimiter `[/name]`, matching `name` case-insensitively.
#[verifier::loop_isolation(false)]
pub fn parse_closing_tag(s: &str, pos: usize, name: &str) -> (r: Option<usize>)
    requires
        pos <= s@.len(),
    ensures
        match r {
            Some(j) => pos < j <= s@.len() && spec_closing_tag(s@.skip(pos as int), name@) == Some(
                s@.skip(j as int),
            ),
            None => spec_closing_tag(s@.skip(pos as int), name@) is None,
        },
{
    let ghost t = s@.skip(pos as int);
    let n = s.unicode_len();
    if n - pos < 2 {
        return None;
    }
    if !(s.get_char(pos) == '[' && s.get_char(pos + 1) == '/') {
        proof {
            assert(t[0] == s@[pos as int]);
            assert(t[1] == s@[pos as int + 1]);
        }
        return None;
    }
    proof {
        assert(t[0] == s@[pos as int]);
        assert(t[1] == s@[pos as int + 1]);
        assert(t.skip(2) =~= s@.skip(pos as int + 2));
    }
    let m = name.unicode_len();
    let base = pos + 2;
    if n - base < m {
        return None;
    }
    let ghost after = t.skip(2);
    let mut i: usize = 0;
    while i < m
        invariant
            0 <= i <= m,
            forall|k: int| 0 <= k < i ==> eq_icase(s@[base + k], name@[k]),
        decreases m - i,
    {
        if !char_eq_icase(s.get_char(base + i), name.get_char(i)) {
            proof {
                assert(after.take(m as int)[i as int] == s@[base + i]);
                assert(!seq_eq_icase(after.take(m as int), name@));
            }
            return None;
        }
        i = i + 1;
    }
    proof {
        assert forall|k: int| 0 <= k < m implies eq_icase(
            after.take(m as int)[k],
            name@[k],
        ) by {
            assert(after.take(m as int)[k] == s@[base + k]);
        }
        assert(seq_eq_icase(after.take(m as int), name@));
    }
    let close = base + m;
    let ghost rest = after.skip(m as int);
    proof {
        assert(rest =~= s@.skip(close as int));
    }
    if close < n && s.get_char(close) == ']' {
        proof {
            assert(rest[0] == s@[close as int]);
            assert(rest.skip(1) =~= s@.skip(close as int + 1));
        }
        Some(close + 1)
    } else {
        proof {
            if rest.len() > 0 {
                assert(rest[0] == s@[close as int]);
            }
        }
        None
    }
}

/// Parse a whole tag: opening delimiter, children, matching closing
/// delimiter.
pub fn parse_tag(s: &str, pos: usize) -> (r: Option<(BbcodeTag, usize)>)
    requires
        pos <= s@.len(),
    ensures
        match r {
            Some((tag, j)) => pos < j <= s@.len() && spec_tag(s@.skip(pos as int)) == Some(
                (tag@, s@.skip(j as int)),
            ),
            None => spec_tag(s@.skip(pos as int)) is None,
        },
    decreases s@.len() - pos, 0int,
{
    let ghost t = s@.skip(pos as int);
    match parse_opening_tag(s, pos) {
        None => None,
        Some((mut tag, j)) => {
            let ghost otag = tag@;
            proof {
                assert(s@.skip(j as int).len() < t.len());
            }
            let (children, j2) = parse_nodes(s, j);
            match parse_closing_tag(s, j2, tag.name.as_str()) {
                None => None,
                Some(j3) => {
                    tag.children = children;
                    proof {
                        assert(tag@ == (SpecTag {
                            name: otag.name,
                            simple_param: otag.simple_param,
                            complex_params: otag.complex_params,
                            children: nodes_view(tag.children@),
                        }));
                    }
                    Some((tag, j3))
                },
            }
        },
    }
}

/// Parse one node: a text leaf, else a tag.
pub fn parse_node(s: &str, pos: usize) -> (r: Option<(BbcodeNode, usize)>)
    requires
        pos <= s@.len(),
    ensures
        match r {
            Some((nd, j)) => pos < j <= s@.len() && spec_node(s@.skip(pos as int)) == Some(
                (nd@, s@.skip(j as int)),
            ),
            None => spec_node(s@.skip(pos as int)) is None,
        },
    decreases s@.len() - pos, 1int,
{
    match parse_text(s, pos) {
        Some((v, j)) => Some((BbcodeNode::Text(v), j)),
        None => match parse_tag(s, pos) {
            Some((tag, j)) => Some((BbcodeNode::Tag(tag), j)),
            None => None,
        },
    }
}

/// Parse nodes greedily until none matches; never fails.
pub fn parse_nodes(s: &str, pos: usize) -> (r: (Vec<BbcodeNode>, usize))
    requires
        pos <= s@.len(),
    ensures
        pos <= r.1 <= s@.len(),
        spec_nodes(s@.skip(pos as int)) == (nodes_view(r.0@), s@.skip(r.1 as int)),
    decreases s@.len() - pos, 2int,
{
    let ghost t = s@.skip(pos as int);
    match parse_node(s, pos) {
        None => {
            let empty: Vec<BbcodeNode> = Vec::new();
            proof {
                assert(nodes_view(empty@) =~= Seq::<SpecNode>::empty());
            }
            (empty, pos)
        },
        Some((nd, j)) => {
            let ghost ndc = nd;
            proof {
                assert(s@.skip(j as int).len() < t.len());
            }
            let (mut rest, j2) = parse_nodes(s, j);
            let ghost restv = rest@;
            rest.insert(0, nd);
            proof {
                assert(rest@ =~= seq![ndc] + restv);
                let full = seq![ndc] + restv;
                assert(full[0] == ndc);
                assert(full.skip(1) =~= restv);
                assert(nodes_view(full) == seq![node_view(ndc)] + nodes_view(restv));
            }
            (rest, j2)
        },
    }
}

/// Parse a whole document. Yields the unconsumed remainder and the nodes of
/// the longest valid prefix; a non-empty remainder means the input is
/// malformed. Never fails and never panics.
pub fn parse_bbcode(input: &str) -> (r: (String, Vec<BbcodeNode>))
    ensures
        spec_nodes(input@) == (nodes_view(r.1@), r.0@),
{
    proof {
        assert(input@.skip(0) =~= input@);
    }
    let (nodes, end) = parse_nodes(input, 0);
    let n = input.unicode_len();
    let rem = input.substring_char(end, n);
    proof {
        assert(rem@ =~= input@.skip(end as int));
    }
    (String::from_str(rem), nodes)
}

} // verus!
