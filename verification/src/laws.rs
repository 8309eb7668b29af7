//! Global properties of the grammar, proved once over the spec functions:
//! plain text parses to a single text node, and canonical trees survive a
//! serialize/parse round trip.

use vstd::prelude::*;

use crate::chars::eq_icase;
use crate::chars::is_name_char;
use crate::parser::spec_closing_tag;
use crate::parser::spec_fragment;
use crate::parser::spec_inner_string;
use crate::parser::spec_literal_len;
use crate::parser::spec_name_len;
use crate::parser::spec_node;
use crate::parser::spec_nodes;
use crate::parser::spec_opening_tag;
use crate::parser::spec_tag;
use crate::parser::spec_text;
use crate::parser::lemma_literal_len_is;
use crate::parser::lemma_name_len_is;
use crate::parser::seq_eq_icase;
use crate::parser::text_excl;
use crate::tree::SpecNode;
use crate::tree::SpecTag;
use crate::tree::spec_serialize_node;
use crate::tree::spec_serialize_params;
use crate::tree::spec_serialize_nodes;
use crate::tree::spec_serialize_tag;

verus! {

/// A character ends a literal text run exactly when it is `[`, `]` or `\`.
pub proof fn lemma_text_excl_contains(c: char)
    ensures
        text_excl().contains(c) <==> (c == '[' || c == ']' || c == '\\'),
{
    if c == '[' || c == ']' || c == '\\' {
        assert(text_excl()[0] == '[');
        assert(text_excl()[1] == ']');
        assert(text_excl()[2] == '\\');
        if c == '[' {
            assert(text_excl().contains(c)) by {
                assert(text_excl()[0] == c);
            }
        } else if c == ']' {
            assert(text_excl().contains(c)) by {
                assert(text_excl()[1] == c);
            }
        } else {
            assert(text_excl().contains(c)) by {
                assert(text_excl()[2] == c);
            }
        }
    } else {
        if text_excl().contains(c) {
            let i = choose|i: int| 0 <= i < text_excl().len() && text_excl()[i] == c;
            assert(i == 0 || i == 1 || i == 2);
            assert(false);
        }
    }
}

/// Nothing parses from an empty input.
pub proof fn lemma_empty_input()
    ensures
        spec_node(Seq::<char>::empty()) is None,
        spec_nodes(Seq::<char>::empty()) == (Seq::<SpecNode>::empty(), Seq::<char>::empty()),
{
    let e = Seq::<char>::empty();
    assert(spec_literal_len(e, text_excl()) == 0);
    assert(spec_fragment(e, text_excl()) is None);
    assert(spec_inner_string(e, text_excl()) is None);
    assert(spec_text(e) is None);
    assert(spec_opening_tag(e) is None);
    assert(spec_tag(e) is None);
    assert(spec_node(e) is None);
}

/// For every non-empty input that holds none of `[`, `]`, `\`, parsing
/// yields exactly one text node carrying the input unchanged, and an empty
/// remainder.
pub proof fn lemma_parse_plain_text(s: Seq<char>)
    requires
        s.len() > 0,
        forall|i: int| 0 <= i < s.len() ==> s[i] != '[' && s[i] != ']' && s[i] != '\\',
    ensures
        spec_nodes(s) == (seq![SpecNode::Text(s)], Seq::<char>::empty()),
{
    let e = Seq::<char>::empty();
    assert forall|j: int| 0 <= j < s.len() implies !text_excl().contains(s[j]) by {
        lemma_text_excl_contains(s[j]);
    }
    lemma_literal_len_is(s, text_excl(), s.len() as int);
    assert(s.take(s.len() as int) =~= s);
    assert(s.skip(s.len() as int) =~= e);
    assert(spec_fragment(s, text_excl()) == Some((s, e)));
    assert(spec_literal_len(e, text_excl()) == 0);
    assert(spec_fragment(e, text_excl()) is None);
    assert(spec_inner_string(e, text_excl()) is None);
    assert(spec_inner_string(s, text_excl()) == Some((s, e)));
    assert(spec_text(s) == Some((s, e)));
    assert(spec_node(s) == Some((SpecNode::Text(s), e)));
    lemma_empty_input();
    assert(spec_nodes(s) == (seq![SpecNode::Text(s)] + Seq::<SpecNode>::empty(), e));
    assert(seq![SpecNode::Text(s)] + Seq::<SpecNode>::empty() =~= seq![SpecNode::Text(s)]);
}


/// A tree in the serializer's canonical image: non-empty alphabetic names,
/// non-empty text leaves free of `[`, `]` and `\`, no parameters, and no
/// two adjacent text leaves.
pub open spec fn canonical_node(n: SpecNode) -> bool
    decreases n,
{
    match n {
        SpecNode::Text(t) => t.len() > 0 && (forall|i: int|
            0 <= i < t.len() ==> t[i] != '[' && t[i] != ']' && t[i] != '\\'),
        SpecNode::Tag(t) => t.name.len() > 0 && (forall|i: int|
            0 <= i < t.name.len() ==> is_name_char(t.name[i])) && t.simple_param is None
            && t.complex_params.len() == 0 && canonical_nodes(t.children),
    }
}

/// Every node canonical, and no text leaf directly follows another.
pub open spec fn canonical_nodes(ns: Seq<SpecNode>) -> bool
    decreases ns,
{
    if ns.len() == 0 {
        true
    } else {
        canonical_node(ns[0]) && canonical_nodes(ns.skip(1)) && !(ns[0] is Text && ns.len() > 1
            && ns[1] is Text)
    }
}

/// A non-empty escape-free text leaf followed by `[`, `]` or the end of the
/// input parses back as exactly that leaf.
pub proof fn lemma_parse_text_node(t: Seq<char>, rest: Seq<char>)
    requires
        t.len() > 0,
        forall|i: int| 0 <= i < t.len() ==> t[i] != '[' && t[i] != ']' && t[i] != '\\',
        rest.len() == 0 || rest[0] == '[' || rest[0] == ']',
    ensures
        spec_node(t + rest) == Some((SpecNode::Text(t), rest)),
{
    let s = t + rest;
    assert forall|j: int| 0 <= j < t.len() implies !text_excl().contains(s[j]) by {
        assert(s[j] == t[j]);
        lemma_text_excl_contains(s[j]);
    }
    if t.len() < s.len() {
        assert(s[t.len() as int] == rest[0]);
        lemma_text_excl_contains(rest[0]);
    }
    lemma_literal_len_is(s, text_excl(), t.len() as int);
    assert(s.take(t.len() as int) =~= t);
    assert(s.skip(t.len() as int) =~= rest);
    assert(spec_fragment(s, text_excl()) == Some((t, rest)));
    if rest.len() > 0 {
        lemma_text_excl_contains(rest[0]);
        assert(spec_literal_len(rest, text_excl()) == 0);
        assert(rest[0] != '\\');
    }
    assert(spec_fragment(rest, text_excl()) is None);
    assert(spec_inner_string(rest, text_excl()) is None);
    assert(spec_inner_string(s, text_excl()) == Some((t, rest)));
    assert(spec_node(s) == Some((SpecNode::Text(t), rest)));
}

/// A canonical tag followed by anything parses back as exactly that tag,
/// consuming exactly its own rendering.
pub proof fn lemma_parse_tag_node(t: SpecTag, rest: Seq<char>)
    requires
        canonical_node(SpecNode::Tag(t)),
    ensures
        spec_node(spec_serialize_tag(t) + rest) == Some((SpecNode::Tag(t), rest)),
    decreases t,
{
    let nm = t.name;
    let body = spec_serialize_nodes(t.children);
    let close = seq!['[', '/'] + nm + seq![']'];
    let u = close + rest;
    let v = body + u;
    let w = seq![']'] + v;
    let s = seq!['['] + nm + w;
    assert(spec_serialize_params(t.complex_params) =~= Seq::<char>::empty());
    assert(s =~= spec_serialize_tag(t) + rest);

    // The opening delimiter.
    assert(s[0] == '[');
    assert(s.skip(1) =~= nm + w);
    assert forall|j: int| 0 <= j < nm.len() implies is_name_char((nm + w)[j]) by {
        assert((nm + w)[j] == nm[j]);
    }
    assert((nm + w)[nm.len() as int] == w[0]);
    assert(w[0] == ']');
    lemma_name_len_is(nm + w, nm.len() as int);
    assert(s.skip(1).take(nm.len() as int) =~= nm);
    assert(s.skip(1 + nm.len() as int) =~= w);
    assert(w.skip(1) =~= v);
    let otag = SpecTag {
        name: nm,
        simple_param: None,
        complex_params: Seq::empty(),
        children: Seq::empty(),
    };
    assert(spec_opening_tag(s) == Some((otag, v)));

    // The children, up to the closing delimiter.
    assert(u[0] == '[');
    assert(u[1] == '/');
    assert(spec_text(u) is None) by {
        lemma_text_excl_contains('[');
        assert(spec_literal_len(u, text_excl()) == 0);
        assert(spec_fragment(u, text_excl()) is None);
    }
    assert(spec_tag(u) is None) by {
        assert(u.skip(1)[0] == '/');
        assert(!is_name_char('/'));
        assert(spec_name_len(u.skip(1)) == 0);
        assert(spec_opening_tag(u) is None);
    }
    assert(spec_node(u) is None);
    lemma_parse_serialized_nodes(t.children, u);
    assert(spec_nodes(v) == (t.children, u));

    // The closing delimiter.
    assert(u.skip(2) =~= nm + (seq![']'] + rest));
    assert forall|k: int| 0 <= k < nm.len() implies eq_icase(
        u.skip(2).take(nm.len() as int)[k],
        nm[k],
    ) by {
        assert(u.skip(2).take(nm.len() as int)[k] == nm[k]);
    }
    assert(seq_eq_icase(u.skip(2).take(nm.len() as int), nm));
    assert(u.skip(2).skip(nm.len() as int) =~= seq![']'] + rest);
    assert((seq![']'] + rest)[0] == ']');
    assert((seq![']'] + rest).skip(1) =~= rest);
    assert(spec_closing_tag(u, nm) == Some(rest));

    // The whole tag.
    assert(v.len() < s.len());
    assert(t.complex_params =~= Seq::<(Seq<char>, Seq<char>)>::empty());
    assert(t == (SpecTag {
        name: nm,
        simple_param: None,
        complex_params: Seq::empty(),
        children: t.children,
    }));
    assert(spec_tag(s) == Some((t, rest)));

    // Text cannot match at the opening bracket, so the node is the tag.
    assert(spec_text(s) is None) by {
        lemma_text_excl_contains('[');
        assert(spec_literal_len(s, text_excl()) == 0);
        assert(spec_fragment(s, text_excl()) is None);
    }
    assert(spec_node(s) == Some((SpecNode::Tag(t), rest)));
}

/// A canonical node sequence followed by a continuation on which no node
/// parses (and which cannot extend a text run) parses back as exactly those
/// nodes with the continuation as remainder.
pub proof fn lemma_parse_serialized_nodes(ns: Seq<SpecNode>, u: Seq<char>)
    requires
        canonical_nodes(ns),
        spec_node(u) is None,
        u.len() == 0 || u[0] == '[' || u[0] == ']',
    ensures
        spec_nodes(spec_serialize_nodes(ns) + u) == (ns, u),
    decreases ns,
{
    if ns.len() == 0 {
        assert(spec_serialize_nodes(ns) + u =~= u);
        assert(spec_nodes(u) == (Seq::<SpecNode>::empty(), u));
        assert(ns =~= Seq::<SpecNode>::empty());
    } else {
        let n0 = ns[0];
        let tail = ns.skip(1);
        let cont = spec_serialize_nodes(tail) + u;
        let s = spec_serialize_node(n0) + cont;
        assert(s =~= spec_serialize_nodes(ns) + u);
        assert(canonical_node(n0));
        match n0 {
            SpecNode::Text(txt) => {
                if tail.len() > 0 {
                    assert(tail[0] == ns[1]);
                    assert(ns[1] is Tag);
                    let tg = tail[0]->Tag_0;
                    assert(spec_serialize_node(tail[0]) == spec_serialize_tag(tg));
                    assert(spec_serialize_tag(tg)[0] == '[');
                    assert(spec_serialize_nodes(tail)[0] == '[');
                    assert(cont[0] == '[');
                } else {
                    assert(spec_serialize_nodes(tail) =~= Seq::<char>::empty());
                    assert(cont =~= u);
                }
                lemma_parse_text_node(txt, cont);
            },
            SpecNode::Tag(tg) => {
                lemma_parse_tag_node(tg, cont);
            },
        }
        assert(spec_node(s) == Some((n0, cont)));
        assert(spec_serialize_node(n0).len() > 0) by {
            match n0 {
                SpecNode::Text(txt) => {},
                SpecNode::Tag(tg) => {
                    assert(spec_serialize_tag(tg).len() > 0);
                },
            }
        }
        assert(cont.len() < s.len());
        lemma_parse_serialized_nodes(tail, u);
        assert(spec_nodes(cont) == (tail, u));
        assert(spec_nodes(s) == (seq![n0] + tail, u));
        assert(seq![n0] + tail =~= ns);
    }
}

/// Round trip: rendering a canonical tree and parsing the rendering back
/// yields the same tree with an empty remainder; hence serializing what was
/// parsed reproduces the rendered input exactly.
pub proof fn lemma_round_trip(ns: Seq<SpecNode>)
    requires
        canonical_nodes(ns),
    ensures
        spec_nodes(spec_serialize_nodes(ns)) == (ns, Seq::<char>::empty()),
        spec_serialize_nodes(spec_nodes(spec_serialize_nodes(ns)).0) == spec_serialize_nodes(ns),
{
    lemma_empty_input();
    lemma_parse_serialized_nodes(ns, Seq::<char>::empty());
    assert(spec_serialize_nodes(ns) + Seq::<char>::empty() =~= spec_serialize_nodes(ns));
}

} // verus!
