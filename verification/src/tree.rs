//! The node tree produced by the parser: tags with a name, optional
//! parameters and ordered children, and non-empty text leaves; and the
//! serializer that renders a tree back to markup.

use vstd::prelude::*;

use crate::chars::contains_char;
use crate::chars::str_eq;

verus! {

/// Mathematical model of a node: either a matched tag or a text leaf.
pub ghost enum SpecNode {
    Tag(SpecTag),
    Text(Seq<char>),
}

/// Mathematical model of a tag.
pub ghost struct SpecTag {
    /// The tag's name, in the case the opening delimiter wrote it.
    pub name: Seq<char>,
    /// The `=value` attached directly to the name, if present.
    pub simple_param: Option<Seq<char>>,
    /// Named `key=value` parameters, in insertion order, keys unique.
    pub complex_params: Seq<(Seq<char>, Seq<char>)>,
    /// The child nodes, in source order.
    pub children: Seq<SpecNode>,
}

/// One node of a parsed tree.
#[derive(Debug, PartialEq, Eq)]
pub enum BbcodeNode {
    Tag(BbcodeTag),
    Text(String),
}

/// A matched `[name]...[/name]` pair with its parameters and children.
#[derive(Debug, PartialEq, Eq)]
pub struct BbcodeTag {
    /// The name of the tag, e.g. `tag` for `[tag]something[/tag]`.
    pub name: String,
    /// A simple parameter for the tag, e.g. `value` for `[tag=value]something[/tag]`.
    pub simple_param: Option<String>,
    /// Complex parameters, e.g. `key` -> `xxx` for `[tag key=xxx]something[/tag]`.
    pub complex_params: Vec<(String, String)>,
    /// The child nodes (or text) contained inside this node.
    pub children: Vec<BbcodeNode>,
}

pub open spec fn node_view(n: BbcodeNode) -> SpecNode
    decreases n,
{
    match n {
        BbcodeNode::Text(s) => SpecNode::Text(s@),
        BbcodeNode::Tag(t) => SpecNode::Tag(tag_view(t)),
    }
}

pub open spec fn tag_view(t: BbcodeTag) -> SpecTag
    decreases t,
{
    SpecTag {
        name: t.name@,
        simple_param: match t.simple_param {
            Some(p) => Some(p@),
            None => None,
        },
        complex_params: Seq::new(
            t.complex_params@.len(),
            |i: int| (t.complex_params@[i].0@, t.complex_params@[i].1@),
        ),
        children: nodes_view(t.children@),
    }
}

pub open spec fn nodes_view(ns: Seq<BbcodeNode>) -> Seq<SpecNode>
    decreases ns,
{
    if ns.len() == 0 {
        Seq::empty()
    } else {
        seq![node_view(ns[0])] + nodes_view(ns.skip(1))
    }
}

pub broadcast proof fn lemma_nodes_view_len(ns: Seq<BbcodeNode>)
    ensures
        (#[trigger] nodes_view(ns)).len() == ns.len(),
    decreases ns.len(),
{
    if ns.len() > 0 {
        lemma_nodes_view_len(ns.skip(1));
    }
}

pub broadcast proof fn lemma_nodes_view_index(ns: Seq<BbcodeNode>, i: int)
    ensures
        0 <= i < ns.len() ==> (#[trigger] nodes_view(ns)[i]) == node_view(ns[i]),
    decreases ns.len(),
{
    lemma_nodes_view_len(ns);
    if 0 < i < ns.len() {
        lemma_nodes_view_index(ns.skip(1), i - 1);
    }
}

pub broadcast proof fn lemma_nodes_view_push(ns: Seq<BbcodeNode>, n: BbcodeNode)
    ensures
        #[trigger] nodes_view(ns.push(n)) == nodes_view(ns).push(node_view(n)),
{
    lemma_nodes_view_len(ns);
    lemma_nodes_view_len(ns.push(n));
    assert forall|i: int| 0 <= i < ns.len() + 1 implies nodes_view(ns.push(n))[i] == nodes_view(
        ns,
    ).push(node_view(n))[i] by {
        lemma_nodes_view_index(ns.push(n), i);
        if i < ns.len() {
            lemma_nodes_view_index(ns, i);
            assert(ns.push(n)[i] == ns[i]);
        }
    }
    assert(nodes_view(ns.push(n)) =~= nodes_view(ns).push(node_view(n)));
}

impl View for BbcodeNode {
    type V = SpecNode;

    open spec fn view(&self) -> SpecNode {
        node_view(*self)
    }
}

impl View for BbcodeTag {
    type V = SpecTag;

    open spec fn view(&self) -> SpecTag {
        tag_view(*self)
    }
}

/// The index of the first parameter with key `k`, or `-1` if `k` is absent.
pub open spec fn param_key_index(ps: Seq<(Seq<char>, Seq<char>)>, k: Seq<char>) -> int
    decreases ps.len(),
{
    if ps.len() == 0 {
        -1
    } else if ps[0].0 == k {
        0
    } else {
        let r = param_key_index(ps.skip(1), k);
        if r < 0 {
            -1
        } else {
            1 + r
        }
    }
}

pub proof fn lemma_param_key_index(ps: Seq<(Seq<char>, Seq<char>)>, k: Seq<char>)
    ensures
        param_key_index(ps, k) >= 0 ==> 0 <= param_key_index(ps, k) < ps.len() && ps[param_key_index(
            ps,
            k,
        )].0 == k && (forall|j: int| 0 <= j < param_key_index(ps, k) ==> ps[j].0 != k),
        param_key_index(ps, k) < 0 ==> (forall|j: int| 0 <= j < ps.len() ==> ps[j].0 != k),
    decreases ps.len(),
{
    if ps.len() > 0 && ps[0].0 != k {
        lemma_param_key_index(ps.skip(1), k);
        let r = param_key_index(ps.skip(1), k);
        if r >= 0 {
            assert(param_key_index(ps, k) == 1 + r);
            assert(ps[1 + r] == ps.skip(1)[r]);
            assert forall|j: int| 0 <= j < 1 + r implies ps[j].0 != k by {
                if j >= 1 {
                    assert(ps[j] == ps.skip(1)[j - 1]);
                }
            }
        } else {
            assert(param_key_index(ps, k) == -1);
            assert forall|j: int| 0 <= j < ps.len() implies ps[j].0 != k by {
                if j >= 1 {
                    assert(ps[j] == ps.skip(1)[j - 1]);
                }
            }
        }
    }
}

impl BbcodeTag {
    /// Create a new, empty tag.
    pub fn new(name: &str) -> (r: Self)
        ensures
            r@ == (SpecTag {
                name: name@,
                simple_param: None,
                complex_params: Seq::empty(),
                children: Seq::empty(),
            }),
    {
        let r = Self {
            name: String::from_str(name),
            simple_param: None,
            complex_params: Vec::new(),
            children: Vec::new(),
        };
        proof {
            assert(r@.complex_params =~= Seq::<(Seq<char>, Seq<char>)>::empty());
            assert(r@.children =~= Seq::<SpecNode>::empty());
        }
        r
    }

    /// Add a simple parameter to the tag.
    pub fn with_simple_param(self, tag_param: &str) -> (r: Self)
        ensures
            r@ == (SpecTag { simple_param: Some(tag_param@), ..self@ }),
    {
        Self { simple_param: Some(String::from_str(tag_param)), ..self }
    }

    /// Add a simple parameter to the tag.
    pub fn add_simple_param(&mut self, tag_param: &str)
        ensures
            final(self)@ == (SpecTag { simple_param: Some(tag_param@), ..old(self)@ }),
    {
        self.simple_param = Some(String::from_str(tag_param));
    }

    /// Add a key/value parameter: replace the value of an existing key, or
    /// append a new pair, so that keys stay unique.
    #[verifier::loop_isolation(false)]
    pub fn with_param(self, key: &str, value: &str) -> (r: Self)
        ensures
            r@ == (SpecTag {
                complex_params: (if param_key_index(self@.complex_params, key@) >= 0 {
                    self@.complex_params.update(
                        param_key_index(self@.complex_params, key@),
                        (key@, value@),
                    )
                } else {
                    self@.complex_params.push((key@, value@))
                }),
                ..self@
            }),
    {
        let ghost orig = self@;
        let ghost ps = self@.complex_params;
        let mut r = self;
        let n = r.complex_params.len();
        let mut i: usize = 0;
        while i < n
            invariant
                0 <= i <= n,
                n == r.complex_params.len(),
                r@ == orig,
                ps == orig.complex_params,
                forall|j: int| 0 <= j < i ==> ps[j].0 != key@,
            decreases n - i,
        {
            if str_eq(r.complex_params[i].0.as_str(), key) {
                proof {
                    lemma_param_key_index(ps, key@);
                    assert(ps[i as int].0 == key@);
                    let idx = param_key_index(ps, key@);
                    if idx < 0 {
                        assert(ps[i as int].0 != key@);
                    } else if idx < i as int {
                        assert(ps[idx].0 != key@);
                    } else if idx > i as int {
                        assert(ps[i as int].0 != key@);
                    }
                    assert(param_key_index(ps, key@) == i as int);
                }
                r.complex_params.remove(i);
                r.complex_params.insert(i, (String::from_str(key), String::from_str(value)));
                proof {
                    assert(r@.complex_params =~= ps.update(i as int, (key@, value@)));
                    assert(r@ == (SpecTag {
                        complex_params: ps.update(i as int, (key@, value@)),
                        ..orig
                    }));
                }
                return r;
            }
            i = i + 1;
        }
        proof {
            lemma_param_key_index(ps, key@);
            let idx = param_key_index(ps, key@);
            if idx >= 0 {
                assert(ps[idx].0 == key@);
                assert(ps[idx].0 != key@);
            }
        }
        r.complex_params.push((String::from_str(key), String::from_str(value)));
        proof {
            assert(r@.complex_params =~= ps.push((key@, value@)));
        }
        r
    }

    /// Add a nested tag inside this one.
    pub fn with_tag(self, tag: BbcodeTag) -> (r: Self)
        ensures
            r@ == (SpecTag { children: self@.children.push(SpecNode::Tag(tag@)), ..self@ }),
    {
        proof {
            lemma_nodes_view_push(self.children@, BbcodeNode::Tag(tag));
        }
        let mut r = self;
        r.children.push(BbcodeNode::Tag(tag));
        r
    }

    /// Add text inside of the node.
    pub fn with_text(self, text: &str) -> (r: Self)
        ensures
            r@ == (SpecTag { children: self@.children.push(SpecNode::Text(text@)), ..self@ }),
    {
        let node = BbcodeNode::Text(String::from_str(text));
        proof {
            lemma_nodes_view_push(self.children@, node);
        }
        let mut r = self;
        r.children.push(node);
        r
    }

    /// The name of this tag.
    pub fn name(&self) -> (r: &str)
        ensures
            r@ == self@.name,
    {
        self.name.as_str()
    }

    /// The child nodes of this tag.
    pub fn children(&self) -> (r: &Vec<BbcodeNode>)
        ensures
            nodes_view(r@) == self@.children,
    {
        &self.children
    }

    /// If it exists, the simple tag parameter of this tag.
    pub fn simple_param(&self) -> (r: &Option<String>)
        ensures
            match r {
                Some(p) => self@.simple_param == Some(p@),
                None => self@.simple_param is None,
            },
    {
        &self.simple_param
    }
}


/// A parameter value as the serializer writes it: wrapped in quotes only if
/// it contains a space.
pub open spec fn spec_quote_param(p: Seq<char>) -> Seq<char> {
    if p.contains(' ') {
        seq!['"'] + p + seq!['"']
    } else {
        p
    }
}

/// The ` key=value` rendering of the named parameters, in order.
pub open spec fn spec_serialize_params(ps: Seq<(Seq<char>, Seq<char>)>) -> Seq<char>
    decreases ps.len(),
{
    if ps.len() == 0 {
        Seq::empty()
    } else {
        seq![' '] + ps[0].0 + seq!['='] + spec_quote_param(ps[0].1) + spec_serialize_params(
            ps.skip(1),
        )
    }
}

/// The markup text a node renders to. Text leaves render verbatim: reserved
/// characters and characters that were written as escapes are not re-escaped,
/// so rendering is not injective on trees whose text contains them.
pub open spec fn spec_serialize_node(n: SpecNode) -> Seq<char>
    decreases n,
{
    match n {
        SpecNode::Text(t) => t,
        SpecNode::Tag(t) => spec_serialize_tag(t),
    }
}

/// The markup text a tag renders to: the opening delimiter with its
/// parameters, the children in order, and the closing delimiter.
pub open spec fn spec_serialize_tag(t: SpecTag) -> Seq<char>
    decreases t,
{
    seq!['['] + t.name + (match t.simple_param {
        Some(p) => seq!['='] + spec_quote_param(p),
        None => Seq::empty(),
    }) + spec_serialize_params(t.complex_params) + seq![']'] + spec_serialize_nodes(t.children)
        + seq!['[', '/'] + t.name + seq![']']
}

/// The concatenation of the markup of a sequence of nodes.
pub open spec fn spec_serialize_nodes(ns: Seq<SpecNode>) -> Seq<char>
    decreases ns,
{
    if ns.len() == 0 {
        Seq::empty()
    } else {
        spec_serialize_node(ns[0]) + spec_serialize_nodes(ns.skip(1))
    }
}

pub proof fn lemma_serialize_nodes_concat(a: Seq<SpecNode>, b: Seq<SpecNode>)
    ensures
        spec_serialize_nodes(a + b) == spec_serialize_nodes(a) + spec_serialize_nodes(b),
    decreases a.len(),
{
    if a.len() == 0 {
        assert(a + b =~= b);
        assert(spec_serialize_nodes(a) + spec_serialize_nodes(b) =~= spec_serialize_nodes(b));
    } else {
        assert((a + b)[0] == a[0]);
        assert((a + b).len() > 0);
        assert((a + b).skip(1) =~= a.skip(1) + b);
        lemma_serialize_nodes_concat(a.skip(1), b);
        assert(spec_serialize_node(a[0]) + (spec_serialize_nodes(a.skip(1))
            + spec_serialize_nodes(b)) =~= (spec_serialize_node(a[0]) + spec_serialize_nodes(
            a.skip(1),
        )) + spec_serialize_nodes(b));
    }
}

pub proof fn lemma_serialize_params_concat(a: Seq<(Seq<char>, Seq<char>)>, b: Seq<(Seq<char>, Seq<char>)>)
    ensures
        spec_serialize_params(a + b) == spec_serialize_params(a) + spec_serialize_params(b),
    decreases a.len(),
{
    if a.len() == 0 {
        assert(a + b =~= b);
        assert(spec_serialize_params(a) + spec_serialize_params(b) =~= spec_serialize_params(b));
    } else {
        assert((a + b)[0] == a[0]);
        assert((a + b).skip(1) =~= a.skip(1) + b);
        lemma_serialize_params_concat(a.skip(1), b);
        assert((seq![' '] + a[0].0 + seq!['='] + spec_quote_param(a[0].1)) + (
        spec_serialize_params(a.skip(1)) + spec_serialize_params(b)) =~= (seq![' '] + a[0].0
            + seq!['='] + spec_quote_param(a[0].1) + spec_serialize_params(a.skip(1)))
            + spec_serialize_params(b));
    }
}

/// The views of the string literals the serializer writes.
pub proof fn lemma_markup_literals()
    ensures
        "["@ =~= seq!['['],
        "]"@ =~= seq![']'],
        "="@ =~= seq!['='],
        " "@ =~= seq![' '],
        "\""@ =~= seq!['"'],
        "[/"@ =~= seq!['[', '/'],
{
    reveal_strlit("[");
    reveal_strlit("]");
    reveal_strlit("=");
    reveal_strlit(" ");
    reveal_strlit("\"");
    reveal_strlit("[/");
}

/// Append a parameter value to `out`, quoting it if it contains a space.
fn append_param(out: &mut String, p: &str)
    ensures
        final(out)@ == old(out)@ + spec_quote_param(p@),
{
    proof {
        lemma_markup_literals();
    }
    if contains_char(p, ' ') {
        out.append("\"");
        out.append(p);
        out.append("\"");
        assert(out@ =~= old(out)@ + spec_quote_param(p@));
    } else {
        out.append(p);
    }
}

impl BbcodeNode {
    /// Render this node back to markup text.
    pub fn to_markup(&self) -> (r: String)
        ensures
            r@ == spec_serialize_node(self@),
        decreases *self,
    {
        match self {
            BbcodeNode::Tag(t) => t.to_markup(),
            BbcodeNode::Text(s) => String::from_str(s.as_str()),
        }
    }
}

impl BbcodeTag {
    /// Render this tag back to markup text.
    #[verifier::loop_isolation(false)]
    pub fn to_markup(&self) -> (r: String)
        ensures
            r@ == spec_serialize_tag(self@),
        decreases *self,
    {
        proof {
            lemma_markup_literals();
        }
        let mut out = String::new();
        out.append("[");
        out.append(self.name.as_str());
        match &self.simple_param {
            Some(p) => {
                out.append("=");
                append_param(&mut out, p.as_str());
            },
            None => {},
        }
        let ghost head = seq!['['] + self@.name + (match self@.simple_param {
            Some(q) => seq!['='] + spec_quote_param(q),
            None => Seq::<char>::empty(),
        });
        proof {
            assert(out@ =~= head);
        }
        let ghost pview = self@.complex_params;
        let np = self.complex_params.len();
        let mut i: usize = 0;
        while i < np
            invariant
                0 <= i <= np,
                out@ == head + spec_serialize_params(pview.take(i as int)),
            decreases np - i,
        {
            let kv = &self.complex_params[i];
            out.append(" ");
            out.append(kv.0.as_str());
            out.append("=");
            append_param(&mut out, kv.1.as_str());
            proof {
                reveal_with_fuel(spec_serialize_params, 2);
                let ghost one = seq![pview[i as int]];
                assert(pview.take(i + 1) =~= pview.take(i as int) + one);
                lemma_serialize_params_concat(pview.take(i as int), one);
                assert(one.skip(1) =~= Seq::<(Seq<char>, Seq<char>)>::empty());
                assert(spec_serialize_params(one) =~= seq![' '] + pview[i as int].0 + seq!['=']
                    + spec_quote_param(pview[i as int].1));
                assert(pview[i as int].0 == kv.0@);
                assert(pview[i as int].1 == kv.1@);
                assert(out@ =~= head + spec_serialize_params(pview.take(i + 1)));
            }
            i = i + 1;
        }
        proof {
            assert(pview.take(np as int) =~= pview);
        }
        out.append("]");
        let ghost mid = head + spec_serialize_params(pview) + seq![']'];
        proof {
            assert(out@ =~= mid);
        }
        let ghost cview = self@.children;
        let nc = self.children.len();
        let mut j: usize = 0;
        while j < nc
            invariant
                0 <= j <= nc,
                out@ == mid + spec_serialize_nodes(cview.take(j as int)),
            decreases nc - j,
        {
            let child = &self.children[j];
            let cs = child.to_markup();
            out.append(cs.as_str());
            proof {
                lemma_nodes_view_len(self.children@);
                lemma_nodes_view_index(self.children@, j as int);
                reveal_with_fuel(spec_serialize_nodes, 2);
                let ghost one = seq![cview[j as int]];
                assert(cview.take(j + 1) =~= cview.take(j as int) + one);
                lemma_serialize_nodes_concat(cview.take(j as int), one);
                assert(one.skip(1) =~= Seq::<SpecNode>::empty());
                assert(spec_serialize_nodes(one) =~= spec_serialize_node(cview[j as int]));
                assert(child@ == cview[j as int]);
                assert(out@ =~= mid + spec_serialize_nodes(cview.take(j + 1)));
            }
            j = j + 1;
        }
        proof {
            lemma_nodes_view_len(self.children@);
            assert(cview.take(nc as int) =~= cview);
        }
        out.append("[/");
        out.append(self.name.as_str());
        out.append("]");
        proof {
            assert(out@ =~= spec_serialize_tag(self@));
        }
        out
    }
}

} // verus!

