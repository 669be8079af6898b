use vstd::prelude::*;
use select::document::Document;
use crate::tag_spec::{form_of, no_dot, parse_tag_spec, SpecForm, TagSpec};

verus! {

#[verifier::external_type_specification]
#[verifier::external_body]
pub struct ExDocument(Document);

/// One node as the extractor reads it: the element's local name (`None` for
/// text and comment nodes), its attributes as (local name, value) pairs in
/// source order (empty for other nodes), and the concatenated text of the
/// node and all its descendants.
pub type NodeView = (Option<Seq<char>>, Seq<(Seq<char>, Seq<char>)>, Seq<char>);

/// The nodes of `d`, in the document's node order.
pub uninterp spec fn doc_nodes(d: Document) -> Seq<NodeView>;

/// The nodes that select's parser makes of the HTML text `html`, in node order.
pub uninterp spec fn parsed_nodes(html: Seq<char>) -> Seq<NodeView>;

/// The longest HTML text that is parsed: at four bytes per character it stays
/// within the parser's `u32` buffer length.
pub const MAX_HTML_CHARS: usize = 0x3fff_ffff;

/// Relies on select's `Document::from(&str)`: parses HTML leniently; the
/// nodes depend on the text alone. Its buffer holds at most `u32::MAX` bytes.
#[verifier::external_body]
pub(crate) fn parse_document(html: &str) -> (d: Document)
    requires
        html@.len() <= MAX_HTML_CHARS,
    ensures
        doc_nodes(d) == parsed_nodes(html@),
{
    Document::from(html)
}

/// Relies on select's `Document::nodes`: one entry per node, the same list that
/// `nth` indexes.
#[verifier::external_body]
fn node_count(d: &Document) -> (n: usize)
    ensures
        n == doc_nodes(*d).len(),
{
    d.nodes.len()
}

pub open spec fn opt_view(o: Option<String>) -> Option<Seq<char>> {
    match o {
        Some(s) => Some(s@),
        None => None,
    }
}

/// Relies on select's `Node::name`: the element's local name, `None` for
/// other nodes.
#[verifier::external_body]
fn node_name(d: &Document, i: usize) -> (r: Option<String>)
    requires
        i < doc_nodes(*d).len(),
    ensures
        opt_view(r) == doc_nodes(*d)[i as int].0,
{
    match d.nth(i).unwrap().name() {
        Some(s) => Some(s.to_string()),
        None => None,
    }
}

/// The value of the first attribute called `name`.
pub open spec fn attr_lookup(attrs: Seq<(Seq<char>, Seq<char>)>, name: Seq<char>) -> Option<
    Seq<char>,
>
    decreases attrs.len(),
{
    if attrs.len() == 0 {
        None
    } else if attrs[0].0 == name {
        Some(attrs[0].1)
    } else {
        attr_lookup(attrs.skip(1), name)
    }
}

/// Relies on select's `Node::attr`: the value of the first attribute whose
/// local name is `name`.
#[verifier::external_body]
fn node_attr(d: &Document, i: usize, name: &str) -> (r: Option<String>)
    requires
        i < doc_nodes(*d).len(),
    ensures
        opt_view(r) == attr_lookup(doc_nodes(*d)[i as int].1, name@),
{
    match d.nth(i).unwrap().attr(name) {
        Some(s) => Some(s.to_string()),
        None => None,
    }
}

/// Relies on select's `Node::text`: the node's text and that of its
/// descendants, concatenated.
#[verifier::external_body]
fn node_text(d: &Document, i: usize) -> (r: String)
    requires
        i < doc_nodes(*d).len(),
    ensures
        r@ == doc_nodes(*d)[i as int].2,
{
    d.nth(i).unwrap().text()
}

/// One extracted value, with the specification string that selected it.
pub struct TagValuePair {
    pub tag: String,
    pub value: String,
}

impl View for TagValuePair {
    type V = (Seq<char>, Seq<char>);

    open spec fn view(&self) -> (Seq<char>, Seq<char>) {
        (self.tag@, self.value@)
    }
}

/// What specification `spec` emits on an element called `name`.
pub open spec fn pair_for(
    name: Seq<char>,
    attrs: Seq<(Seq<char>, Seq<char>)>,
    text: Seq<char>,
    spec: Seq<char>,
) -> Option<(Seq<char>, Seq<char>)> {
    match form_of(spec) {
        SpecForm::Element(e) => if e == name {
            Some((spec, text))
        } else {
            None
        },
        SpecForm::Attribute(e, a) => if e == name {
            match attr_lookup(attrs, a) {
                Some(v) => Some((spec, v)),
                None => None,
            }
        } else {
            None
        },
        SpecForm::Unmatchable => None,
    }
}

/// The pairs one node emits for the first `m` specifications, in their order.
pub open spec fn node_pairs(
    name: Option<Seq<char>>,
    attrs: Seq<(Seq<char>, Seq<char>)>,
    text: Seq<char>,
    specs: Seq<Seq<char>>,
    m: int,
) -> Seq<(Seq<char>, Seq<char>)>
    decreases m,
{
    if m <= 0 {
        seq![]
    } else {
        let rest = node_pairs(name, attrs, text, specs, m - 1);
        match name {
            Some(n) => match pair_for(n, attrs, text, specs[m - 1]) {
                Some(p) => rest.push(p),
                None => rest,
            },
            None => rest,
        }
    }
}

/// The pairs emitted by the first `n` nodes, node by node in order.
pub open spec fn pairs_upto(nodes: Seq<NodeView>, specs: Seq<Seq<char>>, n: int) -> Seq<
    (Seq<char>, Seq<char>),
>
    decreases n,
{
    if n <= 0 {
        seq![]
    } else {
        pairs_upto(nodes, specs, n - 1) + node_pairs(
            nodes[n - 1].0,
            nodes[n - 1].1,
            nodes[n - 1].2,
            specs,
            specs.len() as int,
        )
    }
}

/// Everything the extractor emits for the nodes `nodes` and specifications `specs`.
pub open spec fn extracted(nodes: Seq<NodeView>, specs: Seq<Seq<char>>) -> Seq<(Seq<char>, Seq<char>)> {
    pairs_upto(nodes, specs, nodes.len() as int)
}

pub open spec fn views_of(specs: Seq<String>) -> Seq<Seq<char>> {
    specs.map_values(|s: String| s@)
}

pub open spec fn pairs_view(v: Seq<TagValuePair>) -> Seq<(Seq<char>, Seq<char>)> {
    v.map_values(|p: TagValuePair| p@)
}

/// Parses each specification once, keeping their order.
pub fn parse_tag_specs(specs: &Vec<String>) -> (r: Vec<TagSpec>)
    ensures
        r.len() == specs.len(),
        forall|j: int| 0 <= j < r.len() ==> (#[trigger] r[j])@ == form_of(specs[j]@),
{
    let mut r: Vec<TagSpec> = Vec::new();
    let mut j: usize = 0;
    while j < specs.len()
        invariant
            j <= specs.len(),
            r.len() == j,
            forall|k: int| 0 <= k < j ==> (#[trigger] r[k])@ == form_of(specs[k]@),
        decreases specs.len() - j,
    {
        r.push(parse_tag_spec(specs[j].as_str()));
        j = j + 1;
    }
    r
}

/// Walks every node of `d` in document order and, for each element, every
/// specification in order, emitting a pair for each match.
pub fn extract_pairs(d: &Document, specs: &Vec<String>) -> (r: Vec<TagValuePair>)
    ensures
        pairs_view(r@) == extracted(doc_nodes(*d), views_of(specs@)),
{
    let parsed = parse_tag_specs(specs);
    let ghost sv = views_of(specs@);
    let n = node_count(d);
    let mut r: Vec<TagValuePair> = Vec::new();
    let mut i: usize = 0;
    while i < n
        invariant
            n == doc_nodes(*d).len(),
            i <= n,
            sv == views_of(specs@),
            parsed.len() == specs.len(),
            forall|j: int| 0 <= j < parsed.len() ==> (#[trigger] parsed[j])@ == form_of(specs[j]@),
            pairs_view(r@) == pairs_upto(doc_nodes(*d), sv, i as int),
        decreases n - i,
    {
        let ghost before = pairs_view(r@);
        let name = node_name(d, i);
        let ghost nm = doc_nodes(*d)[i as int].0;
        let ghost at = doc_nodes(*d)[i as int].1;
        let ghost tx = doc_nodes(*d)[i as int].2;
        match name {
            Some(tag) => {
                let mut j: usize = 0;
                while j < specs.len()
                    invariant
                        i < n,
                        n == doc_nodes(*d).len(),
                        j <= specs.len(),
                        nm == Some(tag@),
                        nm == doc_nodes(*d)[i as int].0,
                        at == doc_nodes(*d)[i as int].1,
                        tx == doc_nodes(*d)[i as int].2,
                        sv == views_of(specs@),
                        parsed.len() == specs.len(),
                        forall|k: int| 0 <= k < parsed.len() ==> (#[trigger] parsed[k])@ == form_of(specs[k]@),
                        pairs_view(r@) == before + node_pairs(nm, at, tx, sv, j as int),
                    decreases specs.len() - j,
                {
                    let ghost r0 = r@;
                    assert(sv[j as int] == specs[j as int]@);
                    match &parsed[j] {
                        TagSpec::Element(e) => {
                            if *e == tag {
                                let value = node_text(d, i);
                                r.push(TagValuePair { tag: specs[j].clone(), value });
                                assert(pairs_view(r@) =~= pairs_view(r0).push(r@.last()@));
                            }
                        },
                        TagSpec::Attribute(e, a) => {
                            if *e == tag {
                                match node_attr(d, i, a.as_str()) {
                                    Some(value) => {
                                        r.push(TagValuePair { tag: specs[j].clone(), value });
                                        assert(pairs_view(r@) =~= pairs_view(r0).push(r@.last()@));
                                    },
                                    None => {},
                                }
                            }
                        },
                        TagSpec::Unmatchable => {},
                    }
                    j = j + 1;
                }
            },
            None => {
                assert(node_pairs(nm, at, tx, sv, specs.len() as int) =~= seq![]) by {
                    lemma_no_name_no_pairs(at, tx, sv, specs.len() as int);
                }
            },
        }
        assert(sv.len() == specs.len());
        assert(pairs_view(r@) =~= pairs_upto(doc_nodes(*d), sv, i + 1));
        i = i + 1;
    }
    r
}

proof fn lemma_no_name_no_pairs(
    attrs: Seq<(Seq<char>, Seq<char>)>,
    text: Seq<char>,
    specs: Seq<Seq<char>>,
    m: int,
)
    ensures
        node_pairs(None, attrs, text, specs, m) == Seq::<(Seq<char>, Seq<char>)>::empty(),
    decreases m,
{
    if m > 0 {
        lemma_no_name_no_pairs(attrs, text, specs, m - 1);
    }
}

/// Parses `html` and extracts the pairs that `specs` select.
pub fn extract_from_html(html: &str, specs: &Vec<String>) -> (r: Vec<TagValuePair>)
    requires
        html@.len() <= MAX_HTML_CHARS,
    ensures
        pairs_view(r@) == extracted(parsed_nodes(html@), views_of(specs@)),
{
    let d = parse_document(html);
    extract_pairs(&d, specs)
}

/// Order: the extractor's output begins with exactly the pairs of the first
/// `i` nodes, so the pairs of an earlier node always come before those of a
/// later one, and each node's pairs follow the order of the specifications.
pub proof fn lemma_document_order(nodes: Seq<NodeView>, specs: Seq<Seq<char>>, i: int)
    requires
        0 <= i <= nodes.len(),
    ensures
        extracted(nodes, specs).take(pairs_upto(nodes, specs, i).len() as int) == pairs_upto(nodes, specs, i),
        i < nodes.len() ==> pairs_upto(nodes, specs, i + 1) == pairs_upto(nodes, specs, i)
            + node_pairs(
            nodes[i].0,
            nodes[i].1,
            nodes[i].2,
            specs,
            specs.len() as int,
        ),
{
    lemma_prefix(nodes, specs, i, nodes.len() as int);
}

proof fn lemma_prefix(nodes: Seq<NodeView>, specs: Seq<Seq<char>>, i: int, j: int)
    requires
        0 <= i <= j,
    ensures
        pairs_upto(nodes, specs, i).len() <= pairs_upto(nodes, specs, j).len(),
        pairs_upto(nodes, specs, j).take(pairs_upto(nodes, specs, i).len() as int) == pairs_upto(nodes, specs, i),
    decreases j - i,
{
    if i == j {
        assert(pairs_upto(nodes, specs, j).take(pairs_upto(nodes, specs, i).len() as int) =~= pairs_upto(nodes, specs, i));
    } else {
        lemma_prefix(nodes, specs, i, j - 1);
        let a = pairs_upto(nodes, specs, j - 1);
        let b = pairs_upto(nodes, specs, j);
        let k = pairs_upto(nodes, specs, i).len() as int;
        assert(b.take(a.len() as int) =~= a);
        assert(b.take(k) =~= a.take(k));
    }
}

/// Echo: every emitted pair carries, byte for byte, one of the given
/// specification strings.
pub proof fn lemma_spec_echo(nodes: Seq<NodeView>, specs: Seq<Seq<char>>)
    ensures
        forall|p: int| 0 <= p < extracted(nodes, specs).len() ==>
            exists|j: int| 0 <= j < specs.len() && specs[j] == (#[trigger] extracted(nodes, specs)[p]).0,
{
    lemma_echo_upto(nodes, specs, nodes.len() as int);
}

proof fn lemma_echo_upto(nodes: Seq<NodeView>, specs: Seq<Seq<char>>, n: int)
    ensures
        forall|p: int| 0 <= p < pairs_upto(nodes, specs, n).len() ==>
            exists|j: int| 0 <= j < specs.len() && specs[j] == (#[trigger] pairs_upto(nodes, specs, n)[p]).0,
    decreases n,
{
    if n > 0 {
        lemma_echo_upto(nodes, specs, n - 1);
        let a = pairs_upto(nodes, specs, n - 1);
        let b = node_pairs(nodes[n - 1].0, nodes[n - 1].1, nodes[n - 1].2, specs, specs.len() as int);
        lemma_echo_node(nodes[n - 1].0, nodes[n - 1].1, nodes[n - 1].2, specs, specs.len() as int);
        assert forall|p: int| 0 <= p < pairs_upto(nodes, specs, n).len() implies
            exists|j: int| 0 <= j < specs.len() && specs[j] == (#[trigger] pairs_upto(nodes, specs, n)[p]).0 by {
            if p < a.len() {
                assert(pairs_upto(nodes, specs, n)[p] == a[p]);
            } else {
                assert(pairs_upto(nodes, specs, n)[p] == b[p - a.len()]);
            }
        }
    }
}

proof fn lemma_echo_node(
    name: Option<Seq<char>>,
    attrs: Seq<(Seq<char>, Seq<char>)>,
    text: Seq<char>,
    specs: Seq<Seq<char>>,
    m: int,
)
    requires
        m <= specs.len(),
    ensures
        forall|p: int| 0 <= p < node_pairs(name, attrs, text, specs, m).len() ==>
            exists|j: int| 0 <= j < specs.len() && specs[j] == (#[trigger] node_pairs(name, attrs, text, specs, m)[p]).0,
    decreases m,
{
    if m > 0 {
        lemma_echo_node(name, attrs, text, specs, m - 1);
        let rest = node_pairs(name, attrs, text, specs, m - 1);
        assert forall|p: int| 0 <= p < node_pairs(name, attrs, text, specs, m).len() implies
            exists|j: int| 0 <= j < specs.len() && specs[j] == (#[trigger] node_pairs(name, attrs, text, specs, m)[p]).0 by {
            if p < rest.len() {
                assert(node_pairs(name, attrs, text, specs, m)[p] == rest[p]);
            } else {
                assert(specs[m - 1] == node_pairs(name, attrs, text, specs, m)[p].0);
            }
        }
    }
}

/// Attribute selectivity: a specification `e.a` emits on an element iff the
/// element is called `e` and carries attribute `a`, and then the value is the
/// attribute's string as it stands.
pub proof fn lemma_attribute_selectivity(
    name: Seq<char>,
    attrs: Seq<(Seq<char>, Seq<char>)>,
    text: Seq<char>,
    spec: Seq<char>,
    e: Seq<char>,
    a: Seq<char>,
)
    requires
        form_of(spec) == SpecForm::Attribute(e, a),
    ensures
        node_pairs(Some(name), attrs, text, seq![spec], 1) == (if e == name && attr_lookup(attrs, a) is Some {
            seq![(spec, attr_lookup(attrs, a)->Some_0)]
        } else {
            Seq::<(Seq<char>, Seq<char>)>::empty()
        }),
{
    assert(node_pairs(Some(name), attrs, text, seq![spec], 0) =~= seq![]);
    assert(seq![spec][0] == spec);
    if e == name && attr_lookup(attrs, a) is Some {
        assert(node_pairs(Some(name), attrs, text, seq![spec], 1) =~= seq![(spec, attr_lookup(attrs, a)->Some_0)]);
    }
}

/// Bare-tag text: a specification without a dot emits on an element iff it
/// equals the element's name, and then the value is the element's whole text.
pub proof fn lemma_bare_tag_text(
    name: Seq<char>,
    attrs: Seq<(Seq<char>, Seq<char>)>,
    text: Seq<char>,
    spec: Seq<char>,
)
    requires
        no_dot(spec),
    ensures
        node_pairs(Some(name), attrs, text, seq![spec], 1) == (if spec == name {
            seq![(spec, text)]
        } else {
            Seq::<(Seq<char>, Seq<char>)>::empty()
        }),
{
    assert(node_pairs(Some(name), attrs, text, seq![spec], 0) =~= seq![]);
    assert(seq![spec][0] == spec);
    if spec == name {
        assert(node_pairs(Some(name), attrs, text, seq![spec], 1) =~= seq![(spec, text)]);
    }
}

/// The pairs of `p` whose tag is `s`, in order.
pub open spec fn with_tag(p: Seq<(Seq<char>, Seq<char>)>, s: Seq<char>) -> Seq<(Seq<char>, Seq<char>)>
    decreases p.len(),
{
    if p.len() == 0 {
        Seq::empty()
    } else if p.last().0 == s {
        with_tag(p.drop_last(), s).push(p.last())
    } else {
        with_tag(p.drop_last(), s)
    }
}

/// How many of the first `m` specifications equal `s`.
pub open spec fn count_of(specs: Seq<Seq<char>>, s: Seq<char>, m: int) -> nat
    decreases m,
{
    if m <= 0 {
        0
    } else {
        count_of(specs, s, m - 1) + if specs[m - 1] == s {
            1nat
        } else {
            0nat
        }
    }
}

/// `c` copies of `x`.
pub open spec fn repeated(x: (Seq<char>, Seq<char>), c: nat) -> Seq<(Seq<char>, Seq<char>)>
    decreases c,
{
    if c == 0 {
        Seq::empty()
    } else {
        repeated(x, (c - 1) as nat).push(x)
    }
}

/// What specification `s` selects on one node, if anything.
pub open spec fn node_match(node: NodeView, s: Seq<char>) -> Option<(Seq<char>, Seq<char>)> {
    match node.0 {
        Some(n) => pair_for(n, node.1, node.2, s),
        None => None,
    }
}

/// Node by node over the first `n` nodes, `c` copies of what `s` selects there.
pub open spec fn selected_by(nodes: Seq<NodeView>, s: Seq<char>, c: nat, n: int) -> Seq<
    (Seq<char>, Seq<char>),
>
    decreases n,
{
    if n <= 0 {
        Seq::empty()
    } else {
        selected_by(nodes, s, c, n - 1) + match node_match(nodes[n - 1], s) {
            Some(x) => repeated(x, c),
            None => Seq::empty(),
        }
    }
}

proof fn lemma_with_tag_concat(a: Seq<(Seq<char>, Seq<char>)>, b: Seq<(Seq<char>, Seq<char>)>, s: Seq<char>)
    ensures
        with_tag(a + b, s) == with_tag(a, s) + with_tag(b, s),
    decreases b.len(),
{
    if b.len() == 0 {
        assert(a + b =~= a);
        assert(with_tag(a, s) + with_tag(b, s) =~= with_tag(a, s));
    } else {
        lemma_with_tag_concat(a, b.drop_last(), s);
        assert((a + b).drop_last() =~= a + b.drop_last());
        assert((a + b).last() == b.last());
        if b.last().0 == s {
            assert(with_tag(a + b, s) =~= with_tag(a, s) + with_tag(b, s));
        } else {
            assert(with_tag(a + b, s) =~= with_tag(a, s) + with_tag(b, s));
        }
    }
}

proof fn lemma_with_tag_node(
    name: Option<Seq<char>>,
    attrs: Seq<(Seq<char>, Seq<char>)>,
    text: Seq<char>,
    specs: Seq<Seq<char>>,
    s: Seq<char>,
    m: int,
)
    requires
        0 <= m <= specs.len(),
    ensures
        with_tag(node_pairs(name, attrs, text, specs, m), s) == match node_match((name, attrs, text), s) {
            Some(x) => repeated(x, count_of(specs, s, m)),
            None => Seq::<(Seq<char>, Seq<char>)>::empty(),
        },
    decreases m,
{
    if m > 0 {
        lemma_with_tag_node(name, attrs, text, specs, s, m - 1);
        let rest = node_pairs(name, attrs, text, specs, m - 1);
        match name {
            Some(n) => {
                match pair_for(n, attrs, text, specs[m - 1]) {
                    Some(p) => {
                        assert(node_pairs(name, attrs, text, specs, m) == rest.push(p));
                        assert(rest.push(p).drop_last() =~= rest);
                        assert(p.0 == specs[m - 1]);
                    },
                    None => {},
                }
            },
            None => {},
        }
    }
}

/// Selection by one specification over a whole document: the pairs tagged
/// `s` are, node by node in document order, `k` copies of what `s` selects on
/// that node, where `k` is how often `s` stands in the specification list.
pub proof fn lemma_selected_by_spec(nodes: Seq<NodeView>, specs: Seq<Seq<char>>, s: Seq<char>)
    ensures
        with_tag(extracted(nodes, specs), s) == selected_by(
            nodes,
            s,
            count_of(specs, s, specs.len() as int),
            nodes.len() as int,
        ),
{
    lemma_selected_upto(nodes, specs, s, nodes.len() as int);
}

proof fn lemma_selected_upto(nodes: Seq<NodeView>, specs: Seq<Seq<char>>, s: Seq<char>, n: int)
    requires
        n <= nodes.len(),
    ensures
        with_tag(pairs_upto(nodes, specs, n), s) == selected_by(
            nodes,
            s,
            count_of(specs, s, specs.len() as int),
            n,
        ),
    decreases n,
{
    if n > 0 {
        lemma_selected_upto(nodes, specs, s, n - 1);
        let node = nodes[n - 1];
        lemma_with_tag_concat(
            pairs_upto(nodes, specs, n - 1),
            node_pairs(node.0, node.1, node.2, specs, specs.len() as int),
            s,
        );
        lemma_with_tag_node(node.0, node.1, node.2, specs, s, specs.len() as int);
        assert((node.0, node.1, node.2) == node);
    }
}

/// Attribute selectivity over a whole document: for `s` of the form `e.a`,
/// the pairs tagged `s` come, in document order, from exactly the elements
/// called `e` that carry attribute `a`, each giving that attribute's string as
/// it stands, once per occurrence of `s` in the list.
pub proof fn lemma_attribute_selectivity_document(
    nodes: Seq<NodeView>,
    specs: Seq<Seq<char>>,
    s: Seq<char>,
    e: Seq<char>,
    a: Seq<char>,
    i: int,
)
    requires
        form_of(s) == SpecForm::Attribute(e, a),
        0 <= i < nodes.len(),
    ensures
        with_tag(extracted(nodes, specs), s) == selected_by(
            nodes,
            s,
            count_of(specs, s, specs.len() as int),
            nodes.len() as int,
        ),
        node_match(nodes[i], s) == (if nodes[i].0 == Some(e) && attr_lookup(nodes[i].1, a) is Some {
            Some((s, attr_lookup(nodes[i].1, a)->Some_0))
        } else {
            None::<(Seq<char>, Seq<char>)>
        }),
{
    lemma_selected_by_spec(nodes, specs, s);
}

/// Bare-tag text over a whole document: for `s` without a dot, the pairs
/// tagged `s` come, in document order, from exactly the elements called `s`,
/// each giving the element's whole text, once per occurrence of `s` in the list.
pub proof fn lemma_bare_tag_text_document(nodes: Seq<NodeView>, specs: Seq<Seq<char>>, s: Seq<char>, i: int)
    requires
        no_dot(s),
        0 <= i < nodes.len(),
    ensures
        with_tag(extracted(nodes, specs), s) == selected_by(
            nodes,
            s,
            count_of(specs, s, specs.len() as int),
            nodes.len() as int,
        ),
        node_match(nodes[i], s) == (if nodes[i].0 == Some(s) {
            Some((s, nodes[i].2))
        } else {
            None::<(Seq<char>, Seq<char>)>
        }),
{
    lemma_selected_by_spec(nodes, specs, s);
}

/// For each pair one node emits for the first `m` specifications: the node's
/// index `k` and the index of the specification that matched.
pub open spec fn node_origins(
    name: Option<Seq<char>>,
    attrs: Seq<(Seq<char>, Seq<char>)>,
    text: Seq<char>,
    specs: Seq<Seq<char>>,
    k: int,
    m: int,
) -> Seq<(int, int)>
    decreases m,
{
    if m <= 0 {
        Seq::empty()
    } else {
        let rest = node_origins(name, attrs, text, specs, k, m - 1);
        match name {
            Some(n) => match pair_for(n, attrs, text, specs[m - 1]) {
                Some(_) => rest.push((k, m - 1)),
                None => rest,
            },
            None => rest,
        }
    }
}

/// For each pair of the first `n` nodes: (node index, specification index).
pub open spec fn origins_upto(nodes: Seq<NodeView>, specs: Seq<Seq<char>>, n: int) -> Seq<(int, int)>
    decreases n,
{
    if n <= 0 {
        Seq::empty()
    } else {
        origins_upto(nodes, specs, n - 1) + node_origins(
            nodes[n - 1].0,
            nodes[n - 1].1,
            nodes[n - 1].2,
            specs,
            n - 1,
            specs.len() as int,
        )
    }
}

pub open spec fn lex_less(a: (int, int), b: (int, int)) -> bool {
    a.0 < b.0 || (a.0 == b.0 && a.1 < b.1)
}

proof fn lemma_node_origins(
    name: Option<Seq<char>>,
    attrs: Seq<(Seq<char>, Seq<char>)>,
    text: Seq<char>,
    specs: Seq<Seq<char>>,
    k: int,
    m: int,
)
    requires
        0 <= m <= specs.len(),
    ensures
        ({
            let o = node_origins(name, attrs, text, specs, k, m);
            let p = node_pairs(name, attrs, text, specs, m);
            &&& o.len() == p.len()
            &&& forall|i: int| 0 <= i < o.len() ==> {
                &&& (#[trigger] o[i]).0 == k
                &&& 0 <= o[i].1 < m
                &&& node_match((name, attrs, text), specs[o[i].1]) == Some(p[i])
            }
            &&& forall|i1: int, i2: int| 0 <= i1 < i2 < o.len() ==> (#[trigger] o[i1]).1 < (#[trigger] o[i2]).1
        }),
    decreases m,
{
    if m > 0 {
        lemma_node_origins(name, attrs, text, specs, k, m - 1);
    }
}

/// Order over a whole document: every emitted pair comes from one node and
/// one specification, the one that selects it there; and the (node,
/// specification) origins strictly increase, node order first and then the
/// order of the specifications, so no origin gives two pairs.
pub proof fn lemma_pair_origins(nodes: Seq<NodeView>, specs: Seq<Seq<char>>)
    ensures
        ({
            let o = origins_upto(nodes, specs, nodes.len() as int);
            let r = extracted(nodes, specs);
            &&& o.len() == r.len()
            &&& forall|i: int| 0 <= i < o.len() ==> {
                &&& 0 <= (#[trigger] o[i]).0 < nodes.len()
                &&& 0 <= o[i].1 < specs.len()
                &&& node_match(nodes[o[i].0], specs[o[i].1]) == Some(r[i])
            }
            &&& forall|i1: int, i2: int| 0 <= i1 < i2 < o.len() ==> lex_less(#[trigger] o[i1], #[trigger] o[i2])
        }),
{
    lemma_origins_upto(nodes, specs, nodes.len() as int);
}

proof fn lemma_origins_upto(nodes: Seq<NodeView>, specs: Seq<Seq<char>>, n: int)
    requires
        0 <= n <= nodes.len(),
    ensures
        ({
            let o = origins_upto(nodes, specs, n);
            let r = pairs_upto(nodes, specs, n);
            &&& o.len() == r.len()
            &&& forall|i: int| 0 <= i < o.len() ==> {
                &&& 0 <= (#[trigger] o[i]).0 < n
                &&& 0 <= o[i].1 < specs.len()
                &&& node_match(nodes[o[i].0], specs[o[i].1]) == Some(r[i])
            }
            &&& forall|i1: int, i2: int| 0 <= i1 < i2 < o.len() ==> lex_less(#[trigger] o[i1], #[trigger] o[i2])
        }),
    decreases n,
{
    if n > 0 {
        lemma_origins_upto(nodes, specs, n - 1);
        let node = nodes[n - 1];
        let sl = specs.len() as int;
        lemma_node_origins(node.0, node.1, node.2, specs, n - 1, sl);
        assert((node.0, node.1, node.2) == node);
        let oa = origins_upto(nodes, specs, n - 1);
        let ob = node_origins(node.0, node.1, node.2, specs, n - 1, sl);
        let ra = pairs_upto(nodes, specs, n - 1);
        let rb = node_pairs(node.0, node.1, node.2, specs, sl);
        let o = origins_upto(nodes, specs, n);
        let r = pairs_upto(nodes, specs, n);
        assert(o == oa + ob);
        assert(r == ra + rb);
        assert forall|i: int| 0 <= i < o.len() implies {
            &&& 0 <= (#[trigger] o[i]).0 < n
            &&& 0 <= o[i].1 < specs.len()
            &&& node_match(nodes[o[i].0], specs[o[i].1]) == Some(r[i])
        } by {
            if i < oa.len() {
                assert(o[i] == oa[i]);
                assert(r[i] == ra[i]);
            } else {
                assert(o[i] == ob[i - oa.len()]);
                assert(r[i] == rb[i - oa.len()]);
            }
        }
        assert forall|i1: int, i2: int| 0 <= i1 < i2 < o.len() implies lex_less(#[trigger] o[i1], #[trigger] o[i2]) by {
            if i2 < oa.len() {
                assert(o[i1] == oa[i1]);
                assert(o[i2] == oa[i2]);
            } else if i1 < oa.len() {
                assert(o[i1] == oa[i1]);
                assert(o[i2] == ob[i2 - oa.len()]);
            } else {
                assert(o[i1] == ob[i1 - oa.len()]);
                assert(o[i2] == ob[i2 - oa.len()]);
            }
        }
    }
}

} // verus!
