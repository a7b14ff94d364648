use vstd::prelude::*;

verus! {

use crate::tree::{HtmlNode, NodeView, node_view, nodes_view, nv_size, lemma_nodes_view, lemma_child_size, lemma_nv_size_from_bound};
use crate::text::str_is;

/// The tree that `select` builds from a page's source.  Parsing is a pure
/// function of the text, so its result carries a name the contracts share.
pub uninterp spec fn parsed_doc(html: Seq<char>) -> Seq<NodeView>;

#[verifier::external_type_specification]
#[verifier::external_body]
pub struct ExNode<'a>(select::node::Node<'a>);

/// Relies on select's node accessors (`data`, `children`): rebuilds one node
/// of select's document as the library's tree, one for one.
#[verifier::external_body]
fn convert_node(n: select::node::Node) -> HtmlNode {
    match n.data() {
        select::node::Data::Text(t) => HtmlNode::Text { text: t.to_string() },
        select::node::Data::Comment(t) => HtmlNode::Comment { text: t.to_string() },
        select::node::Data::Element(name, attrs) => HtmlNode::Element {
            tag: name.local.to_string(),
            attrs: attrs.iter().map(|(k, v)| (k.local.to_string(), v.to_string())).collect(),
            children: n.children().map(convert_node).collect(),
        },
    }
}

/// Relies on select::document::Document::from: parses the page into a node
/// forest; the top-level nodes are those without a parent, in document order.
#[verifier::external_body]
fn parse_html(html: &str) -> (r: Vec<HtmlNode>)
    ensures
        nodes_view(r@, 0) == parsed_doc(html@),
{
    let doc = select::document::Document::from(html);
    let mut roots: Vec<HtmlNode> = Vec::new();
    let mut i: usize = 0;
    while let Some(node) = doc.nth(i) {
        if node.parent().is_none() {
            roots.push(convert_node(node));
        }
        i += 1;
    }
    roots
}

/// Deep copy of a node, preserving its model.
pub fn copy_node(n: &HtmlNode) -> (r: HtmlNode)
    ensures
        r.deep_view() == n.deep_view(),
    decreases nv_size(n.deep_view()),
{
    match n {
        HtmlNode::Text { text } => HtmlNode::Text { text: text.clone() },
        HtmlNode::Comment { text } => HtmlNode::Comment { text: text.clone() },
        HtmlNode::Element { tag, attrs, children } => {
            let mut ats: Vec<(String, String)> = Vec::new();
            let mut i: usize = 0;
            while i < attrs.len()
                invariant
                    0 <= i <= attrs@.len(),
                    ats@.len() == i,
                    forall|k: int|
                        0 <= k < i ==> (#[trigger] ats@[k]).0@ == attrs@[k].0@ && ats@[k].1@
                            == attrs@[k].1@,
                decreases attrs@.len() - i,
            {
                ats.push((attrs[i].0.clone(), attrs[i].1.clone()));
                i = i + 1;
            }
            let ghost cs = nodes_view(children@, 0);
            proof {
                lemma_nodes_view(children@, 0);
            }
            let mut kids: Vec<HtmlNode> = Vec::new();
            let mut j: usize = 0;
            while j < children.len()
                invariant
                    0 <= j <= children@.len(),
                    cs == nodes_view(children@, 0),
                    cs.len() == children@.len(),
                    forall|k: int|
                        0 <= k < children@.len() ==> #[trigger] cs[k] == node_view(children@[k]),
                    kids@.len() == j,
                    forall|k: int|
                        0 <= k < j ==> (#[trigger] kids@[k]).deep_view() == cs[k],
                    n.deep_view() matches NodeView::Element { children: csx, .. } && csx == cs,
                decreases children@.len() - j,
            {
                proof {
                    lemma_child_size(n.deep_view(), j as int);
                }
                let c = copy_node(&children[j]);
                kids.push(c);
                j = j + 1;
            }
            let r = HtmlNode::Element { tag: tag.clone(), attrs: ats, children: kids };
            proof {
                lemma_nodes_view(kids@, 0);
                assert(crate::tree::attrs_view(ats@) =~= crate::tree::attrs_view(attrs@));
                assert forall|k: int| 0 <= k < kids@.len() implies #[trigger] nodes_view(
                    kids@,
                    0,
                )[k] == cs[k] by {
                    assert(nodes_view(kids@, 0)[k] == node_view(kids@[k]));
                }
                assert(nodes_view(kids@, 0) =~= cs);
            }
            r
        },
    }
}

/// Deep copy of a forest, preserving its model.
pub fn copy_nodes(v: &Vec<HtmlNode>) -> (r: Vec<HtmlNode>)
    ensures
        nodes_view(r@, 0) == nodes_view(v@, 0),
{
    proof {
        lemma_nodes_view(v@, 0);
    }
    let mut out: Vec<HtmlNode> = Vec::new();
    let mut i: usize = 0;
    while i < v.len()
        invariant
            0 <= i <= v@.len(),
            out@.len() == i,
            forall|k: int|
                0 <= k < i ==> (#[trigger] out@[k]).deep_view() == node_view(v@[k]),
            forall|k: int|
                0 <= k < v@.len() ==> #[trigger] nodes_view(v@, 0)[k] == node_view(v@[k]),
            nodes_view(v@, 0).len() == v@.len(),
        decreases v@.len() - i,
    {
        let c = copy_node(&v[i]);
        out.push(c);
        i = i + 1;
    }
    proof {
        lemma_nodes_view(out@, 0);
        assert forall|k: int| 0 <= k < out@.len() implies #[trigger] nodes_view(out@, 0)[k]
            == nodes_view(v@, 0)[k] by {
            assert(nodes_view(out@, 0)[k] == node_view(out@[k]));
        }
        assert(nodes_view(out@, 0) =~= nodes_view(v@, 0));
    }
    out
}

/// The first cached document stored under `url`, searching from entry `i`.
pub open spec fn cache_lookup_from(
    s: Seq<(Seq<char>, Seq<NodeView>)>,
    url: Seq<char>,
    i: int,
) -> Option<Seq<NodeView>>
    decreases s.len() - i,
{
    if i < 0 || i >= s.len() {
        None
    } else if s[i].0 == url {
        Some(s[i].1)
    } else {
        cache_lookup_from(s, url, i + 1)
    }
}

pub open spec fn cache_lookup(s: Seq<(Seq<char>, Seq<NodeView>)>, url: Seq<char>) -> Option<
    Seq<NodeView>,
> {
    cache_lookup_from(s, url, 0)
}

/// A cache entry is found once stored, whatever stood in the cache before it.
pub proof fn lemma_cache_lookup_push(
    s: Seq<(Seq<char>, Seq<NodeView>)>,
    url: Seq<char>,
    d: Seq<NodeView>,
    i: int,
)
    requires
        0 <= i <= s.len(),
        cache_lookup_from(s, url, i) is None,
    ensures
        cache_lookup_from(s.push((url, d)), url, i) == Some(d),
    decreases s.len() - i,
{
    let s2 = s.push((url, d));
    if i < s.len() {
        assert(s2[i] == s[i]);
        lemma_cache_lookup_push(s, url, d, i + 1);
    } else {
        assert(s2[i] == (url, d));
    }
}

/// Memoizes parsed documents by source URL: each distinct URL is parsed at
/// most once, and nothing is ever evicted, so a long-lived cache only grows.
pub struct DocumentCache {
    entries: Vec<(String, Vec<HtmlNode>)>,
}

impl View for DocumentCache {
    type V = Seq<(Seq<char>, Seq<NodeView>)>;

    closed spec fn view(&self) -> Seq<(Seq<char>, Seq<NodeView>)> {
        Seq::new(self.entries@.len(), |i: int| (self.entries@[i].0@, nodes_view(self.entries@[i].1@, 0)))
    }
}

impl DocumentCache {
    /// An empty cache.
    pub fn new() -> (r: DocumentCache)
        ensures
            r@ == Seq::<(Seq<char>, Seq<NodeView>)>::empty(),
    {
        let r = DocumentCache { entries: Vec::new() };
        proof {
            assert(r@ =~= Seq::<(Seq<char>, Seq<NodeView>)>::empty());
        }
        r
    }

    /// Whether a document for `url` is already cached; parses nothing.
    pub fn has_document(&self, url: &str) -> (r: bool)
        ensures
            r == (cache_lookup(self@, url@) is Some),
    {
        let mut i: usize = 0;
        while i < self.entries.len()
            invariant
                0 <= i <= self.entries@.len(),
                self@.len() == self.entries@.len(),
                forall|k: int|
                    0 <= k < self.entries@.len() ==> #[trigger] self@[k] == (
                        self.entries@[k].0@,
                        nodes_view(self.entries@[k].1@, 0),
                    ),
                cache_lookup(self@, url@) == cache_lookup_from(self@, url@, i as int),
            decreases self.entries@.len() - i,
        {
            if str_is(self.entries[i].0.as_str(), url) {
                return true;
            }
            i = i + 1;
        }
        false
    }

    /// Returns the document cached for `url`, parsing `html` and storing the
    /// result first when `url` is new.  A second call with the same `url`
    /// ignores its `html`: the first parse wins.
    pub fn get_or_parse(&mut self, url: &str, html: &str) -> (r: Vec<HtmlNode>)
        ensures
            (match cache_lookup(old(self)@, url@) {
                Some(d) => final (self)@ == old(self)@ && nodes_view(r@, 0) == d,
                None => final (self)@ == old(self)@.push((url@, parsed_doc(html@)))
                    && nodes_view(r@, 0) == parsed_doc(html@),
            }),
    {
        let mut i: usize = 0;
        while i < self.entries.len()
            invariant
                0 <= i <= self.entries@.len(),
                self@.len() == self.entries@.len(),
                forall|k: int|
                    0 <= k < self.entries@.len() ==> #[trigger] self@[k] == (
                        self.entries@[k].0@,
                        nodes_view(self.entries@[k].1@, 0),
                    ),
                cache_lookup(self@, url@) == cache_lookup_from(self@, url@, i as int),
            decreases self.entries@.len() - i,
        {
            if str_is(self.entries[i].0.as_str(), url) {
                return copy_nodes(&self.entries[i].1);
            }
            i = i + 1;
        }
        let doc = parse_html(html);
        let out = copy_nodes(&doc);
        let ghost pre = self@;
        let key = url.to_owned();
        self.entries.push((key, doc));
        proof {
            assert forall|k: int| 0 <= k < pre.len() implies #[trigger] self@[k] == pre[k] by {
                assert(self.entries@[k] == old(self).entries@[k]);
            }
            assert(self@ =~= pre.push((url@, parsed_doc(html@))));
        }
        out
    }
}

} // verus!
