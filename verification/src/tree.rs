use vstd::prelude::*;

verus! {

use crate::text::{
    spec_has_token_sp, spec_has_token_ws, has_token_sp, has_token_ws, str_is,
};
use vstd::string::StringExecFns;

/// One node of a parsed HTML document: a text run, a comment, or an element
/// with a tag name, an attribute list, and ordered children.
pub enum HtmlNode {
    Text { text: String },
    Comment { text: String },
    Element { tag: String, attrs: Vec<(String, String)>, children: Vec<HtmlNode> },
}

/// The mathematical model of a node: the same tree over sequences.
pub enum NodeView {
    Text { text: Seq<char> },
    Comment { text: Seq<char> },
    Element { tag: Seq<char>, attrs: Seq<(Seq<char>, Seq<char>)>, children: Seq<NodeView> },
}

/// The model of an attribute list.
pub open spec fn attrs_view(s: Seq<(String, String)>) -> Seq<(Seq<char>, Seq<char>)> {
    Seq::new(s.len(), |i: int| (s[i].0@, s[i].1@))
}

/// The model of a node.
pub open spec fn node_view(n: HtmlNode) -> NodeView
    decreases n, 0nat,
{
    match n {
        HtmlNode::Text { text } => NodeView::Text { text: text@ },
        HtmlNode::Comment { text } => NodeView::Comment { text: text@ },
        HtmlNode::Element { tag, attrs, children } => NodeView::Element {
            tag: tag@,
            attrs: attrs_view(attrs@),
            children: nodes_view(children@, 0),
        },
    }
}

/// The models of the nodes of `s[i..]`, in order.
pub open spec fn nodes_view(s: Seq<HtmlNode>, i: int) -> Seq<NodeView>
    decreases s, s.len() - i,
{
    if i < 0 || i >= s.len() {
        Seq::empty()
    } else {
        seq![node_view(s[i])] + nodes_view(s, i + 1)
    }
}

impl DeepView for HtmlNode {
    type V = NodeView;

    open spec fn deep_view(&self) -> NodeView {
        node_view(*self)
    }
}

pub proof fn lemma_nodes_view(s: Seq<HtmlNode>, i: int)
    requires
        0 <= i <= s.len(),
    ensures
        nodes_view(s, i).len() == s.len() - i,
        forall|j: int|
            0 <= j < s.len() - i ==> #[trigger] nodes_view(s, i)[j] == node_view(s[i + j]),
    decreases s.len() - i,
{
    if i < s.len() {
        lemma_nodes_view(s, i + 1);
    }
}

/// Size of a node tree: one for the node itself plus the sizes of all
/// descendants.  Serves as the termination measure for every traversal.
pub open spec fn nv_size(n: NodeView) -> nat
    decreases n, 0nat,
{
    match n {
        NodeView::Text { .. } => 1,
        NodeView::Comment { .. } => 1,
        NodeView::Element { children, .. } => 1 + nv_size_from(children, 0),
    }
}

/// Sum of the sizes of `s[i..]`.
pub open spec fn nv_size_from(s: Seq<NodeView>, i: int) -> nat
    decreases s, s.len() - i,
{
    if i < 0 || i >= s.len() {
        0
    } else {
        nv_size(s[i]) + nv_size_from(s, i + 1)
    }
}

pub proof fn lemma_nv_size_pos(n: NodeView)
    ensures
        nv_size(n) >= 1,
{
}

/// Every node of `s[i..]` counts toward the sum.
pub proof fn lemma_nv_size_from_bound(s: Seq<NodeView>, i: int, j: int)
    requires
        0 <= i <= j < s.len(),
    ensures
        nv_size(s[j]) <= nv_size_from(s, i),
    decreases j - i,
{
    if i < j {
        lemma_nv_size_from_bound(s, i + 1, j);
    }
}

/// A child is strictly smaller than its parent element.
pub proof fn lemma_child_size(n: NodeView, j: int)
    requires
        n matches NodeView::Element { children, .. } && 0 <= j < children.len(),
    ensures
        nv_size(n->Element_children[j]) < nv_size(n),
{
    lemma_nv_size_from_bound(n->Element_children, 0, j);
}

/// The tag name of an element, `None` for text and comments.
pub open spec fn nv_tag(n: NodeView) -> Option<Seq<char>> {
    match n {
        NodeView::Element { tag, .. } => Some(tag),
        _ => None,
    }
}

/// The children of an element, empty for text and comments.
pub open spec fn nv_children(n: NodeView) -> Seq<NodeView> {
    match n {
        NodeView::Element { children, .. } => children,
        _ => Seq::empty(),
    }
}

/// The value of the first attribute of `attrs[i..]` named `name`.
pub open spec fn attr_search(
    attrs: Seq<(Seq<char>, Seq<char>)>,
    name: Seq<char>,
    i: int,
) -> Option<Seq<char>>
    decreases attrs.len() - i,
{
    if i < 0 || i >= attrs.len() {
        None
    } else if attrs[i].0 == name {
        Some(attrs[i].1)
    } else {
        attr_search(attrs, name, i + 1)
    }
}

/// The value of attribute `name` on `n`; `None` for non-elements and missing
/// attributes.
pub open spec fn nv_attr(n: NodeView, name: Seq<char>) -> Option<Seq<char>> {
    match n {
        NodeView::Element { attrs, .. } => attr_search(attrs, name, 0),
        _ => None,
    }
}

/// The `class` attribute of `n`, or the empty string when absent.
pub open spec fn nv_class(n: NodeView) -> Seq<char> {
    match nv_attr(n, "class"@) {
        Some(c) => c,
        None => Seq::empty(),
    }
}

/// Whether `n`'s class attribute, split on single spaces, contains `c`
/// (mirrors splitting the raw attribute on `" "`).
pub open spec fn nv_has_class(n: NodeView, c: Seq<char>) -> bool {
    spec_has_token_sp(nv_class(n), c)
}

/// The node predicates the extraction uses when it queries descendants.
pub enum NodePred {
    /// An element with the given tag name.
    Tag(Seq<char>),
    /// An element with the given tag name whose class attribute, split on
    /// whitespace runs, contains the given token.
    TagClassWs(Seq<char>, Seq<char>),
    /// An element with the given tag name and the given `id` attribute.
    TagId(Seq<char>, Seq<char>),
}

pub open spec fn pred_matches(p: NodePred, n: NodeView) -> bool {
    match p {
        NodePred::Tag(t) => nv_tag(n) == Some(t),
        NodePred::TagClassWs(t, c) => nv_tag(n) == Some(t) && (nv_attr(n, "class"@) matches Some(
            cls,
        ) && spec_has_token_ws(cls, c)),
        NodePred::TagId(t, id) => nv_tag(n) == Some(t) && nv_attr(n, "id"@) == Some(id),
    }
}

/// The first strict descendant of `n` matching `p`, in depth-first order.
pub open spec fn find_first_in(n: NodeView, p: NodePred) -> Option<NodeView>
    decreases n, 0nat,
{
    match n {
        NodeView::Element { children, .. } => find_first_seq(children, p, 0),
        _ => None,
    }
}

pub open spec fn find_first_seq(s: Seq<NodeView>, p: NodePred, i: int) -> Option<NodeView>
    decreases s, s.len() - i,
{
    if i < 0 || i >= s.len() {
        None
    } else if pred_matches(p, s[i]) {
        Some(s[i])
    } else {
        match find_first_in(s[i], p) {
            Some(m) => Some(m),
            None => find_first_seq(s, p, i + 1),
        }
    }
}

/// All strict descendants of `n` matching `p`, in depth-first order.
pub open spec fn find_all_in(n: NodeView, p: NodePred) -> Seq<NodeView>
    decreases n, 0nat,
{
    match n {
        NodeView::Element { children, .. } => find_all_seq(children, p, 0),
        _ => Seq::empty(),
    }
}

pub open spec fn find_all_seq(s: Seq<NodeView>, p: NodePred, i: int) -> Seq<NodeView>
    decreases s, s.len() - i,
{
    if i < 0 || i >= s.len() {
        Seq::empty()
    } else {
        let here: Seq<NodeView> = if pred_matches(p, s[i]) {
            seq![s[i]]
        } else {
            Seq::empty()
        };
        here + find_all_in(s[i], p) + find_all_seq(s, p, i + 1)
    }
}

/// The first `p`-tagged strict descendant of `n` together with the node that
/// immediately follows it among its siblings, if any.
pub open spec fn find_pnext_in(n: NodeView) -> Option<(NodeView, Option<NodeView>)>
    decreases n, 0nat,
{
    match n {
        NodeView::Element { children, .. } => find_pnext_seq(children, 0),
        _ => None,
    }
}

pub open spec fn find_pnext_seq(s: Seq<NodeView>, i: int) -> Option<(NodeView, Option<NodeView>)>
    decreases s, s.len() - i,
{
    if i < 0 || i >= s.len() {
        None
    } else if nv_tag(s[i]) == Some("p"@) {
        Some((s[i], if i + 1 < s.len() {
            Some(s[i + 1])
        } else {
            None
        }))
    } else {
        match find_pnext_in(s[i]) {
            Some(r) => Some(r),
            None => find_pnext_seq(s, i + 1),
        }
    }
}

/// The first `dt` element with the given id, paired with its parent element,
/// searching the forest in document order.  A `dt` standing at the top of the
/// forest has no parent and is not a candidate.
pub open spec fn find_sig_in(n: NodeView, id: Seq<char>) -> Option<(NodeView, NodeView)>
    decreases n, 0nat,
{
    match n {
        NodeView::Element { children, .. } => find_sig_seq(n, children, id, 0),
        _ => None,
    }
}

pub open spec fn find_sig_seq(parent: NodeView, s: Seq<NodeView>, id: Seq<char>, i: int) -> Option<
    (NodeView, NodeView),
>
    decreases s, s.len() - i,
{
    if i < 0 || i >= s.len() {
        None
    } else if pred_matches(NodePred::TagId("dt"@, id), s[i]) {
        Some((parent, s[i]))
    } else {
        match find_sig_in(s[i], id) {
            Some(r) => Some(r),
            None => find_sig_seq(parent, s, id, i + 1),
        }
    }
}

pub open spec fn find_sig_forest(roots: Seq<NodeView>, id: Seq<char>, i: int) -> Option<
    (NodeView, NodeView),
>
    decreases roots.len() - i,
{
    if i < 0 || i >= roots.len() {
        None
    } else {
        match find_sig_in(roots[i], id) {
            Some(r) => Some(r),
            None => find_sig_forest(roots, id, i + 1),
        }
    }
}

/// The combined text of `n` and its descendants: text runs in document order;
/// comments contribute nothing.
pub open spec fn spec_text(n: NodeView) -> Seq<char>
    decreases n, 0nat,
{
    match n {
        NodeView::Text { text } => text,
        NodeView::Comment { .. } => Seq::empty(),
        NodeView::Element { children, .. } => texts_from(children, 0),
    }
}

pub open spec fn texts_from(s: Seq<NodeView>, i: int) -> Seq<char>
    decreases s, s.len() - i,
{
    if i < 0 || i >= s.len() {
        Seq::empty()
    } else {
        spec_text(s[i]) + texts_from(s, i + 1)
    }
}

// ------------------------------------------------------------------
// size bounds for the find results
// ------------------------------------------------------------------

pub proof fn lemma_find_first_size(n: NodeView, p: NodePred)
    ensures
        find_first_in(n, p) matches Some(m) ==> nv_size(m) < nv_size(n),
    decreases n, 0nat,
{
    match n {
        NodeView::Element { children, .. } => {
            lemma_find_first_seq_size(children, p, 0);
        },
        _ => {},
    }
}

pub proof fn lemma_find_first_seq_size(s: Seq<NodeView>, p: NodePred, i: int)
    ensures
        find_first_seq(s, p, i) matches Some(m) ==> nv_size(m) <= nv_size_from(s, i),
    decreases s, s.len() - i,
{
    if 0 <= i < s.len() {
        lemma_find_first_size(s[i], p);
        lemma_find_first_seq_size(s, p, i + 1);
    }
}

pub proof fn lemma_find_all_size(n: NodeView, p: NodePred)
    ensures
        forall|k: int|
            0 <= k < find_all_in(n, p).len() ==> nv_size(#[trigger] find_all_in(n, p)[k])
                < nv_size(n),
    decreases n, 0nat,
{
    match n {
        NodeView::Element { children, .. } => {
            lemma_find_all_seq_size(children, p, 0);
            assert forall|k: int| 0 <= k < find_all_in(n, p).len() implies nv_size(
                #[trigger] find_all_in(n, p)[k],
            ) < nv_size(n) by {
                assert(find_all_in(n, p)[k] == find_all_seq(children, p, 0)[k]);
            }
        },
        _ => {},
    }
}

pub proof fn lemma_find_all_seq_size(s: Seq<NodeView>, p: NodePred, i: int)
    ensures
        forall|k: int|
            0 <= k < find_all_seq(s, p, i).len() ==> nv_size(#[trigger] find_all_seq(s, p, i)[k])
                <= nv_size_from(s, i),
    decreases s, s.len() - i,
{
    if 0 <= i < s.len() {
        lemma_find_all_size(s[i], p);
        lemma_find_all_seq_size(s, p, i + 1);
        let here: Seq<NodeView> = if pred_matches(p, s[i]) {
            seq![s[i]]
        } else {
            Seq::empty()
        };
        let a = here + find_all_in(s[i], p);
        let all = a + find_all_seq(s, p, i + 1);
        assert(find_all_seq(s, p, i) == all);
        assert forall|k: int| 0 <= k < all.len() implies nv_size(#[trigger] all[k])
            <= nv_size_from(s, i) by {
            if k < here.len() {
                assert(all[k] == s[i]);
            } else if k < a.len() {
                assert(all[k] == find_all_in(s[i], p)[k - here.len()]);
            } else {
                assert(all[k] == find_all_seq(s, p, i + 1)[k - a.len()]);
            }
        }
    }
}

pub proof fn lemma_find_pnext_size(n: NodeView)
    ensures
        find_pnext_in(n) matches Some(r) ==> nv_size(r.0) < nv_size(n) && (r.1 matches Some(m)
            ==> nv_size(m) < nv_size(n)),
    decreases n, 0nat,
{
    match n {
        NodeView::Element { children, .. } => {
            lemma_find_pnext_seq_size(children, 0);
        },
        _ => {},
    }
}

pub proof fn lemma_find_pnext_seq_size(s: Seq<NodeView>, i: int)
    ensures
        find_pnext_seq(s, i) matches Some(r) ==> nv_size(r.0) <= nv_size_from(s, i) && (r.1
            matches Some(m) ==> nv_size(m) <= nv_size_from(s, i)),
    decreases s, s.len() - i,
{
    if 0 <= i < s.len() {
        if nv_tag(s[i]) == Some("p"@) {
            if i + 1 < s.len() {
                lemma_nv_size_from_bound(s, i, i + 1);
            }
        } else {
            lemma_find_pnext_size(s[i]);
            lemma_find_pnext_seq_size(s, i + 1);
        }
    }
}

// ------------------------------------------------------------------
// executable accessors
// ------------------------------------------------------------------

/// The value of attribute `name`, as the first match in the attribute list.
pub fn get_attr<'a>(n: &'a HtmlNode, name: &str) -> (r: Option<&'a String>)
    ensures
        match r {
            Some(v) => nv_attr(n.deep_view(), name@) == Some(v@),
            None => nv_attr(n.deep_view(), name@) is None,
        },
{
    match n {
        HtmlNode::Element { attrs, .. } => {
            let ghost av = attrs_view(attrs@);
            let mut i: usize = 0;
            while i < attrs.len()
                invariant
                    0 <= i <= attrs.len(),
                    av == attrs_view(attrs@),
                    av.len() == attrs@.len(),
                    attr_search(av, name@, 0) == attr_search(av, name@, i as int),
                    nv_attr(n.deep_view(), name@) == attr_search(av, name@, 0),
                decreases attrs.len() - i,
            {
                if str_is(attrs[i].0.as_str(), name) {
                    return Some(&attrs[i].1);
                }
                i = i + 1;
            }
            None
        },
        _ => None,
    }
}

/// The class attribute's raw value, or the empty string when absent.
pub fn class_value(n: &HtmlNode) -> (r: String)
    ensures
        r@ == nv_class(n.deep_view()),
{
    match get_attr(n, "class") {
        Some(v) => v.clone(),
        None => String::new(),
    }
}

/// Whether `n` is an element named `tag`.
pub fn is_tag(n: &HtmlNode, tag: &str) -> (r: bool)
    ensures
        r == (nv_tag(n.deep_view()) == Some(tag@)),
{
    match n {
        HtmlNode::Element { tag: t, .. } => str_is(t.as_str(), tag),
        _ => false,
    }
}

/// Whether `n` carries class token `c` when its class attribute is split on
/// single spaces.
pub fn has_class(n: &HtmlNode, c: &str) -> (r: bool)
    ensures
        r == nv_has_class(n.deep_view(), c@),
{
    let cls = class_value(n);
    has_token_sp(cls.as_str(), c)
}

/// Evaluates the descendant predicates on one node.
pub fn matches_tag_class_ws(n: &HtmlNode, tag: &str, c: &str) -> (r: bool)
    ensures
        r == pred_matches(NodePred::TagClassWs(tag@, c@), n.deep_view()),
{
    if !is_tag(n, tag) {
        return false;
    }
    match get_attr(n, "class") {
        Some(v) => has_token_ws(v.as_str(), c),
        None => false,
    }
}

pub fn matches_tag_id(n: &HtmlNode, tag: &str, id: &str) -> (r: bool)
    ensures
        r == pred_matches(NodePred::TagId(tag@, id@), n.deep_view()),
{
    if !is_tag(n, tag) {
        return false;
    }
    match get_attr(n, "id") {
        Some(v) => str_is(v.as_str(), id),
        None => false,
    }
}

/// The models of a sequence of node references.
pub open spec fn refs_view(s: Seq<&HtmlNode>) -> Seq<NodeView> {
    Seq::new(s.len(), |i: int| s[i].deep_view())
}

pub proof fn lemma_refs_view_push(s: Seq<&HtmlNode>, x: &HtmlNode)
    ensures
        refs_view(s.push(x)) =~= refs_view(s).push(x.deep_view()),
{
    assert forall|i: int| 0 <= i < s.len() + 1 implies refs_view(s.push(x))[i] == refs_view(
        s,
    ).push(x.deep_view())[i] by {
        if i < s.len() {
            assert(s.push(x)[i] == s[i]);
        } else {
            assert(s.push(x)[i] == x);
        }
    }
}

/// The first strict descendant of `n` that is an element named `tag`.
pub fn find_first_tag<'a>(n: &'a HtmlNode, tag: &str) -> (r: Option<&'a HtmlNode>)
    ensures
        match r {
            Some(m) => find_first_in(n.deep_view(), NodePred::Tag(tag@)) == Some(m.deep_view())
                && nv_size(m.deep_view()) < nv_size(n.deep_view()),
            None => find_first_in(n.deep_view(), NodePred::Tag(tag@)) is None,
        },
    decreases nv_size(n.deep_view()),
{
    let ghost p = NodePred::Tag(tag@);
    match n {
        HtmlNode::Element { children, .. } => {
            let ghost cs = nodes_view(children@, 0);
            proof {
                lemma_nodes_view(children@, 0);
                assert(find_first_in(n.deep_view(), p) == find_first_seq(cs, p, 0));
            }
            let mut j: usize = 0;
            while j < children.len()
                invariant
                    0 <= j <= children.len(),
                    cs == nodes_view(children@, 0),
                    cs.len() == children@.len(),
                    forall|k: int|
                        0 <= k < children@.len() ==> #[trigger] cs[k] == node_view(children@[k]),
                    find_first_in(n.deep_view(), p) == find_first_seq(cs, p, j as int),
                    n.deep_view() matches NodeView::Element { children: csx, .. } && csx == cs,
                    p == NodePred::Tag(tag@),
                decreases children.len() - j,
            {
                proof {
                    lemma_child_size(n.deep_view(), j as int);
                }
                if is_tag(&children[j], tag) {
                    return Some(&children[j]);
                }
                let sub = find_first_tag(&children[j], tag);
                if let Some(m) = sub {
                    proof {
                        lemma_find_first_size(n.deep_view(), p);
                    }
                    return Some(m);
                }
                j = j + 1;
            }
            None
        },
        _ => None,
    }
}

/// All strict descendants of `n` matching the predicate; the two callers use
/// a plain tag predicate and a tag-with-class predicate.
pub fn find_all_tag<'a>(n: &'a HtmlNode, tag: &str) -> (r: Vec<&'a HtmlNode>)
    ensures
        refs_view(r@) == find_all_in(n.deep_view(), NodePred::Tag(tag@)),
        forall|k: int|
            0 <= k < r@.len() ==> nv_size(#[trigger] r@[k].deep_view()) < nv_size(n.deep_view()),
    decreases nv_size(n.deep_view()),
{
    let ghost p = NodePred::Tag(tag@);
    let r = find_all_go(n, tag, None);
    proof {
        lemma_find_all_size(n.deep_view(), p);
        assert forall|k: int| 0 <= k < r@.len() implies nv_size(#[trigger] r@[k].deep_view())
            < nv_size(n.deep_view()) by {
            assert(r@[k].deep_view() == refs_view(r@)[k]);
        }
    }
    r
}

pub fn find_all_tag_class_ws<'a>(n: &'a HtmlNode, tag: &str, cls: &str) -> (r: Vec<
    &'a HtmlNode,
>)
    ensures
        refs_view(r@) == find_all_in(n.deep_view(), NodePred::TagClassWs(tag@, cls@)),
        forall|k: int|
            0 <= k < r@.len() ==> nv_size(#[trigger] r@[k].deep_view()) < nv_size(n.deep_view()),
    decreases nv_size(n.deep_view()),
{
    let ghost p = NodePred::TagClassWs(tag@, cls@);
    let r = find_all_go(n, tag, Some(cls));
    proof {
        lemma_find_all_size(n.deep_view(), p);
        assert forall|k: int| 0 <= k < r@.len() implies nv_size(#[trigger] r@[k].deep_view())
            < nv_size(n.deep_view()) by {
            assert(r@[k].deep_view() == refs_view(r@)[k]);
        }
    }
    r
}

/// Shared worker for the two descendant collectors: `cls` of `None` means a
/// plain tag match, otherwise a tag-and-class match.
fn find_all_go<'a>(n: &'a HtmlNode, tag: &str, cls: Option<&str>) -> (r: Vec<&'a HtmlNode>)
    ensures
        refs_view(r@) == find_all_in(
            n.deep_view(),
            match cls {
                Some(c) => NodePred::TagClassWs(tag@, c@),
                None => NodePred::Tag(tag@),
            },
        ),
    decreases nv_size(n.deep_view()), 1nat,
{
    let ghost p = match cls {
        Some(c) => NodePred::TagClassWs(tag@, c@),
        None => NodePred::Tag(tag@),
    };
    let mut out: Vec<&'a HtmlNode> = Vec::new();
    match n {
        HtmlNode::Element { children, .. } => {
            let ghost cs = nodes_view(children@, 0);
            proof {
                lemma_nodes_view(children@, 0);
                assert(find_all_in(n.deep_view(), p) == find_all_seq(cs, p, 0));
                assert(refs_view(out@) =~= Seq::<NodeView>::empty());
                assert(Seq::<NodeView>::empty() + find_all_seq(cs, p, 0) =~= find_all_seq(
                    cs,
                    p,
                    0,
                ));
            }
            let mut j: usize = 0;
            while j < children.len()
                invariant
                    0 <= j <= children.len(),
                    cs == nodes_view(children@, 0),
                    cs.len() == children@.len(),
                    forall|k: int|
                        0 <= k < children@.len() ==> #[trigger] cs[k] == node_view(children@[k]),
                    find_all_in(n.deep_view(), p) == refs_view(out@) + find_all_seq(
                        cs,
                        p,
                        j as int,
                    ),
                    n.deep_view() matches NodeView::Element { children: csx, .. } && csx == cs,
                    p == (match cls {
                        Some(c) => NodePred::TagClassWs(tag@, c@),
                        None => NodePred::Tag(tag@),
                    }),
                decreases children.len() - j,
            {
                proof {
                    lemma_child_size(n.deep_view(), j as int);
                }
                let matched: bool = match cls {
                    Some(c) => matches_tag_class_ws(&children[j], tag, c),
                    None => is_tag(&children[j], tag),
                };
                let ghost before = refs_view(out@);
                let ghost here: Seq<NodeView> = if pred_matches(p, cs[j as int]) {
                    seq![cs[j as int]]
                } else {
                    Seq::empty()
                };
                if matched {
                    let ghost pre = out@;
                    out.push(&children[j]);
                    proof {
                        lemma_refs_view_push(pre, &children[j as int]);
                    }
                }
                proof {
                    assert(refs_view(out@) =~= before + here);
                }
                let sub = find_all_go(&children[j], tag, cls);
                let ghost mid = refs_view(out@);
                let mut k: usize = 0;
                while k < sub.len()
                    invariant
                        0 <= k <= sub.len(),
                        refs_view(sub@) == find_all_in(cs[j as int], p),
                        refs_view(out@) =~= mid + refs_view(sub@).subrange(0, k as int),
                    decreases sub.len() - k,
                {
                    let ghost pre = out@;
                    out.push(sub[k]);
                    proof {
                        lemma_refs_view_push(pre, sub@[k as int]);
                        assert(refs_view(sub@)[k as int] == sub@[k as int].deep_view());
                        assert(refs_view(out@) =~= mid + refs_view(sub@).subrange(0, k + 1));
                    }
                    k = k + 1;
                }
                proof {
                    assert(refs_view(sub@).subrange(0, sub@.len() as int) =~= refs_view(sub@));
                    assert(refs_view(out@) =~= before + (here + find_all_in(cs[j as int], p)));
                    assert(find_all_seq(cs, p, j as int) == (here + find_all_in(cs[j as int], p))
                        + find_all_seq(cs, p, j + 1));
                    assert(before + ((here + find_all_in(cs[j as int], p)) + find_all_seq(
                        cs,
                        p,
                        j + 1,
                    )) =~= (before + (here + find_all_in(cs[j as int], p))) + find_all_seq(
                        cs,
                        p,
                        j + 1,
                    ));
                }
                j = j + 1;
            }
            proof {
                assert(refs_view(out@) + find_all_seq(cs, p, children@.len() as int) =~= refs_view(
                    out@,
                ));
            }
        },
        _ => {
            proof {
                assert(refs_view(out@) =~= Seq::<NodeView>::empty());
                assert(find_all_in(n.deep_view(), p) =~= Seq::<NodeView>::empty());
            }
        },
    }
    out
}

/// The first `p` descendant of `n` and the node immediately following it
/// among its siblings.
pub fn find_pnext<'a>(n: &'a HtmlNode) -> (r: Option<(&'a HtmlNode, Option<&'a HtmlNode>)>)
    ensures
        match r {
            Some((pn, sib)) => find_pnext_in(n.deep_view()) == Some(
                (
                    pn.deep_view(),
                    match sib {
                        Some(s) => Some(s.deep_view()),
                        None => None,
                    },
                ),
            ) && nv_size(pn.deep_view()) < nv_size(n.deep_view()) && (sib matches Some(s)
                ==> nv_size(s.deep_view()) < nv_size(n.deep_view())),
            None => find_pnext_in(n.deep_view()) is None,
        },
    decreases nv_size(n.deep_view()),
{
    match n {
        HtmlNode::Element { children, .. } => {
            let ghost cs = nodes_view(children@, 0);
            proof {
                lemma_nodes_view(children@, 0);
                assert(find_pnext_in(n.deep_view()) == find_pnext_seq(cs, 0));
            }
            let mut j: usize = 0;
            while j < children.len()
                invariant
                    0 <= j <= children.len(),
                    cs == nodes_view(children@, 0),
                    cs.len() == children@.len(),
                    forall|k: int|
                        0 <= k < children@.len() ==> #[trigger] cs[k] == node_view(children@[k]),
                    find_pnext_in(n.deep_view()) == find_pnext_seq(cs, j as int),
                    n.deep_view() matches NodeView::Element { children: csx, .. } && csx == cs,
                decreases children.len() - j,
            {
                proof {
                    lemma_child_size(n.deep_view(), j as int);
                }
                if is_tag(&children[j], "p") {
                    let sib: Option<&'a HtmlNode> = if j + 1 < children.len() {
                        proof {
                            lemma_child_size(n.deep_view(), j + 1);
                        }
                        Some(&children[j + 1])
                    } else {
                        None
                    };
                    return Some((&children[j], sib));
                }
                let sub = find_pnext(&children[j]);
                if let Some(rr) = sub {
                    proof {
                        lemma_find_pnext_size(n.deep_view());
                    }
                    return Some(rr);
                }
                j = j + 1;
            }
            None
        },
        _ => None,
    }
}

/// The first `dt` element with id `id`, paired with its parent, in document
/// order over the forest.
pub fn find_sig<'a>(roots: &'a Vec<HtmlNode>, id: &str) -> (r: Option<
    (&'a HtmlNode, &'a HtmlNode),
>)
    ensures
        match r {
            Some((parent, dt)) => find_sig_forest(nodes_view(roots@, 0), id@, 0) == Some(
                (parent.deep_view(), dt.deep_view()),
            ),
            None => find_sig_forest(nodes_view(roots@, 0), id@, 0) is None,
        },
{
    let ghost rs = nodes_view(roots@, 0);
    proof {
        lemma_nodes_view(roots@, 0);
    }
    let mut j: usize = 0;
    while j < roots.len()
        invariant
            0 <= j <= roots.len(),
            rs == nodes_view(roots@, 0),
            rs.len() == roots@.len(),
            forall|k: int| 0 <= k < roots@.len() ==> #[trigger] rs[k] == node_view(roots@[k]),
            find_sig_forest(rs, id@, 0) == find_sig_forest(rs, id@, j as int),
        decreases roots.len() - j,
    {
        let sub = find_sig_node(&roots[j], id);
        if let Some(rr) = sub {
            return Some(rr);
        }
        j = j + 1;
    }
    None
}

fn find_sig_node<'a>(n: &'a HtmlNode, id: &str) -> (r: Option<(&'a HtmlNode, &'a HtmlNode)>)
    ensures
        match r {
            Some((parent, dt)) => find_sig_in(n.deep_view(), id@) == Some(
                (parent.deep_view(), dt.deep_view()),
            ),
            None => find_sig_in(n.deep_view(), id@) is None,
        },
    decreases nv_size(n.deep_view()),
{
    match n {
        HtmlNode::Element { children, .. } => {
            let ghost cs = nodes_view(children@, 0);
            proof {
                lemma_nodes_view(children@, 0);
                assert(find_sig_in(n.deep_view(), id@) == find_sig_seq(
                    n.deep_view(),
                    cs,
                    id@,
                    0,
                ));
            }
            let mut j: usize = 0;
            while j < children.len()
                invariant
                    0 <= j <= children.len(),
                    cs == nodes_view(children@, 0),
                    cs.len() == children@.len(),
                    forall|k: int|
                        0 <= k < children@.len() ==> #[trigger] cs[k] == node_view(children@[k]),
                    find_sig_in(n.deep_view(), id@) == find_sig_seq(
                        n.deep_view(),
                        cs,
                        id@,
                        j as int,
                    ),
                    n.deep_view() matches NodeView::Element { children: csx, .. } && csx == cs,
                decreases children.len() - j,
            {
                proof {
                    lemma_child_size(n.deep_view(), j as int);
                }
                if matches_tag_id(&children[j], "dt", id) {
                    return Some((n, &children[j]));
                }
                let sub = find_sig_node(&children[j], id);
                if let Some(rr) = sub {
                    return Some(rr);
                }
                j = j + 1;
            }
            None
        },
        _ => None,
    }
}

/// The combined text of `n` and its descendants.
pub fn node_text(n: &HtmlNode) -> (r: String)
    ensures
        r@ == spec_text(n.deep_view()),
    decreases nv_size(n.deep_view()),
{
    match n {
        HtmlNode::Text { text } => text.clone(),
        HtmlNode::Comment { .. } => String::new(),
        HtmlNode::Element { children, .. } => {
            let ghost cs = nodes_view(children@, 0);
            proof {
                lemma_nodes_view(children@, 0);
            }
            let mut out = String::new();
            let mut j: usize = 0;
            while j < children.len()
                invariant
                    0 <= j <= children.len(),
                    cs == nodes_view(children@, 0),
                    cs.len() == children@.len(),
                    forall|k: int|
                        0 <= k < children@.len() ==> #[trigger] cs[k] == node_view(children@[k]),
                    spec_text(n.deep_view()) == out@ + texts_from(cs, j as int),
                    nv_size(n.deep_view()) == 1 + nv_size_from(cs, 0),
                decreases children.len() - j,
            {
                proof {
                    lemma_nv_size_from_bound(cs, 0, j as int);
                }
                let t = node_text(&children[j]);
                out.append(t.as_str());
                j = j + 1;
            }
            proof {
                assert(out@ + texts_from(cs, children@.len() as int) =~= out@);
            }
            out
        },
    }
}

} // verus!
