use vstd::prelude::*;

verus! {

use crate::tree::{
    HtmlNode, NodeView, node_view, nodes_view, nv_size, nv_tag, nv_attr, nv_has_class,
    lemma_nodes_view, lemma_child_size, get_attr, is_tag, has_class,
    nv_size_from, lemma_nv_size_from_bound,
};
use vstd::string::StrSliceExecFns;

/// One structurally significant child: a raw text run or an element the
/// content parser will interpret.
pub enum WrappedNode<'a> {
    Text(String),
    Element(&'a HtmlNode),
}

/// The model of a walked item.
pub enum ContentView {
    Text(Seq<char>),
    Element(NodeView),
}

pub open spec fn content_view(c: WrappedNode) -> ContentView {
    match c {
        WrappedNode::Text(t) => ContentView::Text(t@),
        WrappedNode::Element(e) => ContentView::Element(e.deep_view()),
    }
}

pub open spec fn cn_views(s: Seq<WrappedNode>) -> Seq<ContentView> {
    Seq::new(s.len(), |i: int| content_view(s[i]))
}

/// The tags that are emitted as elements without flattening.
pub open spec fn allowed_tag(t: Seq<char>) -> bool {
    t == "p"@ || t == "a"@ || t == "b"@ || t == "i"@ || t == "em"@ || t == "strong"@ || t == "u"@
        || t == "ul"@ || t == "ol"@ || t == "code"@
}

/// Heading-like tags: anything beginning with `h`.
pub open spec fn h_tag(t: Seq<char>) -> bool {
    t.len() > 0 && t[0] == 'h'
}

/// The division classes the content parser interprets by class.
pub open spec fn div_special(c: NodeView) -> bool {
    nv_has_class(c, "admonition"@) || nv_has_class(c, "operations"@) || nv_has_class(
        c,
        "highlight-python3"@,
    ) || nv_has_class(c, "highlight-default"@)
}

/// The ordered, structurally significant children of `n`.
///
/// Text runs are kept when non-empty; a fixed set of tags and heading-like
/// tags are emitted as elements; an element without a `class` attribute is
/// skipped; a definition list is emitted only with class `field-list` and
/// otherwise ends the walk, dropping all later siblings; a division with one
/// of the recognized classes is emitted; anything else is flattened in place.
pub open spec fn spec_walk(n: NodeView) -> Seq<ContentView>
    decreases n, 0nat,
{
    match n {
        NodeView::Element { children, .. } => walk_seq(children, 0),
        _ => Seq::empty(),
    }
}

pub open spec fn walk_seq(s: Seq<NodeView>, i: int) -> Seq<ContentView>
    decreases s, s.len() - i,
{
    if i < 0 || i >= s.len() {
        Seq::empty()
    } else {
        let c = s[i];
        match c {
            NodeView::Text { text } => (if text.len() > 0 {
                seq![ContentView::Text(text)]
            } else {
                Seq::empty()
            }) + walk_seq(s, i + 1),
            NodeView::Comment { .. } => walk_seq(s, i + 1),
            NodeView::Element { tag, .. } => {
                if allowed_tag(tag) || h_tag(tag) {
                    seq![ContentView::Element(c)] + walk_seq(s, i + 1)
                } else if nv_attr(c, "class"@) is None {
                    walk_seq(s, i + 1)
                } else if tag == "dl"@ {
                    if nv_has_class(c, "field-list"@) {
                        seq![ContentView::Element(c)] + walk_seq(s, i + 1)
                    } else {
                        Seq::empty()
                    }
                } else if tag == "div"@ && div_special(c) {
                    seq![ContentView::Element(c)] + walk_seq(s, i + 1)
                } else {
                    spec_walk(c) + walk_seq(s, i + 1)
                }
            },
        }
    }
}

/// Every element a walk emits is a strict descendant of the walked node.
pub proof fn lemma_walk_size(n: NodeView)
    ensures
        forall|k: int|
            0 <= k < spec_walk(n).len() ==> (#[trigger] spec_walk(n)[k] matches
                ContentView::Element(e) ==> nv_size(e) < nv_size(n)),
    decreases n, 0nat,
{
    match n {
        NodeView::Element { children, .. } => {
            lemma_walk_seq_size(children, 0);
        },
        _ => {},
    }
}

pub proof fn lemma_walk_seq_size(s: Seq<NodeView>, i: int)
    ensures
        forall|k: int|
            0 <= k < walk_seq(s, i).len() ==> (#[trigger] walk_seq(s, i)[k] matches
                ContentView::Element(e) ==> nv_size(e) <= nv_size_from(s, i)),
    decreases s, s.len() - i,
{
    if 0 <= i < s.len() {
        lemma_walk_seq_size(s, i + 1);
        lemma_walk_size(s[i]);
        let rest = walk_seq(s, i + 1);
        let c = s[i];
        assert forall|k: int| 0 <= k < walk_seq(s, i).len() implies (#[trigger] walk_seq(s, i)[k]
            matches ContentView::Element(e) ==> nv_size(e) <= nv_size_from(s, i)) by {
            match c {
                NodeView::Text { text } => {
                    let here: Seq<ContentView> = if text.len() > 0 {
                        seq![ContentView::Text(text)]
                    } else {
                        Seq::empty()
                    };
                    if k >= here.len() {
                        assert(walk_seq(s, i)[k] == rest[k - here.len()]);
                    }
                },
                NodeView::Comment { .. } => {},
                NodeView::Element { tag, .. } => {
                    if allowed_tag(tag) || h_tag(tag) || (!(nv_attr(c, "class"@) is None) && (tag
                        == "dl"@ && nv_has_class(c, "field-list"@) || tag == "div"@ && !(tag
                        == "dl"@) && div_special(c))) {
                        if k >= 1 {
                            assert(walk_seq(s, i)[k] == rest[k - 1]);
                        } else {
                            assert(walk_seq(s, i)[k] == ContentView::Element(c));
                        }
                    } else if nv_attr(c, "class"@) is None || tag == "dl"@ {
                    } else {
                        let spliced = spec_walk(c);
                        if k < spliced.len() {
                            assert(walk_seq(s, i)[k] == spliced[k]);
                        } else {
                            assert(walk_seq(s, i)[k] == rest[k - spliced.len()]);
                        }
                    }
                },
            }
        }
    }
}

proof fn lemma_cn_views_push(s: Seq<WrappedNode>, x: WrappedNode)
    ensures
        cn_views(s.push(x)) =~= cn_views(s).push(content_view(x)),
{
    assert forall|i: int| 0 <= i < s.len() + 1 implies cn_views(s.push(x))[i] == cn_views(s).push(
        content_view(x),
    )[i] by {
        if i < s.len() {
            assert(s.push(x)[i] == s[i]);
        } else {
            assert(s.push(x)[i] == x);
        }
    }
}

fn tag_allowed(n: &HtmlNode) -> (r: bool)
    ensures
        match n.deep_view() {
            NodeView::Element { tag, .. } => r == allowed_tag(tag),
            _ => true,
        },
{
    is_tag(n, "p") || is_tag(n, "a") || is_tag(n, "b") || is_tag(n, "i") || is_tag(n, "em")
        || is_tag(n, "strong") || is_tag(n, "u") || is_tag(n, "ul") || is_tag(n, "ol") || is_tag(
        n,
        "code",
    )
}

fn tag_h(n: &HtmlNode) -> (r: bool)
    ensures
        match n.deep_view() {
            NodeView::Element { tag, .. } => r == h_tag(tag),
            _ => true,
        },
{
    match n {
        HtmlNode::Element { tag, .. } => {
            if tag.as_str().unicode_len() > 0 {
                let c = tag.as_str().get_char(0);
                c == 'h'
            } else {
                false
            }
        },
        _ => false,
    }
}

fn div_is_special(n: &HtmlNode) -> (r: bool)
    ensures
        r == div_special(n.deep_view()),
{
    has_class(n, "admonition") || has_class(n, "operations") || has_class(n, "highlight-python3")
        || has_class(n, "highlight-default")
}

/// Walks the immediate children of `node`, classifying each as the
/// specification `spec_walk` describes.
pub fn walk_nodes<'a>(node: &'a HtmlNode) -> (r: Vec<WrappedNode<'a>>)
    ensures
        cn_views(r@) == spec_walk(node.deep_view()),
        forall|k: int|
            0 <= k < r@.len() ==> (#[trigger] r@[k] matches WrappedNode::Element(e) ==> nv_size(
                e.deep_view(),
            ) < nv_size(node.deep_view())),
    decreases nv_size(node.deep_view()),
{
    let mut out: Vec<WrappedNode<'a>> = Vec::new();
    match node {
        HtmlNode::Element { children, .. } => {
            let ghost cs = nodes_view(children@, 0);
            proof {
                lemma_nodes_view(children@, 0);
                assert(spec_walk(node.deep_view()) == walk_seq(cs, 0));
                assert(cn_views(out@) =~= Seq::<ContentView>::empty());
                assert(Seq::<ContentView>::empty() + walk_seq(cs, 0) =~= walk_seq(cs, 0));
            }
            let mut j: usize = 0;
            while j < children.len()
                invariant
                    0 <= j <= children.len(),
                    cs == nodes_view(children@, 0),
                    cs.len() == children@.len(),
                    forall|k: int|
                        0 <= k < children@.len() ==> #[trigger] cs[k] == node_view(children@[k]),
                    spec_walk(node.deep_view()) == cn_views(out@) + walk_seq(cs, j as int),
                    node.deep_view() matches NodeView::Element { children: csx, .. } && csx == cs,
                    forall|k: int|
                        0 <= k < out@.len() ==> (#[trigger] out@[k] matches WrappedNode::Element(e)
                            ==> nv_size(e.deep_view()) < nv_size(node.deep_view())),
                decreases children.len() - j,
            {
                let child = &children[j];
                proof {
                    lemma_child_size(node.deep_view(), j as int);
                }
                match child {
                    HtmlNode::Text { text } => {
                        if !text.as_str().is_empty() {
                            let ghost pre = out@;
                            let item = WrappedNode::Text(text.clone());
                            proof {
                                assert(content_view(item) == ContentView::Text(text@));
                            }
                            out.push(item);
                            proof {
                                lemma_cn_views_push(pre, item);
                                assert(cn_views(pre) + (seq![ContentView::Text(text@)]
                                    + walk_seq(cs, j + 1)) =~= (cn_views(pre) + seq![
                                    ContentView::Text(text@),
                                ]) + walk_seq(cs, j + 1));
                                assert(cn_views(out@) =~= cn_views(pre) + seq![
                                    ContentView::Text(text@),
                                ]);
                            }
                        } else {
                            proof {
                                assert(Seq::<ContentView>::empty() + walk_seq(cs, j + 1)
                                    =~= walk_seq(cs, j + 1));
                            }
                        }
                    },
                    HtmlNode::Comment { .. } => {},
                    HtmlNode::Element { .. } => {
                        if tag_allowed(child) || tag_h(child) {
                            let ghost pre = out@;
                            out.push(WrappedNode::Element(child));
                            proof {
                                lemma_cn_views_push(pre, WrappedNode::Element(child));
                                assert(cn_views(pre) + (seq![
                                    ContentView::Element(cs[j as int]),
                                ] + walk_seq(cs, j + 1)) =~= (cn_views(pre) + seq![
                                    ContentView::Element(cs[j as int]),
                                ]) + walk_seq(cs, j + 1));
                                assert(cn_views(out@) =~= cn_views(pre) + seq![
                                    ContentView::Element(cs[j as int]),
                                ]);
                            }
                        } else if get_attr(child, "class").is_none() {
                        } else if is_tag(child, "dl") {
                            if has_class(child, "field-list") {
                                let ghost pre = out@;
                                out.push(WrappedNode::Element(child));
                                proof {
                                    lemma_cn_views_push(pre, WrappedNode::Element(child));
                                    assert(cn_views(pre) + (seq![
                                        ContentView::Element(cs[j as int]),
                                    ] + walk_seq(cs, j + 1)) =~= (cn_views(pre) + seq![
                                        ContentView::Element(cs[j as int]),
                                    ]) + walk_seq(cs, j + 1));
                                    assert(cn_views(out@) =~= cn_views(pre) + seq![
                                        ContentView::Element(cs[j as int]),
                                    ]);
                                }
                            } else {
                                proof {
                                    assert(walk_seq(cs, j as int) =~= Seq::<ContentView>::empty());
                                    assert(cn_views(out@) + Seq::<ContentView>::empty()
                                        =~= cn_views(out@));
                                }
                                return out;
                            }
                        } else if is_tag(child, "div") && div_is_special(child) {
                            let ghost pre = out@;
                            out.push(WrappedNode::Element(child));
                            proof {
                                lemma_cn_views_push(pre, WrappedNode::Element(child));
                                assert(cn_views(pre) + (seq![
                                    ContentView::Element(cs[j as int]),
                                ] + walk_seq(cs, j + 1)) =~= (cn_views(pre) + seq![
                                    ContentView::Element(cs[j as int]),
                                ]) + walk_seq(cs, j + 1));
                                assert(cn_views(out@) =~= cn_views(pre) + seq![
                                    ContentView::Element(cs[j as int]),
                                ]);
                            }
                        } else {
                            let sub = walk_nodes(child);
                            let ghost mid = cn_views(out@);
                            let mut k: usize = 0;
                            while k < sub.len()
                                invariant
                                    0 <= k <= sub.len(),
                                    cn_views(sub@) == spec_walk(child.deep_view()),
                                    cn_views(out@) =~= mid + cn_views(sub@).subrange(
                                        0,
                                        k as int,
                                    ),
                                    forall|m: int|
                                        0 <= m < sub@.len() ==> (#[trigger] sub@[m] matches
                                            WrappedNode::Element(e) ==> nv_size(e.deep_view())
                                            < nv_size(child.deep_view())),
                                    nv_size(child.deep_view()) < nv_size(node.deep_view()),
                                    forall|m: int|
                                        0 <= m < out@.len() ==> (#[trigger] out@[m] matches
                                            WrappedNode::Element(e) ==> nv_size(e.deep_view())
                                            < nv_size(node.deep_view())),
                                decreases sub.len() - k,
                            {
                                let ghost pre = out@;
                                let item = match &sub[k] {
                                    WrappedNode::Text(t) => WrappedNode::Text(t.clone()),
                                    WrappedNode::Element(e) => WrappedNode::Element(*e),
                                };
                                proof {
                                    assert(content_view(item) == content_view(sub@[k as int]));
                                }
                                out.push(item);
                                proof {
                                    lemma_cn_views_push(pre, item);
                                    assert(cn_views(sub@)[k as int] == content_view(
                                        sub@[k as int],
                                    ));
                                    assert(cn_views(out@) =~= mid + cn_views(sub@).subrange(
                                        0,
                                        k + 1,
                                    ));
                                }
                                k = k + 1;
                            }
                            proof {
                                assert(cn_views(sub@).subrange(0, sub@.len() as int) =~= cn_views(
                                    sub@,
                                ));
                                assert(cn_views(out@) =~= mid + spec_walk(cs[j as int]));
                                assert(walk_seq(cs, j as int) == spec_walk(cs[j as int])
                                    + walk_seq(cs, j + 1));
                                assert(mid + (spec_walk(cs[j as int]) + walk_seq(cs, j + 1)) =~= (
                                mid + spec_walk(cs[j as int])) + walk_seq(cs, j + 1));
                            }
                        }
                    },
                }
                j = j + 1;
            }
            proof {
                assert(cn_views(out@) + walk_seq(cs, children@.len() as int) =~= cn_views(out@));
            }
            out
        },
        _ => {
            proof {
                assert(cn_views(out@) =~= Seq::<ContentView>::empty());
            }
            out
        },
    }
}

} // verus!
