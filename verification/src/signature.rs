use vstd::prelude::*;

verus! {

use crate::tree::{
    HtmlNode, NodeView, node_view, nodes_view, nv_size, nv_tag, nv_has_class, spec_text,
    lemma_nodes_view, lemma_child_size, is_tag, has_class, node_text,
};

/// The colors a signature token can take.
#[derive(Clone, Copy, PartialEq, Eq, Structural, Debug)]
pub enum Color {
    Gray,
    Green,
    Yellow,
    Cyan,
    White,
    Red,
}

/// One colored token of a rendered signature.
#[derive(Debug)]
pub struct AnsiStringSection {
    pub content: String,
    pub bold: bool,
    pub color: Color,
}

/// The model of a token.
pub struct SpanView {
    pub content: Seq<char>,
    pub bold: bool,
    pub color: Color,
}

impl DeepView for AnsiStringSection {
    type V = SpanView;

    open spec fn deep_view(&self) -> SpanView {
        SpanView { content: self.content@, bold: self.bold, color: self.color }
    }
}

pub open spec fn spans_view(s: Seq<AnsiStringSection>) -> Seq<SpanView> {
    Seq::new(s.len(), |i: int| s[i].deep_view())
}

/// The tokens of one signature child.
pub open spec fn sig_item(c: NodeView) -> Seq<SpanView>
    decreases c, 1nat,
{
    match c {
        NodeView::Text { text } => seq![
            SpanView { content: text, bold: true, color: Color::Gray },
        ],
        NodeView::Comment { .. } => Seq::empty(),
        NodeView::Element { tag, .. } => {
            if tag == "em"@ && !nv_has_class(c, "sig-param"@) {
                seq![SpanView { content: spec_text(c), bold: false, color: Color::Green }]
            } else if nv_has_class(c, "sig-paren"@) || nv_has_class(c, "o"@) {
                seq![SpanView { content: spec_text(c), bold: true, color: Color::Gray }]
            } else if nv_has_class(c, "n"@) {
                seq![SpanView { content: spec_text(c), bold: false, color: Color::Yellow }]
            } else if nv_has_class(c, "default_value"@) {
                seq![SpanView { content: spec_text(c), bold: false, color: Color::Cyan }]
            } else if nv_has_class(c, "sig-prename"@) {
                seq![
                    SpanView {
                        content: spec_text(c),
                        bold: false,
                        color: if nv_has_class(c, "descclassname"@) {
                            Color::White
                        } else {
                            Color::Red
                        },
                    },
                ]
            } else if nv_has_class(c, "descname"@) || nv_has_class(c, "sig-name"@) {
                seq![SpanView { content: spec_text(c), bold: true, color: Color::White }]
            } else if nv_has_class(c, "sig-param"@) {
                sig_spans(c)
            } else {
                Seq::empty()
            }
        },
    }
}

/// The ordered tokens of a signature element: its direct children classified
/// by tag and class, with `sig-param` wrappers spliced in place.
pub open spec fn sig_spans(n: NodeView) -> Seq<SpanView>
    decreases n, 0nat,
{
    match n {
        NodeView::Element { children, .. } => sig_seq(children, 0),
        _ => Seq::empty(),
    }
}

pub open spec fn sig_seq(s: Seq<NodeView>, i: int) -> Seq<SpanView>
    decreases s, s.len() - i,
{
    if i < 0 || i >= s.len() {
        Seq::empty()
    } else {
        sig_item(s[i]) + sig_seq(s, i + 1)
    }
}

proof fn lemma_spans_view_push(s: Seq<AnsiStringSection>, x: AnsiStringSection)
    ensures
        spans_view(s.push(x)) =~= spans_view(s).push(x.deep_view()),
{
    assert forall|i: int| 0 <= i < s.len() + 1 implies spans_view(s.push(x))[i] == spans_view(
        s,
    ).push(x.deep_view())[i] by {
        if i < s.len() {
            assert(s.push(x)[i] == s[i]);
        } else {
            assert(s.push(x)[i] == x);
        }
    }
}

fn copy_span(s: &AnsiStringSection) -> (r: AnsiStringSection)
    ensures
        r.deep_view() == s.deep_view(),
{
    AnsiStringSection { content: s.content.clone(), bold: s.bold, color: s.color }
}

/// Converts a signature element's children into the ordered token list.
pub fn parse_signature_node(node: &HtmlNode) -> (r: Vec<AnsiStringSection>)
    ensures
        spans_view(r@) == sig_spans(node.deep_view()),
    decreases nv_size(node.deep_view()),
{
    let mut out: Vec<AnsiStringSection> = Vec::new();
    match node {
        HtmlNode::Element { children, .. } => {
            let ghost cs = nodes_view(children@, 0);
            proof {
                lemma_nodes_view(children@, 0);
                assert(sig_spans(node.deep_view()) == sig_seq(cs, 0));
                assert(spans_view(out@) =~= Seq::<SpanView>::empty());
                assert(Seq::<SpanView>::empty() + sig_seq(cs, 0) =~= sig_seq(cs, 0));
            }
            let mut j: usize = 0;
            while j < children.len()
                invariant
                    0 <= j <= children.len(),
                    cs == nodes_view(children@, 0),
                    cs.len() == children@.len(),
                    forall|k: int|
                        0 <= k < children@.len() ==> #[trigger] cs[k] == node_view(children@[k]),
                    sig_spans(node.deep_view()) == spans_view(out@) + sig_seq(cs, j as int),
                    node.deep_view() matches NodeView::Element { children: csx, .. } && csx == cs,
                decreases children.len() - j,
            {
                let child = &children[j];
                proof {
                    lemma_child_size(node.deep_view(), j as int);
                }
                let ghost pre = out@;
                match child {
                    HtmlNode::Text { text } => {
                        let item = AnsiStringSection {
                            content: text.clone(),
                            bold: true,
                            color: Color::Gray,
                        };
                        out.push(item);
                        proof {
                            lemma_spans_view_push(pre, item);
                        }
                    },
                    HtmlNode::Comment { .. } => {},
                    HtmlNode::Element { .. } => {
                        if is_tag(child, "em") && !has_class(child, "sig-param") {
                            let item = AnsiStringSection {
                                content: node_text(child),
                                bold: false,
                                color: Color::Green,
                            };
                            out.push(item);
                            proof {
                                lemma_spans_view_push(pre, item);
                            }
                        } else if has_class(child, "sig-paren") || has_class(child, "o") {
                            let item = AnsiStringSection {
                                content: node_text(child),
                                bold: true,
                                color: Color::Gray,
                            };
                            out.push(item);
                            proof {
                                lemma_spans_view_push(pre, item);
                            }
                        } else if has_class(child, "n") {
                            let item = AnsiStringSection {
                                content: node_text(child),
                                bold: false,
                                color: Color::Yellow,
                            };
                            out.push(item);
                            proof {
                                lemma_spans_view_push(pre, item);
                            }
                        } else if has_class(child, "default_value") {
                            let item = AnsiStringSection {
                                content: node_text(child),
                                bold: false,
                                color: Color::Cyan,
                            };
                            out.push(item);
                            proof {
                                lemma_spans_view_push(pre, item);
                            }
                        } else if has_class(child, "sig-prename") {
                            let col = if has_class(child, "descclassname") {
                                Color::White
                            } else {
                                Color::Red
                            };
                            let item = AnsiStringSection {
                                content: node_text(child),
                                bold: false,
                                color: col,
                            };
                            out.push(item);
                            proof {
                                lemma_spans_view_push(pre, item);
                            }
                        } else if has_class(child, "descname") || has_class(child, "sig-name") {
                            let item = AnsiStringSection {
                                content: node_text(child),
                                bold: true,
                                color: Color::White,
                            };
                            out.push(item);
                            proof {
                                lemma_spans_view_push(pre, item);
                            }
                        } else if has_class(child, "sig-param") {
                            let sub = parse_signature_node(child);
                            let ghost mid = spans_view(out@);
                            let mut k: usize = 0;
                            while k < sub.len()
                                invariant
                                    0 <= k <= sub.len(),
                                    spans_view(sub@) == sig_spans(child.deep_view()),
                                    spans_view(out@) =~= mid + spans_view(sub@).subrange(
                                        0,
                                        k as int,
                                    ),
                                decreases sub.len() - k,
                            {
                                let ghost pre2 = out@;
                                let item = copy_span(&sub[k]);
                                out.push(item);
                                proof {
                                    lemma_spans_view_push(pre2, item);
                                    assert(spans_view(sub@)[k as int] == sub@[k as int].deep_view());
                                    assert(spans_view(out@) =~= mid + spans_view(sub@).subrange(
                                        0,
                                        k + 1,
                                    ));
                                }
                                k = k + 1;
                            }
                            proof {
                                assert(spans_view(sub@).subrange(0, sub@.len() as int)
                                    =~= spans_view(sub@));
                            }
                        } else {
                        }
                    },
                }
                proof {
                    assert(sig_seq(cs, j as int) == sig_item(cs[j as int]) + sig_seq(cs, j + 1));
                    assert(spans_view(out@) =~= (spans_view(pre) + sig_item(cs[j as int])));
                    assert(spans_view(pre) + (sig_item(cs[j as int]) + sig_seq(cs, j + 1)) =~= (
                    spans_view(pre) + sig_item(cs[j as int])) + sig_seq(cs, j + 1));
                }
                j = j + 1;
            }
            proof {
                assert(spans_view(out@) + sig_seq(cs, children@.len() as int) =~= spans_view(
                    out@,
                ));
            }
            out
        },
        _ => {
            proof {
                assert(spans_view(out@) =~= Seq::<SpanView>::empty());
            }
            out
        },
    }
}

} // verus!
