use vstd::prelude::*;

verus! {

use crate::tree::{
    HtmlNode, NodeView, NodePred, nv_size, nv_tag, nv_attr, nv_has_class, spec_text,
    find_first_in, find_all_in, find_pnext_in, lemma_find_first_size, lemma_find_all_size,
    lemma_find_pnext_size, find_first_tag, find_all_tag, find_all_tag_class_ws, is_tag,
    has_class, node_text,
};
use crate::walker::{ContentView, spec_walk, lemma_walk_size};
use crate::text::{spec_trim, spec_replace_nl, spec_has_scheme, trim_str};
use vstd::string::StringExecFns;

/// One labeled chunk of extracted content; `inline` is always false for
/// fields this engine produces.
#[derive(Debug)]
pub struct EmbedField {
    pub name: String,
    pub value: String,
    pub inline: bool,
}

/// The model of a field.
pub struct FieldView {
    pub name: Seq<char>,
    pub value: Seq<char>,
    pub inline: bool,
}

impl EmbedField {
    /// Builds a full-width field.
    pub fn new(name: String, value: String) -> (r: EmbedField)
        ensures
            r.deep_view() == (FieldView { name: name@, value: value@, inline: false }),
    {
        EmbedField { name, value, inline: false }
    }
}

impl DeepView for EmbedField {
    type V = FieldView;

    open spec fn deep_view(&self) -> FieldView {
        FieldView { name: self.name@, value: self.value@, inline: self.inline }
    }
}

pub open spec fn fields_view(s: Seq<EmbedField>) -> Seq<FieldView> {
    Seq::new(s.len(), |i: int| s[i].deep_view())
}

/// The state the content parser folds over its walked items: the markdown
/// accumulated so far, the fields discovered so far, and the pending rubric.
pub struct ParseState {
    pub text: Seq<char>,
    pub fields: Seq<FieldView>,
    pub rubric: Option<Seq<char>>,
}

pub open spec fn init_state() -> ParseState {
    ParseState { text: Seq::empty(), fields: Seq::empty(), rubric: None }
}

/// `chunks` joined with newlines.
pub open spec fn join_nl(chunks: Seq<Seq<char>>) -> Seq<char>
    decreases chunks.len(),
{
    if chunks.len() == 0 {
        Seq::empty()
    } else if chunks.len() == 1 {
        chunks[0]
    } else {
        chunks[0] + "\n"@ + join_nl(chunks.drop_first())
    }
}

/// The result of parsing `n` against base url `url`: the markdown text and
/// the ordered fields.  Text nodes yield their literal text; an element is
/// folded over its walked children.
pub open spec fn spec_parse(n: NodeView, url: Seq<char>) -> (Seq<char>, Seq<FieldView>) {
    parse_rec(n, url, nv_size(n))
}

pub open spec fn parse_rec(n: NodeView, url: Seq<char>, fuel: nat) -> (
    Seq<char>,
    Seq<FieldView>,
)
    decreases fuel, 0nat, 0nat,
{
    match n {
        NodeView::Text { text } => (text, Seq::empty()),
        _ => {
            if fuel == 0 {
                (Seq::empty(), Seq::empty())
            } else {
                parse_items(spec_walk(n), url, init_state(), (fuel - 1) as nat)
            }
        },
    }
}

pub open spec fn parse_items(
    items: Seq<ContentView>,
    url: Seq<char>,
    st: ParseState,
    fuel: nat,
) -> (Seq<char>, Seq<FieldView>)
    decreases fuel, 4nat, items.len(),
{
    if items.len() == 0 {
        (st.text, st.fields)
    } else {
        parse_items(items.drop_first(), url, parse_step(items[0], url, st, fuel), fuel)
    }
}

/// How one walked item transforms the parse state.
pub open spec fn parse_step(item: ContentView, url: Seq<char>, st: ParseState, fuel: nat) -> ParseState
    decreases fuel, 3nat, 0nat,
{
    match item {
        ContentView::Text(t) => ParseState { text: st.text + t, ..st },
        ContentView::Element(e) => {
            let tag = nv_tag(e)->Some_0;
            if nv_tag(e) is None {
                st
            } else if tag == "p"@ {
                if nv_has_class(e, "rubric"@) {
                    ParseState { rubric: Some(spec_trim(spec_text(e))), ..st }
                } else {
                    let r = parse_rec(e, url, fuel);
                    ParseState { text: st.text + r.0, fields: st.fields + r.1, ..st }
                }
            } else if tag == "a"@ {
                let r = parse_rec(e, url, fuel);
                let st1 = ParseState { fields: st.fields + r.1, ..st };
                match nv_attr(e, "href"@) {
                    None => st1,
                    Some(h) => {
                        let resolved = if spec_has_scheme(h) {
                            h
                        } else {
                            url + h
                        };
                        ParseState {
                            text: st1.text + "["@ + r.0 + "]("@ + resolved + ")"@,
                            ..st1
                        }
                    },
                }
            } else if tag == "b"@ || tag == "strong"@ {
                let r = parse_rec(e, url, fuel);
                ParseState {
                    text: st.text + "**"@ + r.0 + "**"@,
                    fields: st.fields + r.1,
                    ..st
                }
            } else if tag == "i"@ || tag == "em"@ {
                let r = parse_rec(e, url, fuel);
                ParseState { text: st.text + "*"@ + r.0 + "*"@, fields: st.fields + r.1, ..st }
            } else if tag == "u"@ {
                let r = parse_rec(e, url, fuel);
                ParseState {
                    text: st.text + "__"@ + r.0 + "__"@,
                    fields: st.fields + r.1,
                    ..st
                }
            } else if tag == "code"@ {
                let r = parse_rec(e, url, fuel);
                ParseState { text: st.text + "`"@ + r.0 + "`"@, fields: st.fields + r.1, ..st }
            } else if tag == "ul"@ {
                let st1 = ParseState { text: st.text + "\n"@, ..st };
                parse_ul(find_all_in(e, NodePred::Tag("li"@)), url, st1, fuel)
            } else if tag == "ol"@ {
                parse_ol(find_all_in(e, NodePred::Tag("li"@)), 0, url, st, fuel)
            } else if tag == "div"@ {
                if nv_has_class(e, "admonition"@) {
                    match find_pnext_in(e) {
                        None => st,
                        Some(pn) => {
                            let r1 = parse_rec(pn.0, url, fuel);
                            let st1 = ParseState { fields: st.fields + r1.1, ..st };
                            let title = spec_trim(r1.0);
                            match pn.1 {
                                None => st1,
                                Some(sib) => {
                                    let r2 = parse_rec(sib, url, fuel);
                                    let st2 = ParseState { fields: st1.fields + r2.1, ..st1 };
                                    let content = spec_trim(r2.0);
                                    if title.len() == 0 || content.len() == 0 {
                                        st2
                                    } else {
                                        let st3 = ParseState {
                                            fields: st2.fields + seq![
                                                FieldView {
                                                    name: title,
                                                    value: content,
                                                    inline: false,
                                                },
                                            ],
                                            ..st2
                                        };
                                        describe_scan(e, url, st3, fuel)
                                    }
                                },
                            }
                        },
                    }
                } else if st.rubric is Some && nv_has_class(e, "highlight-python3"@) {
                    let st1 = ParseState {
                        fields: st.fields + seq![
                            FieldView {
                                name: st.rubric->0,
                                value: "```py\n"@ + spec_text(e) + "```"@,
                                inline: false,
                            },
                        ],
                        rubric: None,
                        ..st
                    };
                    describe_scan(e, url, st1, fuel)
                } else if nv_has_class(e, "highlight-default"@) {
                    let st1 = ParseState {
                        text: st.text + "```\n"@ + spec_text(e) + "```"@,
                        ..st
                    };
                    describe_scan(e, url, st1, fuel)
                } else {
                    describe_scan(e, url, st, fuel)
                }
            } else if tag == "dl"@ {
                parse_pairs(
                    find_all_in(e, NodePred::Tag("dt"@)),
                    find_all_in(e, NodePred::Tag("dd"@)),
                    url,
                    st,
                    fuel,
                )
            } else {
                st
            }
        },
    }
}

/// Unordered list items: one bulleted line per `li` descendant.
pub open spec fn parse_ul(lis: Seq<NodeView>, url: Seq<char>, st: ParseState, fuel: nat) -> ParseState
    decreases fuel, 1nat, lis.len(),
{
    if lis.len() == 0 {
        st
    } else {
        let r = parse_rec(lis[0], url, fuel);
        let st1 = ParseState {
            text: st.text + "\u{2022} "@ + r.0 + "\n"@,
            fields: st.fields + r.1,
            ..st
        };
        parse_ul(lis.drop_first(), url, st1, fuel)
    }
}

/// Ordered list items: one numbered line per `li` descendant, numbering
/// starting at zero as the rendering has always done.
pub open spec fn parse_ol(lis: Seq<NodeView>, idx: nat, url: Seq<char>, st: ParseState, fuel: nat) -> ParseState
    decreases fuel, 1nat, lis.len(),
{
    if lis.len() == 0 {
        st
    } else {
        let r = parse_rec(lis[0], url, fuel);
        let st1 = ParseState {
            text: st.text + crate::text::spec_dec(idx) + ". "@ + r.0 + "\n"@,
            fields: st.fields + r.1,
            ..st
        };
        parse_ol(lis.drop_first(), idx + 1, url, st1, fuel)
    }
}

/// The supported-operations scan every emitted division undergoes.
pub open spec fn describe_scan(e: NodeView, url: Seq<char>, st: ParseState, fuel: nat) -> ParseState
    decreases fuel, 2nat, 0nat,
{
    let blocks = find_all_in(e, NodePred::TagClassWs("dl"@, "describe"@));
    let r = parse_describes(blocks, url, st, Seq::empty(), fuel);
    if r.1.len() > 0 {
        ParseState {
            fields: r.0.fields + seq![
                FieldView { name: "Supported Operations"@, value: join_nl(r.1), inline: false },
            ],
            ..r.0
        }
    } else {
        r.0
    }
}

/// One formatted line per well-formed `dl.describe` block; a block missing
/// its `dt` or `dd` is skipped.
pub open spec fn parse_describes(
    blocks: Seq<NodeView>,
    url: Seq<char>,
    st: ParseState,
    chunks: Seq<Seq<char>>,
    fuel: nat,
) -> (ParseState, Seq<Seq<char>>)
    decreases fuel, 1nat, blocks.len(),
{
    if blocks.len() == 0 {
        (st, chunks)
    } else {
        let b = blocks[0];
        let dt = find_first_in(b, NodePred::Tag("dt"@));
        let dd = find_first_in(b, NodePred::Tag("dd"@));
        if dt is None || dd is None {
            parse_describes(blocks.drop_first(), url, st, chunks, fuel)
        } else {
            let r1 = parse_rec(dt->Some_0, url, fuel);
            let r2 = parse_rec(dd->Some_0, url, fuel);
            let st1 = ParseState { fields: st.fields + r1.1 + r2.1, ..st };
            let chunk = "**`"@ + spec_trim(r1.0) + "`** - "@ + spec_trim(spec_replace_nl(r2.0));
            parse_describes(blocks.drop_first(), url, st1, chunks.push(chunk), fuel)
        }
    }
}

/// Positional `dt`/`dd` pairs of a standalone definition list: a pair with
/// text on both sides becomes a field; a named pair with an empty description
/// gets a fixed placeholder; a pair with an empty name is skipped.
pub open spec fn parse_pairs(
    dts: Seq<NodeView>,
    dds: Seq<NodeView>,
    url: Seq<char>,
    st: ParseState,
    fuel: nat,
) -> ParseState
    decreases fuel, 1nat, dts.len(),
{
    if dts.len() == 0 || dds.len() == 0 {
        st
    } else {
        let r1 = parse_rec(dts[0], url, fuel);
        let r2 = parse_rec(dds[0], url, fuel);
        let st1 = ParseState { fields: st.fields + r1.1 + r2.1, ..st };
        let st2 = if r1.0.len() > 0 && r2.0.len() > 0 {
            ParseState {
                fields: st1.fields + seq![
                    FieldView { name: r1.0, value: r2.0, inline: false },
                ],
                ..st1
            }
        } else if r1.0.len() > 0 && r2.0.len() == 0 {
            ParseState {
                fields: st1.fields + seq![
                    FieldView { name: r1.0, value: "No content provided."@, inline: false },
                ],
                ..st1
            }
        } else {
            st1
        };
        parse_pairs(dts.drop_first(), dds.drop_first(), url, st2, fuel)
    }
}

// ------------------------------------------------------------------
// The fold is insensitive to its fuel once the fuel covers the sizes of the
// nodes still to be parsed; the executable parser uses these lemmas to relate
// its recursive calls, made at each node's own size, to the caller's fold.
// ------------------------------------------------------------------

pub proof fn lemma_parse_rec_fuel(n: NodeView, url: Seq<char>, f1: nat, f2: nat)
    requires
        f1 >= nv_size(n),
        f2 >= nv_size(n),
    ensures
        parse_rec(n, url, f1) == parse_rec(n, url, f2),
    decreases f1, 0nat, 0nat,
{
    match n {
        NodeView::Text { .. } => {},
        _ => {
            crate::tree::lemma_nv_size_pos(n);
            lemma_walk_size(n);
            lemma_parse_items_fuel(
                spec_walk(n),
                url,
                init_state(),
                (f1 - 1) as nat,
                (f2 - 1) as nat,
            );
        },
    }
}

pub proof fn lemma_parse_items_fuel(
    items: Seq<ContentView>,
    url: Seq<char>,
    st: ParseState,
    f1: nat,
    f2: nat,
)
    requires
        forall|k: int|
            0 <= k < items.len() ==> (#[trigger] items[k] matches ContentView::Element(e)
                ==> nv_size(e) <= f1 && nv_size(e) <= f2),
    ensures
        parse_items(items, url, st, f1) == parse_items(items, url, st, f2),
    decreases f1, 4nat, items.len(),
{
    if items.len() > 0 {
        assert(items[0] matches ContentView::Element(e) ==> nv_size(e) <= f1 && nv_size(e) <= f2);
        lemma_parse_step_fuel(items[0], url, st, f1, f2);
        assert forall|k: int| 0 <= k < items.drop_first().len() implies (
        #[trigger] items.drop_first()[k] matches ContentView::Element(e) ==> nv_size(e) <= f1
            && nv_size(e) <= f2) by {
            assert(items.drop_first()[k] == items[k + 1]);
        }
        lemma_parse_items_fuel(items.drop_first(), url, parse_step(items[0], url, st, f1), f1, f2);
    }
}

pub proof fn lemma_parse_step_fuel(
    item: ContentView,
    url: Seq<char>,
    st: ParseState,
    f1: nat,
    f2: nat,
)
    requires
        item matches ContentView::Element(e) ==> nv_size(e) <= f1 && nv_size(e) <= f2,
    ensures
        parse_step(item, url, st, f1) == parse_step(item, url, st, f2),
    decreases f1, 3nat, 0nat,
{
    match item {
        ContentView::Text(..) => {},
        ContentView::Element(e) => {
            let tag = nv_tag(e)->Some_0;
            if nv_tag(e) is None {
            } else if tag == "p"@ {
                if !nv_has_class(e, "rubric"@) {
                    lemma_parse_rec_fuel(e, url, f1, f2);
                }
            } else if tag == "a"@ || tag == "b"@ || tag == "strong"@ || tag == "i"@ || tag
                == "em"@ || tag == "u"@ || tag == "code"@ {
                lemma_parse_rec_fuel(e, url, f1, f2);
            } else if tag == "ul"@ {
                lemma_find_all_size(e, NodePred::Tag("li"@));
                let st1 = ParseState { text: st.text + "\n"@, ..st };
                lemma_parse_ul_fuel(find_all_in(e, NodePred::Tag("li"@)), url, st1, f1, f2);
            } else if tag == "ol"@ {
                lemma_find_all_size(e, NodePred::Tag("li"@));
                lemma_parse_ol_fuel(find_all_in(e, NodePred::Tag("li"@)), 0, url, st, f1, f2);
            } else if tag == "div"@ {
                if nv_has_class(e, "admonition"@) {
                    lemma_find_pnext_size(e);
                    match find_pnext_in(e) {
                        None => {},
                        Some(pn) => {
                            lemma_parse_rec_fuel(pn.0, url, f1, f2);
                            let r1 = parse_rec(pn.0, url, f1);
                            let st1 = ParseState { fields: st.fields + r1.1, ..st };
                            let title = spec_trim(r1.0);
                            match pn.1 {
                                None => {},
                                Some(sib) => {
                                    lemma_parse_rec_fuel(sib, url, f1, f2);
                                    let r2 = parse_rec(sib, url, f1);
                                    let st2 = ParseState { fields: st1.fields + r2.1, ..st1 };
                                    let content = spec_trim(r2.0);
                                    if title.len() == 0 || content.len() == 0 {
                                    } else {
                                        let st3 = ParseState {
                                            fields: st2.fields + seq![
                                                FieldView {
                                                    name: title,
                                                    value: content,
                                                    inline: false,
                                                },
                                            ],
                                            ..st2
                                        };
                                        lemma_describe_scan_fuel(e, url, st3, f1, f2);
                                    }
                                },
                            }
                        },
                    }
                } else if st.rubric is Some && nv_has_class(e, "highlight-python3"@) {
                    let st1 = ParseState {
                        fields: st.fields + seq![
                            FieldView {
                                name: st.rubric->0,
                                value: "```py\n"@ + spec_text(e) + "```"@,
                                inline: false,
                            },
                        ],
                        rubric: None,
                        ..st
                    };
                    lemma_describe_scan_fuel(e, url, st1, f1, f2);
                } else if nv_has_class(e, "highlight-default"@) {
                    let st1 = ParseState {
                        text: st.text + "```\n"@ + spec_text(e) + "```"@,
                        ..st
                    };
                    lemma_describe_scan_fuel(e, url, st1, f1, f2);
                } else {
                    lemma_describe_scan_fuel(e, url, st, f1, f2);
                }
            } else if tag == "dl"@ {
                lemma_find_all_size(e, NodePred::Tag("dt"@));
                lemma_find_all_size(e, NodePred::Tag("dd"@));
                lemma_parse_pairs_fuel(
                    find_all_in(e, NodePred::Tag("dt"@)),
                    find_all_in(e, NodePred::Tag("dd"@)),
                    url,
                    st,
                    f1,
                    f2,
                );
            } else {
            }
        },
    }
}

pub proof fn lemma_parse_ul_fuel(
    lis: Seq<NodeView>,
    url: Seq<char>,
    st: ParseState,
    f1: nat,
    f2: nat,
)
    requires
        forall|k: int| 0 <= k < lis.len() ==> nv_size(#[trigger] lis[k]) <= f1 && nv_size(lis[k])
            <= f2,
    ensures
        parse_ul(lis, url, st, f1) == parse_ul(lis, url, st, f2),
    decreases f1, 1nat, lis.len(),
{
    if lis.len() > 0 {
        lemma_parse_rec_fuel(lis[0], url, f1, f2);
        let r = parse_rec(lis[0], url, f1);
        let st1 = ParseState {
            text: st.text + "\u{2022} "@ + r.0 + "\n"@,
            fields: st.fields + r.1,
            ..st
        };
        assert forall|k: int| 0 <= k < lis.drop_first().len() implies nv_size(
            #[trigger] lis.drop_first()[k],
        ) <= f1 && nv_size(lis.drop_first()[k]) <= f2 by {
            assert(lis.drop_first()[k] == lis[k + 1]);
        }
        lemma_parse_ul_fuel(lis.drop_first(), url, st1, f1, f2);
    }
}

pub proof fn lemma_parse_ol_fuel(
    lis: Seq<NodeView>,
    idx: nat,
    url: Seq<char>,
    st: ParseState,
    f1: nat,
    f2: nat,
)
    requires
        forall|k: int| 0 <= k < lis.len() ==> nv_size(#[trigger] lis[k]) <= f1 && nv_size(lis[k])
            <= f2,
    ensures
        parse_ol(lis, idx, url, st, f1) == parse_ol(lis, idx, url, st, f2),
    decreases f1, 1nat, lis.len(),
{
    if lis.len() > 0 {
        lemma_parse_rec_fuel(lis[0], url, f1, f2);
        let r = parse_rec(lis[0], url, f1);
        let st1 = ParseState {
            text: st.text + crate::text::spec_dec(idx) + ". "@ + r.0 + "\n"@,
            fields: st.fields + r.1,
            ..st
        };
        assert forall|k: int| 0 <= k < lis.drop_first().len() implies nv_size(
            #[trigger] lis.drop_first()[k],
        ) <= f1 && nv_size(lis.drop_first()[k]) <= f2 by {
            assert(lis.drop_first()[k] == lis[k + 1]);
        }
        lemma_parse_ol_fuel(lis.drop_first(), idx + 1, url, st1, f1, f2);
    }
}

pub proof fn lemma_describe_scan_fuel(e: NodeView, url: Seq<char>, st: ParseState, f1: nat, f2: nat)
    requires
        nv_size(e) <= f1,
        nv_size(e) <= f2,
    ensures
        describe_scan(e, url, st, f1) == describe_scan(e, url, st, f2),
    decreases f1, 2nat, 0nat,
{
    lemma_find_all_size(e, NodePred::TagClassWs("dl"@, "describe"@));
    lemma_parse_describes_fuel(
        find_all_in(e, NodePred::TagClassWs("dl"@, "describe"@)),
        url,
        st,
        Seq::empty(),
        f1,
        f2,
    );
}

pub proof fn lemma_parse_describes_fuel(
    blocks: Seq<NodeView>,
    url: Seq<char>,
    st: ParseState,
    chunks: Seq<Seq<char>>,
    f1: nat,
    f2: nat,
)
    requires
        forall|k: int|
            0 <= k < blocks.len() ==> nv_size(#[trigger] blocks[k]) <= f1 && nv_size(blocks[k])
                <= f2,
    ensures
        parse_describes(blocks, url, st, chunks, f1) == parse_describes(blocks, url, st, chunks, f2),
    decreases f1, 1nat, blocks.len(),
{
    if blocks.len() > 0 {
        let b = blocks[0];
        let dt = find_first_in(b, NodePred::Tag("dt"@));
        let dd = find_first_in(b, NodePred::Tag("dd"@));
        assert forall|k: int| 0 <= k < blocks.drop_first().len() implies nv_size(
            #[trigger] blocks.drop_first()[k],
        ) <= f1 && nv_size(blocks.drop_first()[k]) <= f2 by {
            assert(blocks.drop_first()[k] == blocks[k + 1]);
        }
        if dt is None || dd is None {
            lemma_parse_describes_fuel(blocks.drop_first(), url, st, chunks, f1, f2);
        } else {
            lemma_find_first_size(b, NodePred::Tag("dt"@));
            lemma_find_first_size(b, NodePred::Tag("dd"@));
            lemma_parse_rec_fuel(dt->Some_0, url, f1, f2);
            lemma_parse_rec_fuel(dd->Some_0, url, f1, f2);
            let r1 = parse_rec(dt->Some_0, url, f1);
            let r2 = parse_rec(dd->Some_0, url, f1);
            let st1 = ParseState { fields: st.fields + r1.1 + r2.1, ..st };
            let chunk = "**`"@ + spec_trim(r1.0) + "`** - "@ + spec_trim(spec_replace_nl(r2.0));
            lemma_parse_describes_fuel(blocks.drop_first(), url, st1, chunks.push(chunk), f1, f2);
        }
    }
}

pub proof fn lemma_parse_pairs_fuel(
    dts: Seq<NodeView>,
    dds: Seq<NodeView>,
    url: Seq<char>,
    st: ParseState,
    f1: nat,
    f2: nat,
)
    requires
        forall|k: int| 0 <= k < dts.len() ==> nv_size(#[trigger] dts[k]) <= f1 && nv_size(dts[k])
            <= f2,
        forall|k: int| 0 <= k < dds.len() ==> nv_size(#[trigger] dds[k]) <= f1 && nv_size(dds[k])
            <= f2,
    ensures
        parse_pairs(dts, dds, url, st, f1) == parse_pairs(dts, dds, url, st, f2),
    decreases f1, 1nat, dts.len(),
{
    if dts.len() > 0 && dds.len() > 0 {
        lemma_parse_rec_fuel(dts[0], url, f1, f2);
        lemma_parse_rec_fuel(dds[0], url, f1, f2);
        assert forall|k: int| 0 <= k < dts.drop_first().len() implies nv_size(
            #[trigger] dts.drop_first()[k],
        ) <= f1 && nv_size(dts.drop_first()[k]) <= f2 by {
            assert(dts.drop_first()[k] == dts[k + 1]);
        }
        assert forall|k: int| 0 <= k < dds.drop_first().len() implies nv_size(
            #[trigger] dds.drop_first()[k],
        ) <= f1 && nv_size(dds.drop_first()[k]) <= f2 by {
            assert(dds.drop_first()[k] == dds[k + 1]);
        }
        let r1 = parse_rec(dts[0], url, f1);
        let r2 = parse_rec(dds[0], url, f1);
        let st1 = ParseState { fields: st.fields + r1.1 + r2.1, ..st };
        let st2 = if r1.0.len() > 0 && r2.0.len() > 0 {
            ParseState {
                fields: st1.fields + seq![FieldView { name: r1.0, value: r2.0, inline: false }],
                ..st1
            }
        } else if r1.0.len() > 0 && r2.0.len() == 0 {
            ParseState {
                fields: st1.fields + seq![
                    FieldView { name: r1.0, value: "No content provided."@, inline: false },
                ],
                ..st1
            }
        } else {
            st1
        };
        lemma_parse_pairs_fuel(dts.drop_first(), dds.drop_first(), url, st2, f1, f2);
    }
}

// ------------------------------------------------------------------
// the executable parser
// ------------------------------------------------------------------

pub open spec fn opt_view(o: Option<String>) -> Option<Seq<char>> {
    match o {
        Some(s) => Some(s@),
        None => None,
    }
}

pub open spec fn str_views(s: Seq<String>) -> Seq<Seq<char>> {
    Seq::new(s.len(), |i: int| s[i]@)
}

proof fn lemma_fields_view_push(s: Seq<EmbedField>, x: EmbedField)
    ensures
        fields_view(s.push(x)) =~= fields_view(s).push(x.deep_view()),
{
    assert forall|i: int| 0 <= i < s.len() + 1 implies fields_view(s.push(x))[i] == fields_view(
        s,
    ).push(x.deep_view())[i] by {
        if i < s.len() {
            assert(s.push(x)[i] == s[i]);
        } else {
            assert(s.push(x)[i] == x);
        }
    }
}

proof fn lemma_str_views_push(s: Seq<String>, x: String)
    ensures
        str_views(s.push(x)) =~= str_views(s).push(x@),
{
    assert forall|i: int| 0 <= i < s.len() + 1 implies str_views(s.push(x))[i] == str_views(
        s,
    ).push(x@)[i] by {
        if i < s.len() {
            assert(s.push(x)[i] == s[i]);
        } else {
            assert(s.push(x)[i] == x);
        }
    }
}

fn copy_field(f: &EmbedField) -> (r: EmbedField)
    ensures
        r.deep_view() == f.deep_view(),
{
    EmbedField { name: f.name.clone(), value: f.value.clone(), inline: f.inline }
}

/// Appends every field of `src` to `dst`, in order.
fn append_fields(dst: &mut Vec<EmbedField>, src: &Vec<EmbedField>)
    ensures
        fields_view(final (dst)@) == fields_view(old(dst)@) + fields_view(src@),
{
    let ghost base = fields_view(old(dst)@);
    let mut k: usize = 0;
    proof {
        assert(fields_view(dst@) =~= base + fields_view(src@).subrange(0, 0));
    }
    while k < src.len()
        invariant
            0 <= k <= src@.len(),
            fields_view(dst@) =~= base + fields_view(src@).subrange(0, k as int),
        decreases src@.len() - k,
    {
        let ghost pre = dst@;
        let x = copy_field(&src[k]);
        dst.push(x);
        proof {
            lemma_fields_view_push(pre, x);
            assert(fields_view(src@)[k as int] == src@[k as int].deep_view());
            assert(fields_view(dst@) =~= base + fields_view(src@).subrange(0, k + 1));
        }
        k = k + 1;
    }
    proof {
        assert(fields_view(src@).subrange(0, src@.len() as int) =~= fields_view(src@));
    }
}

proof fn lemma_join_nl_push(s: Seq<Seq<char>>, x: Seq<char>)
    ensures
        join_nl(s.push(x)) == if s.len() == 0 {
            x
        } else {
            join_nl(s) + "\n"@ + x
        },
    decreases s.len(),
{
    if s.len() == 0 {
        assert(s.push(x).len() == 1);
        assert(s.push(x)[0] == x);
    } else {
        lemma_join_nl_push(s.drop_first(), x);
        assert(s.push(x).drop_first() =~= s.drop_first().push(x));
        assert(s.push(x)[0] == s[0]);
        if s.len() == 1 {
            assert(join_nl(s) == s[0]);
        } else {
            assert(join_nl(s) == s[0] + "\n"@ + join_nl(s.drop_first()));
            assert(s[0] + "\n"@ + (join_nl(s.drop_first()) + "\n"@ + x) =~= (s[0] + "\n"@
                + join_nl(s.drop_first())) + "\n"@ + x);
        }
    }
}

/// Joins the chunks with newlines.
fn join_chunks(chunks: &Vec<String>) -> (r: String)
    ensures
        r@ == join_nl(str_views(chunks@)),
{
    let mut out = String::new();
    let mut k: usize = 0;
    proof {
        assert(str_views(chunks@).subrange(0, 0) =~= Seq::<Seq<char>>::empty());
        assert(out@ =~= join_nl(str_views(chunks@).subrange(0, 0)));
    }
    while k < chunks.len()
        invariant
            0 <= k <= chunks@.len(),
            out@ == join_nl(str_views(chunks@).subrange(0, k as int)),
        decreases chunks@.len() - k,
    {
        if k > 0 {
            out.append("\n");
        }
        out.append(chunks[k].as_str());
        proof {
            let pre = str_views(chunks@).subrange(0, k as int);
            lemma_join_nl_push(pre, chunks@[k as int]@);
            assert(pre.push(chunks@[k as int]@) =~= str_views(chunks@).subrange(0, k + 1));
        }
        k = k + 1;
    }
    proof {
        assert(str_views(chunks@).subrange(0, chunks@.len() as int) =~= str_views(chunks@));
    }
    out
}

/// Runs the supported-operations scan of one emitted division: collects a
/// formatted line per well-formed `dl.describe` descendant and, when any
/// line was produced, appends one `Supported Operations` field.
fn run_describe_scan(
    e: &HtmlNode,
    url: &str,
    fields: &mut Vec<EmbedField>,
    Ghost(gtext): Ghost<Seq<char>>,
    Ghost(grubric): Ghost<Option<Seq<char>>>,
)
    ensures
        ({
            let st0 = ParseState {
                text: gtext,
                fields: fields_view(old(fields)@),
                rubric: grubric,
            };
            describe_scan(e.deep_view(), url@, st0, nv_size(e.deep_view())) == ParseState {
                text: gtext,
                fields: fields_view(final (fields)@),
                rubric: grubric,
            }
        }),
    decreases nv_size(e.deep_view()), 0nat,
{
    let ghost ev = e.deep_view();
    let ghost sz = nv_size(ev);
    let ghost st0 = ParseState { text: gtext, fields: fields_view(fields@), rubric: grubric };
    let ghost p = NodePred::TagClassWs("dl"@, "describe"@);
    let blocks = find_all_tag_class_ws(e, "dl", "describe");
    let ghost bv = crate::tree::refs_view(blocks@);
    let mut chunks: Vec<String> = Vec::new();
    let mut k: usize = 0;
    proof {
        assert(bv.subrange(0, bv.len() as int) =~= bv);
        assert(str_views(chunks@) =~= Seq::<Seq<char>>::empty());
    }
    while k < blocks.len()
        invariant
            0 <= k <= blocks@.len(),
            bv == crate::tree::refs_view(blocks@),
            bv.len() == blocks@.len(),
            forall|m: int| 0 <= m < blocks@.len() ==> #[trigger] blocks@[m].deep_view() == bv[m],
            forall|m: int|
                0 <= m < blocks@.len() ==> nv_size(#[trigger] blocks@[m].deep_view()) < sz,
            ev == e.deep_view(),
            sz == nv_size(ev),
            bv == find_all_in(ev, NodePred::TagClassWs("dl"@, "describe"@)),
            parse_describes(bv, url@, st0, Seq::empty(), sz) == parse_describes(
                bv.subrange(k as int, bv.len() as int),
                url@,
                ParseState { text: gtext, fields: fields_view(fields@), rubric: grubric },
                str_views(chunks@),
                sz,
            ),
        decreases blocks@.len() - k,
    {
        let ghost stk = ParseState {
            text: gtext,
            fields: fields_view(fields@),
            rubric: grubric,
        };
        let b = blocks[k];
        proof {
            assert(blocks@[k as int].deep_view() == bv[k as int]);
            assert(bv.subrange(k as int, bv.len() as int)[0] == bv[k as int]);
            assert(bv.subrange(k as int, bv.len() as int).drop_first() =~= bv.subrange(
                k + 1,
                bv.len() as int,
            ));
        }
        let dt = find_first_tag(b, "dt");
        let dd = find_first_tag(b, "dd");
        match (dt, dd) {
            (Some(dtn), Some(ddn)) => {
                proof {
                    lemma_parse_rec_fuel(dtn.deep_view(), url@, nv_size(dtn.deep_view()), sz);
                    lemma_parse_rec_fuel(ddn.deep_view(), url@, nv_size(ddn.deep_view()), sz);
                }
                let r1 = parse_node(dtn, url);
                let r2 = parse_node(ddn, url);
                append_fields(fields, &r1.1);
                append_fields(fields, &r2.1);
                proof {
                    assert(fields_view(fields@) =~= (stk.fields + fields_view(r1.1@))
                        + fields_view(r2.1@));
                }
                let mut chunk = "**`".to_owned();
                let tt = trim_str(r1.0.as_str());
                chunk.append(tt.as_str());
                chunk.append("`** - ");
                let rn = crate::text::replace_nl(r2.0.as_str());
                let td = trim_str(rn.as_str());
                chunk.append(td.as_str());
                let ghost pre_chunks = chunks@;
                chunks.push(chunk);
                proof {
                    lemma_str_views_push(pre_chunks, chunk);
                    assert(str_views(chunks@) =~= str_views(pre_chunks).push(chunk@));
                }
            },
            _ => {},
        }
        k = k + 1;
    }
    proof {
        assert(bv.subrange(bv.len() as int, bv.len() as int) =~= Seq::<NodeView>::empty());
    }
    if chunks.len() > 0 {
        let joined = join_chunks(&chunks);
        let ghost pre = fields@;
        let f = EmbedField::new("Supported Operations".to_owned(), joined);
        fields.push(f);
        proof {
            lemma_fields_view_push(pre, f);
            assert(fields_view(fields@) =~= fields_view(pre).push(f.deep_view()));
            assert(fields_view(pre) + seq![f.deep_view()] =~= fields_view(pre).push(
                f.deep_view(),
            ));
        }
    }
}

/// Applies one walked element to the parse state, as `parse_step` describes.
fn parse_element(
    e: &HtmlNode,
    url: &str,
    result: &mut String,
    fields: &mut Vec<EmbedField>,
    rubric: &mut Option<String>,
    Ghost(fuel): Ghost<nat>,
)
    requires
        nv_size(e.deep_view()) <= fuel,
    ensures
        (parse_step(
            crate::walker::ContentView::Element(e.deep_view()),
            url@,
            ParseState {
                text: old(result)@,
                fields: fields_view(old(fields)@),
                rubric: opt_view(*old(rubric)),
            },
            fuel,
        ) == (ParseState {
            text: final (result)@,
            fields: fields_view(final (fields)@),
            rubric: opt_view(*final (rubric)),
        })),
    decreases nv_size(e.deep_view()), 2nat,
{
    let ghost ev = e.deep_view();
    let ghost st = ParseState {
        text: old(result)@,
        fields: fields_view(old(fields)@),
        rubric: opt_view(*old(rubric)),
    };
    match e {
        HtmlNode::Element { .. } => {
            if is_tag(e, "p") {
                if has_class(e, "rubric") {
                    let t = node_text(e);
                    *rubric = Some(crate::text::trim_str(t.as_str()));
                } else {
                    proof {
                        lemma_parse_rec_fuel(ev, url@, nv_size(ev), fuel);
                    }
                    let r = parse_node(e, url);
                    result.append(r.0.as_str());
                    append_fields(fields, &r.1);
                }
            } else if is_tag(e, "a") {
                proof {
                    lemma_parse_rec_fuel(ev, url@, nv_size(ev), fuel);
                }
                let r = parse_node(e, url);
                append_fields(fields, &r.1);
                match crate::tree::get_attr(e, "href") {
                    None => {},
                    Some(h) => {
                        let resolved: String = if crate::text::has_scheme(h.as_str()) {
                            h.clone()
                        } else {
                            let mut u = url.to_owned();
                            u.append(h.as_str());
                            u
                        };
                        result.append("[");
                        result.append(r.0.as_str());
                        result.append("](");
                        result.append(resolved.as_str());
                        result.append(")");
                    },
                }
            } else if is_tag(e, "b") || is_tag(e, "strong") {
                proof {
                    lemma_parse_rec_fuel(ev, url@, nv_size(ev), fuel);
                }
                let r = parse_node(e, url);
                result.append("**");
                result.append(r.0.as_str());
                result.append("**");
                append_fields(fields, &r.1);
            } else if is_tag(e, "i") || is_tag(e, "em") {
                proof {
                    lemma_parse_rec_fuel(ev, url@, nv_size(ev), fuel);
                }
                let r = parse_node(e, url);
                result.append("*");
                result.append(r.0.as_str());
                result.append("*");
                append_fields(fields, &r.1);
            } else if is_tag(e, "u") {
                proof {
                    lemma_parse_rec_fuel(ev, url@, nv_size(ev), fuel);
                }
                let r = parse_node(e, url);
                result.append("__");
                result.append(r.0.as_str());
                result.append("__");
                append_fields(fields, &r.1);
            } else if is_tag(e, "code") {
                proof {
                    lemma_parse_rec_fuel(ev, url@, nv_size(ev), fuel);
                }
                let r = parse_node(e, url);
                result.append("`");
                result.append(r.0.as_str());
                result.append("`");
                append_fields(fields, &r.1);
            } else if is_tag(e, "ul") {
                result.append("\n");
                let lis = find_all_tag(e, "li");
                let ghost lv = crate::tree::refs_view(lis@);
                let ghost st1 = ParseState { text: st.text + "\n"@, ..st };
                let mut k: usize = 0;
                proof {
                    assert(lv.subrange(0, lv.len() as int) =~= lv);
                }
                while k < lis.len()
                    invariant
                        0 <= k <= lis@.len(),
                        lv == crate::tree::refs_view(lis@),
                        lv.len() == lis@.len(),
                        forall|m: int|
                            0 <= m < lis@.len() ==> #[trigger] lis@[m].deep_view() == lv[m],
                        forall|m: int|
                            0 <= m < lis@.len() ==> nv_size(#[trigger] lis@[m].deep_view())
                                < nv_size(ev),
                        ev == e.deep_view(),
                        nv_size(ev) <= fuel,
                        parse_ul(lv, url@, st1, fuel) == parse_ul(
                            lv.subrange(k as int, lv.len() as int),
                            url@,
                            ParseState {
                                text: result@,
                                fields: fields_view(fields@),
                                rubric: st.rubric,
                            },
                            fuel,
                        ),
                        opt_view(*rubric) == st.rubric,
                    decreases lis@.len() - k,
                {
                    proof {
                        assert(lv.subrange(k as int, lv.len() as int)[0] == lv[k as int]);
                        assert(lv.subrange(k as int, lv.len() as int).drop_first()
                            =~= lv.subrange(k + 1, lv.len() as int));
                        lemma_parse_rec_fuel(
                            lis@[k as int].deep_view(),
                            url@,
                            nv_size(lis@[k as int].deep_view()),
                            fuel,
                        );
                    }
                    let r = parse_node(lis[k], url);
                    result.append("\u{2022} ");
                    result.append(r.0.as_str());
                    result.append("\n");
                    append_fields(fields, &r.1);
                    k = k + 1;
                }
                proof {
                    assert(lv.subrange(lv.len() as int, lv.len() as int) =~= Seq::<
                        NodeView,
                    >::empty());
                }
            } else if is_tag(e, "ol") {
                let lis = find_all_tag(e, "li");
                let ghost lv = crate::tree::refs_view(lis@);
                let mut k: usize = 0;
                proof {
                    assert(lv.subrange(0, lv.len() as int) =~= lv);
                }
                while k < lis.len()
                    invariant
                        0 <= k <= lis@.len(),
                        lv == crate::tree::refs_view(lis@),
                        lv.len() == lis@.len(),
                        forall|m: int|
                            0 <= m < lis@.len() ==> #[trigger] lis@[m].deep_view() == lv[m],
                        forall|m: int|
                            0 <= m < lis@.len() ==> nv_size(#[trigger] lis@[m].deep_view())
                                < nv_size(ev),
                        ev == e.deep_view(),
                        nv_size(ev) <= fuel,
                        parse_ol(lv, 0, url@, st, fuel) == parse_ol(
                            lv.subrange(k as int, lv.len() as int),
                            k as nat,
                            url@,
                            ParseState {
                                text: result@,
                                fields: fields_view(fields@),
                                rubric: st.rubric,
                            },
                            fuel,
                        ),
                        opt_view(*rubric) == st.rubric,
                    decreases lis@.len() - k,
                {
                    proof {
                        assert(lv.subrange(k as int, lv.len() as int)[0] == lv[k as int]);
                        assert(lv.subrange(k as int, lv.len() as int).drop_first()
                            =~= lv.subrange(k + 1, lv.len() as int));
                        lemma_parse_rec_fuel(
                            lis@[k as int].deep_view(),
                            url@,
                            nv_size(lis@[k as int].deep_view()),
                            fuel,
                        );
                    }
                    let r = parse_node(lis[k], url);
                    let num = crate::text::dec_string(k);
                    result.append(num.as_str());
                    result.append(". ");
                    result.append(r.0.as_str());
                    result.append("\n");
                    append_fields(fields, &r.1);
                    k = k + 1;
                }
                proof {
                    assert(lv.subrange(lv.len() as int, lv.len() as int) =~= Seq::<
                        NodeView,
                    >::empty());
                }
            } else if is_tag(e, "div") {
                if has_class(e, "admonition") {
                    match crate::tree::find_pnext(e) {
                        None => {},
                        Some((pn, sibopt)) => {
                            proof {
                                lemma_parse_rec_fuel(
                                    pn.deep_view(),
                                    url@,
                                    nv_size(pn.deep_view()),
                                    fuel,
                                );
                            }
                            let r1 = parse_node(pn, url);
                            append_fields(fields, &r1.1);
                            let title = crate::text::trim_str(r1.0.as_str());
                            match sibopt {
                                None => {},
                                Some(sib) => {
                                    proof {
                                        lemma_parse_rec_fuel(
                                            sib.deep_view(),
                                            url@,
                                            nv_size(sib.deep_view()),
                                            fuel,
                                        );
                                    }
                                    let r2 = parse_node(sib, url);
                                    append_fields(fields, &r2.1);
                                    let content = crate::text::trim_str(r2.0.as_str());
                                    if !title.as_str().is_empty()
                                        && !content.as_str().is_empty() {
                                        let ghost pre = fields@;
                                        let f = EmbedField::new(title, content);
                                        fields.push(f);
                                        proof {
                                            lemma_fields_view_push(pre, f);
                                            assert(fields_view(fields@) =~= fields_view(pre)
                                                + seq![f.deep_view()]);
                                        }
                                        let ghost st3 = ParseState {
                                            text: st.text,
                                            fields: fields_view(fields@),
                                            rubric: st.rubric,
                                        };
                                        run_describe_scan(
                                            e,
                                            url,
                                            fields,
                                            Ghost(st.text),
                                            Ghost(st.rubric),
                                        );
                                        proof {
                                            lemma_describe_scan_fuel(
                                                ev,
                                                url@,
                                                st3,
                                                nv_size(ev),
                                                fuel,
                                            );
                                        }
                                    }
                                },
                            }
                        },
                    }
                } else if rubric.is_some() && has_class(e, "highlight-python3") {
                    let name: String = match &*rubric {
                        Some(rr) => rr.clone(),
                        None => String::new(),
                    };
                    *rubric = None;
                    let mut v = "```py\n".to_owned();
                    let tx = node_text(e);
                    v.append(tx.as_str());
                    v.append("```");
                    let ghost pre = fields@;
                    let f = EmbedField::new(name, v);
                    fields.push(f);
                    proof {
                        lemma_fields_view_push(pre, f);
                        assert(fields_view(fields@) =~= fields_view(pre) + seq![f.deep_view()]);
                    }
                    let ghost st1 = ParseState {
                        text: st.text,
                        fields: fields_view(fields@),
                        rubric: None,
                    };
                    run_describe_scan(e, url, fields, Ghost(st.text), Ghost(None));
                    proof {
                        lemma_describe_scan_fuel(ev, url@, st1, nv_size(ev), fuel);
                    }
                } else if has_class(e, "highlight-default") {
                    result.append("```\n");
                    let tx = node_text(e);
                    result.append(tx.as_str());
                    result.append("```");
                    let ghost st1 = ParseState {
                        text: result@,
                        fields: st.fields,
                        rubric: st.rubric,
                    };
                    run_describe_scan(e, url, fields, Ghost(result@), Ghost(st.rubric));
                    proof {
                        lemma_describe_scan_fuel(ev, url@, st1, nv_size(ev), fuel);
                    }
                } else {
                    run_describe_scan(e, url, fields, Ghost(st.text), Ghost(st.rubric));
                    proof {
                        lemma_describe_scan_fuel(ev, url@, st, nv_size(ev), fuel);
                    }
                }
            } else if is_tag(e, "dl") {
                let dts = find_all_tag(e, "dt");
                let dds = find_all_tag(e, "dd");
                let ghost dtv = crate::tree::refs_view(dts@);
                let ghost ddv = crate::tree::refs_view(dds@);
                let mut k: usize = 0;
                proof {
                    assert(dtv.subrange(0, dtv.len() as int) =~= dtv);
                    assert(ddv.subrange(0, ddv.len() as int) =~= ddv);
                }
                while k < dts.len() && k < dds.len()
                    invariant
                        0 <= k <= dts@.len(),
                        0 <= k <= dds@.len(),
                        dtv == crate::tree::refs_view(dts@),
                        ddv == crate::tree::refs_view(dds@),
                        dtv.len() == dts@.len(),
                        ddv.len() == dds@.len(),
                        forall|m: int|
                            0 <= m < dts@.len() ==> #[trigger] dts@[m].deep_view() == dtv[m],
                        forall|m: int|
                            0 <= m < dds@.len() ==> #[trigger] dds@[m].deep_view() == ddv[m],
                        forall|m: int|
                            0 <= m < dts@.len() ==> nv_size(#[trigger] dts@[m].deep_view())
                                < nv_size(ev),
                        forall|m: int|
                            0 <= m < dds@.len() ==> nv_size(#[trigger] dds@[m].deep_view())
                                < nv_size(ev),
                        ev == e.deep_view(),
                        nv_size(ev) <= fuel,
                        parse_pairs(dtv, ddv, url@, st, fuel) == parse_pairs(
                            dtv.subrange(k as int, dtv.len() as int),
                            ddv.subrange(k as int, ddv.len() as int),
                            url@,
                            ParseState {
                                text: result@,
                                fields: fields_view(fields@),
                                rubric: st.rubric,
                            },
                            fuel,
                        ),
                        opt_view(*rubric) == st.rubric,
                        result@ == st.text,
                    decreases dts@.len() - k,
                {
                    proof {
                        assert(dtv.subrange(k as int, dtv.len() as int)[0] == dtv[k as int]);
                        assert(ddv.subrange(k as int, ddv.len() as int)[0] == ddv[k as int]);
                        assert(dtv.subrange(k as int, dtv.len() as int).drop_first()
                            =~= dtv.subrange(k + 1, dtv.len() as int));
                        assert(ddv.subrange(k as int, ddv.len() as int).drop_first()
                            =~= ddv.subrange(k + 1, ddv.len() as int));
                        lemma_parse_rec_fuel(
                            dts@[k as int].deep_view(),
                            url@,
                            nv_size(dts@[k as int].deep_view()),
                            fuel,
                        );
                        lemma_parse_rec_fuel(
                            dds@[k as int].deep_view(),
                            url@,
                            nv_size(dds@[k as int].deep_view()),
                            fuel,
                        );
                    }
                    let r1 = parse_node(dts[k], url);
                    let r2 = parse_node(dds[k], url);
                    append_fields(fields, &r1.1);
                    append_fields(fields, &r2.1);
                    if !r1.0.as_str().is_empty() && !r2.0.as_str().is_empty() {
                        let ghost pre = fields@;
                        let f = EmbedField::new(r1.0, r2.0);
                        fields.push(f);
                        proof {
                            lemma_fields_view_push(pre, f);
                            assert(fields_view(fields@) =~= fields_view(pre) + seq![
                                f.deep_view(),
                            ]);
                        }
                    } else if !r1.0.as_str().is_empty() && r2.0.as_str().is_empty() {
                        let ghost pre = fields@;
                        let f = EmbedField::new(r1.0, "No content provided.".to_owned());
                        fields.push(f);
                        proof {
                            lemma_fields_view_push(pre, f);
                            assert(fields_view(fields@) =~= fields_view(pre) + seq![
                                f.deep_view(),
                            ]);
                        }
                    }
                    k = k + 1;
                }
                proof {
                    if k < dts@.len() {
                        assert(ddv.subrange(k as int, ddv.len() as int).len() == 0);
                    } else {
                        assert(dtv.subrange(k as int, dtv.len() as int).len() == 0);
                    }
                }
            } else {
            }
        },
        _ => {},
    }
}

/// Converts a content element into markdown text and the ordered fields its
/// subtree yields; a text node yields its literal text and no fields.
pub fn parse_node(node: &HtmlNode, url: &str) -> (r: (String, Vec<EmbedField>))
    ensures
        r.0@ == spec_parse(node.deep_view(), url@).0,
        fields_view(r.1@) == spec_parse(node.deep_view(), url@).1,
    decreases nv_size(node.deep_view()), 1nat,
{
    match node {
        HtmlNode::Text { text } => {
            let r: Vec<EmbedField> = Vec::new();
            proof {
                assert(fields_view(r@) =~= Seq::<FieldView>::empty());
            }
            (text.clone(), r)
        },
        _ => {
            let ghost nv = node.deep_view();
            let ghost full_fuel = nv_size(nv);
            let ghost fuel = (full_fuel - 1) as nat;
            proof {
                crate::tree::lemma_nv_size_pos(nv);
            }
            let items = crate::walker::walk_nodes(node);
            let ghost iv = crate::walker::cn_views(items@);
            let mut result = String::new();
            let mut fields: Vec<EmbedField> = Vec::new();
            let mut rubric: Option<String> = None;
            let mut j: usize = 0;
            proof {
                assert(iv.subrange(0, iv.len() as int) =~= iv);
                assert(fields_view(fields@) =~= Seq::<FieldView>::empty());
                assert(parse_items(iv, url@, init_state(), fuel) == parse_items(
                    iv.subrange(0, iv.len() as int),
                    url@,
                    ParseState {
                        text: result@,
                        fields: fields_view(fields@),
                        rubric: opt_view(rubric),
                    },
                    fuel,
                ));
            }
            while j < items.len()
                invariant
                    0 <= j <= items@.len(),
                    iv == crate::walker::cn_views(items@),
                    iv.len() == items@.len(),
                    nv == node.deep_view(),
                    full_fuel == nv_size(nv),
                    full_fuel >= 1,
                    fuel == (full_fuel - 1) as nat,
                    forall|m: int|
                        0 <= m < items@.len() ==> #[trigger] crate::walker::content_view(
                            items@[m],
                        ) == iv[m],
                    forall|m: int|
                        0 <= m < items@.len() ==> (#[trigger] items@[m] matches
                            crate::walker::WrappedNode::Element(e) ==> nv_size(e.deep_view())
                            < full_fuel + 1 && nv_size(e.deep_view()) <= fuel),
                    parse_items(iv, url@, init_state(), fuel) == parse_items(
                        iv.subrange(j as int, iv.len() as int),
                        url@,
                        ParseState {
                            text: result@,
                            fields: fields_view(fields@),
                            rubric: opt_view(rubric),
                        },
                        fuel,
                    ),
                decreases items@.len() - j,
            {
                let ghost stj = ParseState {
                    text: result@,
                    fields: fields_view(fields@),
                    rubric: opt_view(rubric),
                };
                proof {
                    assert(iv.subrange(j as int, iv.len() as int)[0] == iv[j as int]);
                    assert(iv.subrange(j as int, iv.len() as int).drop_first() =~= iv.subrange(
                        j + 1,
                        iv.len() as int,
                    ));
                }
                match &items[j] {
                    crate::walker::WrappedNode::Text(t) => {
                        result.append(t.as_str());
                        proof {
                            assert(parse_step(iv[j as int], url@, stj, fuel) == ParseState {
                                text: stj.text + t@,
                                ..stj
                            });
                        }
                    },
                    crate::walker::WrappedNode::Element(e) => {
                        let ghost ev = e.deep_view();
                        proof {
                            assert(items@[j as int] matches crate::walker::WrappedNode::Element(
                                x,
                            ) && x.deep_view() == ev);
                            assert(nv_size(ev) <= fuel);
                        }
                        parse_element(e, url, &mut result, &mut fields, &mut rubric, Ghost(fuel));
                        proof {
                            assert(parse_step(iv[j as int], url@, stj, fuel) == ParseState {
                                text: result@,
                                fields: fields_view(fields@),
                                rubric: opt_view(rubric),
                            });
                        }
                    },
                }
                j = j + 1;
            }
            proof {
                assert(iv.subrange(iv.len() as int, iv.len() as int) =~= Seq::<
                    crate::walker::ContentView,
                >::empty());
            }
            (result, fields)
        },
    }
}

} // verus!
