use vstd::prelude::*;

verus! {

use crate::tree::{NodeView, NodePred, nv_size, nv_size_from, nv_attr, nv_class, nv_has_class, nv_tag,
    find_all_in, find_all_seq, find_pnext_in, find_pnext_seq, find_sig_forest};
use crate::walker::{ContentView, spec_walk, walk_seq, allowed_tag, h_tag, div_special};
use crate::content::{FieldView, ParseState, init_state, spec_parse, parse_rec, parse_items,
    parse_step, parse_pairs};
use crate::text::{spec_trim, spec_has_scheme, spec_split_sp, spec_has_token_sp};
use crate::cache::{cache_lookup, parsed_doc, lemma_cache_lookup_push};
use crate::extract::spec_extract;

// ------------------------------------------------------------------
// small helpers: class tokens and one-child trees
// ------------------------------------------------------------------

/// Two strings differing in length or at one position are distinct.
proof fn lemma_lit_neq(a: Seq<char>, b: Seq<char>, i: int)
    requires
        a.len() != b.len() || (0 <= i < a.len() && i < b.len() && a[i] != b[i]),
    ensures
        a != b,
{
    if a == b {
        assert(a.len() == b.len());
        if 0 <= i < a.len() {
            assert(a[i] == b[i]);
        }
    }
}

/// The tag names the parser dispatches on are pairwise distinct, and the two
/// classified list tags match neither the inline allow-list nor a heading.
proof fn lemma_tag_facts()
    ensures
        !allowed_tag("dl"@),
        !h_tag("dl"@),
        !allowed_tag("div"@),
        !h_tag("div"@),
        "div"@ != "dl"@,
        "a"@ != "p"@,
        "b"@ != "p"@ && "b"@ != "a"@,
        "i"@ != "p"@ && "i"@ != "a"@ && "i"@ != "b"@ && "i"@ != "strong"@,
        "u"@ != "p"@ && "u"@ != "a"@ && "u"@ != "b"@ && "u"@ != "strong"@ && "u"@ != "i"@ && "u"@
            != "em"@,
        "code"@ != "p"@ && "code"@ != "a"@ && "code"@ != "b"@ && "code"@ != "strong"@ && "code"@
            != "i"@ && "code"@ != "em"@ && "code"@ != "u"@,
        "div"@ != "p"@ && "div"@ != "a"@ && "div"@ != "b"@ && "div"@ != "strong"@ && "div"@
            != "i"@ && "div"@ != "em"@ && "div"@ != "u"@ && "div"@ != "code"@ && "div"@ != "ul"@
            && "div"@ != "ol"@,
        "dl"@ != "p"@ && "dl"@ != "a"@ && "dl"@ != "b"@ && "dl"@ != "strong"@ && "dl"@ != "i"@
            && "dl"@ != "em"@ && "dl"@ != "u"@ && "dl"@ != "code"@ && "dl"@ != "ul"@ && "dl"@
            != "ol"@,
        "dt"@ != "dd"@ && "dd"@ != "dt"@,
{
    reveal_strlit("p");
    reveal_strlit("a");
    reveal_strlit("b");
    reveal_strlit("strong");
    reveal_strlit("i");
    reveal_strlit("em");
    reveal_strlit("u");
    reveal_strlit("code");
    reveal_strlit("ul");
    reveal_strlit("ol");
    reveal_strlit("div");
    reveal_strlit("dl");
    reveal_strlit("dt");
    reveal_strlit("dd");
    lemma_lit_neq("div"@, "dl"@, 0);
    lemma_lit_neq("a"@, "p"@, 0);
    lemma_lit_neq("b"@, "p"@, 0);
    lemma_lit_neq("b"@, "a"@, 0);
    lemma_lit_neq("i"@, "p"@, 0);
    lemma_lit_neq("i"@, "a"@, 0);
    lemma_lit_neq("i"@, "b"@, 0);
    lemma_lit_neq("i"@, "strong"@, 0);
    lemma_lit_neq("u"@, "p"@, 0);
    lemma_lit_neq("u"@, "a"@, 0);
    lemma_lit_neq("u"@, "b"@, 0);
    lemma_lit_neq("u"@, "strong"@, 0);
    lemma_lit_neq("u"@, "i"@, 0);
    lemma_lit_neq("u"@, "em"@, 0);
    lemma_lit_neq("code"@, "p"@, 0);
    lemma_lit_neq("code"@, "a"@, 0);
    lemma_lit_neq("code"@, "b"@, 0);
    lemma_lit_neq("code"@, "strong"@, 0);
    lemma_lit_neq("code"@, "i"@, 0);
    lemma_lit_neq("code"@, "em"@, 0);
    lemma_lit_neq("code"@, "u"@, 0);
    lemma_lit_neq("div"@, "p"@, 0);
    lemma_lit_neq("div"@, "a"@, 0);
    lemma_lit_neq("div"@, "b"@, 0);
    lemma_lit_neq("div"@, "strong"@, 0);
    lemma_lit_neq("div"@, "i"@, 0);
    lemma_lit_neq("div"@, "em"@, 0);
    lemma_lit_neq("div"@, "u"@, 0);
    lemma_lit_neq("div"@, "code"@, 0);
    lemma_lit_neq("div"@, "ul"@, 0);
    lemma_lit_neq("div"@, "ol"@, 0);
    lemma_lit_neq("dl"@, "p"@, 0);
    lemma_lit_neq("dl"@, "a"@, 0);
    lemma_lit_neq("dl"@, "b"@, 0);
    lemma_lit_neq("dl"@, "strong"@, 0);
    lemma_lit_neq("dl"@, "i"@, 0);
    lemma_lit_neq("dl"@, "em"@, 0);
    lemma_lit_neq("dl"@, "u"@, 0);
    lemma_lit_neq("dl"@, "code"@, 0);
    lemma_lit_neq("dl"@, "ul"@, 0);
    lemma_lit_neq("dl"@, "ol"@, 0);
    lemma_lit_neq("dt"@, "dd"@, 1);
    lemma_lit_neq("dd"@, "dt"@, 1);
    assert(!allowed_tag("dl"@));
    assert(!h_tag("dl"@));
    assert(!allowed_tag("div"@));
    assert(!h_tag("div"@));
}

/// Splitting a space-free string on spaces yields the accumulated token alone.
proof fn lemma_split_sp_nospace(s: Seq<char>, cur: Seq<char>)
    requires
        forall|i: int| 0 <= i < s.len() ==> s[i] != ' ',
    ensures
        spec_split_sp(s, cur) == seq![cur + s],
    decreases s.len(),
{
    if s.len() == 0 {
        assert(cur + s =~= cur);
    } else {
        assert(forall|i: int| 0 <= i < s.drop_first().len() ==> s.drop_first()[i] != ' ');
        lemma_split_sp_nospace(s.drop_first(), cur.push(s[0]));
        assert(cur.push(s[0]) + s.drop_first() =~= cur + s);
    }
}

/// A space-free class attribute carries exactly itself as a token.
proof fn lemma_token_self(s: Seq<char>)
    requires
        forall|i: int| 0 <= i < s.len() ==> s[i] != ' ',
    ensures
        spec_has_token_sp(s, s),
{
    lemma_split_sp_nospace(s, Seq::empty());
    assert(Seq::empty() + s =~= s);
    assert(spec_split_sp(s, Seq::empty())[0] == s);
}

/// A space-free class attribute carries no other token.
proof fn lemma_token_only(s: Seq<char>, name: Seq<char>)
    requires
        forall|i: int| 0 <= i < s.len() ==> s[i] != ' ',
        name != s,
    ensures
        !spec_has_token_sp(s, name),
{
    lemma_split_sp_nospace(s, Seq::empty());
    assert(Seq::empty() + s =~= s);
    if spec_has_token_sp(s, name) {
        let i = choose|i: int|
            0 <= i < spec_split_sp(s, Seq::empty()).len() && spec_split_sp(s, Seq::empty())[i]
                == name;
        assert(spec_split_sp(s, Seq::empty())[i] == s);
    }
}

/// A text node.
pub open spec fn txt(x: Seq<char>) -> NodeView {
    NodeView::Text { text: x }
}

/// An element without attributes.
pub open spec fn el(tag: Seq<char>, children: Seq<NodeView>) -> NodeView {
    NodeView::Element { tag, attrs: Seq::empty(), children }
}

/// An element with one attribute.
pub open spec fn el1(
    tag: Seq<char>,
    aname: Seq<char>,
    aval: Seq<char>,
    children: Seq<NodeView>,
) -> NodeView {
    NodeView::Element { tag, attrs: seq![(aname, aval)], children }
}

/// A content region: the description element the parser is run on.
pub open spec fn region(children: Seq<NodeView>) -> NodeView {
    el("dd"@, children)
}

proof fn lemma_size_leaf(tag: Seq<char>, attrs: Seq<(Seq<char>, Seq<char>)>, x: Seq<char>)
    ensures
        nv_size(NodeView::Element { tag, attrs, children: seq![txt(x)] }) == 2,
        nv_size(NodeView::Element { tag, attrs, children: Seq::empty() }) == 1,
{
    let cs = seq![txt(x)];
    assert(nv_size_from(cs, 1) == 0);
    assert(nv_size_from(cs, 0) == nv_size(txt(x)) + nv_size_from(cs, 1));
    assert(nv_size_from(Seq::<NodeView>::empty(), 0) == 0);
}

/// Parsing an element whose only child is a text run yields that text and no
/// fields, at any positive fuel.
proof fn lemma_parse_text_elem(
    tag: Seq<char>,
    attrs: Seq<(Seq<char>, Seq<char>)>,
    x: Seq<char>,
    url: Seq<char>,
    fuel: nat,
)
    requires
        fuel >= 1,
    ensures
        (parse_rec(NodeView::Element { tag, attrs, children: seq![txt(x)] }, url, fuel) == (
        x,
        Seq::<FieldView>::empty(),
        )),
    decreases fuel,
{
    let e = NodeView::Element { tag, attrs, children: seq![txt(x)] };
    let cs = seq![txt(x)];
    assert(walk_seq(cs, 1) =~= Seq::<ContentView>::empty());
    let f2 = (fuel - 1) as nat;
    if x.len() > 0 {
        assert(spec_walk(e) == seq![ContentView::Text(x)] + walk_seq(cs, 1));
        assert(spec_walk(e) =~= seq![ContentView::Text(x)]);
        let st1 = parse_step(ContentView::Text(x), url, init_state(), f2);
        assert(st1.text =~= x);
        assert(st1.fields =~= Seq::<FieldView>::empty());
        assert(spec_walk(e)[0] == ContentView::Text(x));
        assert(spec_walk(e).drop_first() =~= Seq::<ContentView>::empty());
        assert(parse_items(Seq::<ContentView>::empty(), url, st1, f2) == (st1.text, st1.fields));
        assert(parse_items(spec_walk(e), url, init_state(), f2) == (st1.text, st1.fields));
    } else {
        assert(spec_walk(e) == Seq::<ContentView>::empty() + walk_seq(cs, 1));
        assert(spec_walk(e) =~= Seq::<ContentView>::empty());
        assert(parse_items(spec_walk(e), url, init_state(), f2) == (
            Seq::<char>::empty(),
            Seq::<FieldView>::empty(),
        ));
        assert(x =~= Seq::<char>::empty());
    }
}

/// Parsing a childless element yields nothing, at any positive fuel.
proof fn lemma_parse_empty_elem(
    tag: Seq<char>,
    attrs: Seq<(Seq<char>, Seq<char>)>,
    url: Seq<char>,
    fuel: nat,
)
    requires
        fuel >= 1,
    ensures
        (parse_rec(NodeView::Element { tag, attrs, children: Seq::empty() }, url, fuel) == (
        Seq::<char>::empty(),
        Seq::<FieldView>::empty(),
        )),
{
    let e = NodeView::Element { tag, attrs, children: Seq::empty() };
    assert(spec_walk(e) =~= Seq::<ContentView>::empty());
    let f2 = (fuel - 1) as nat;
    assert(parse_items(spec_walk(e), url, init_state(), f2) == (
        Seq::<char>::empty(),
        Seq::<FieldView>::empty(),
    ));
}

/// Parsing a region holding one walked element applies that element's step to
/// the empty state.
proof fn lemma_parse_region_single(inner: NodeView, url: Seq<char>)
    requires
        inner matches NodeView::Element { tag, .. } && (allowed_tag(tag) || (nv_attr(
            inner,
            "class"@,
        ) is Some && tag == "dl"@ && nv_has_class(inner, "field-list"@)) || (nv_attr(
            inner,
            "class"@,
        ) is Some && tag == "div"@ && div_special(inner))),
    ensures
        ({
            let st = parse_step(
                ContentView::Element(inner),
                url,
                init_state(),
                (nv_size(region(seq![inner])) - 1) as nat,
            );
            spec_parse(region(seq![inner]), url) == (st.text, st.fields)
        }),
{
    let r = region(seq![inner]);
    let cs = seq![inner];
    lemma_tag_facts();
    crate::tree::lemma_nv_size_pos(inner);
    assert(nv_size_from(cs, 1) == 0);
    assert(nv_size_from(cs, 0) == nv_size(inner));
    assert(nv_size(r) == 1 + nv_size(inner));
    assert(walk_seq(cs, 1) =~= Seq::<ContentView>::empty());
    let tag = inner->Element_tag;
    if allowed_tag(tag) {
        assert(walk_seq(cs, 0) == seq![ContentView::Element(inner)] + walk_seq(cs, 1));
    } else {
        assert(tag == "dl"@ || tag == "div"@);
        assert(!h_tag(tag));
        assert(walk_seq(cs, 0) == seq![ContentView::Element(inner)] + walk_seq(cs, 1));
    }
    assert(spec_walk(r) =~= seq![ContentView::Element(inner)]);
    let fuel = (nv_size(r) - 1) as nat;
    let st = parse_step(ContentView::Element(inner), url, init_state(), fuel);
    assert(spec_walk(r)[0] == ContentView::Element(inner));
    assert(spec_walk(r).drop_first() =~= Seq::<ContentView>::empty());
    assert(parse_items(Seq::<ContentView>::empty(), url, st, fuel) == (st.text, st.fields));
    assert(parse_items(spec_walk(r), url, init_state(), fuel) == (st.text, st.fields));
}

// ------------------------------------------------------------------
// the laws
// ------------------------------------------------------------------

/// Caching is idempotent: when a URL is first seen, `get_or_parse` stores the
/// document parsed from that call's page text, and every later call for the
/// same URL finds exactly that stored document, whatever page text it brings.
pub proof fn lemma_cache_first_parse_wins(
    m: Seq<(Seq<char>, Seq<NodeView>)>,
    url: Seq<char>,
    h1: Seq<char>,
)
    requires
        cache_lookup(m, url) is None,
    ensures
        cache_lookup(m.push((url, parsed_doc(h1))), url) == Some(parsed_doc(h1)),
{
    lemma_cache_lookup_push(m, url, parsed_doc(h1), 0);
}

/// A fresh cache holds no document, and immediately after `get_or_parse` for
/// a URL the cache holds one for it.
pub proof fn lemma_has_document_lifecycle(
    m: Seq<(Seq<char>, Seq<NodeView>)>,
    url: Seq<char>,
    h: Seq<char>,
)
    ensures
        cache_lookup(Seq::<(Seq<char>, Seq<NodeView>)>::empty(), url) is None,
        ({
            let after = if cache_lookup(m, url) is Some {
                m
            } else {
                m.push((url, parsed_doc(h)))
            };
            cache_lookup(after, url) is Some
        }),
{
    if cache_lookup(m, url) is None {
        lemma_cache_lookup_push(m, url, parsed_doc(h), 0);
    }
}

/// Formatting round trip: bold, italic, underline and inline-code elements
/// with non-empty inner text render as `**x**`, `*x*`, `__x__` and `` `x` ``.
pub proof fn lemma_format_round_trip(x: Seq<char>, url: Seq<char>)
    requires
        x.len() > 0,
    ensures
        spec_parse(region(seq![el("b"@, seq![txt(x)])]), url) == (
            "**"@ + x + "**"@,
            Seq::<FieldView>::empty(),
        ),
        spec_parse(region(seq![el("i"@, seq![txt(x)])]), url) == (
            "*"@ + x + "*"@,
            Seq::<FieldView>::empty(),
        ),
        spec_parse(region(seq![el("u"@, seq![txt(x)])]), url) == (
            "__"@ + x + "__"@,
            Seq::<FieldView>::empty(),
        ),
        spec_parse(region(seq![el("code"@, seq![txt(x)])]), url) == (
            "`"@ + x + "`"@,
            Seq::<FieldView>::empty(),
        ),
{
    lemma_tag_facts();
    lemma_wrap_one(x, url, "b"@, "**"@);
    lemma_wrap_one(x, url, "i"@, "*"@);
    lemma_wrap_one(x, url, "u"@, "__"@);
    lemma_wrap_one(x, url, "code"@, "`"@);
}

/// One wrapping arm of the formatter: a recognized inline tag wraps its inner
/// text in its marker on both sides and yields no fields.
proof fn lemma_wrap_one(x: Seq<char>, url: Seq<char>, tag: Seq<char>, marker: Seq<char>)
    requires
        (tag == "b"@ && marker == "**"@) || (tag == "i"@ && marker == "*"@) || (tag == "u"@
            && marker == "__"@) || (tag == "code"@ && marker == "`"@),
    ensures
        spec_parse(region(seq![NodeView::Element {
            tag,
            attrs: Seq::empty(),
            children: seq![txt(x)],
        }]), url) == (marker + x + marker, Seq::<FieldView>::empty()),
{
    lemma_tag_facts();
    let inner = NodeView::Element { tag, attrs: Seq::empty(), children: seq![txt(x)] };
    assert(allowed_tag(tag));
    lemma_parse_region_single(inner, url);
    let fuel = (nv_size(region(seq![inner])) - 1) as nat;
    lemma_size_leaf(tag, Seq::empty(), x);
    assert(nv_size_from(seq![inner], 1) == 0);
    assert(nv_size(region(seq![inner])) == 3);
    lemma_parse_text_elem(tag, Seq::empty(), x, url, fuel);
    let st = parse_step(ContentView::Element(inner), url, init_state(), fuel);
    assert(st.text =~= marker + x + marker);
    assert(st.fields =~= Seq::<FieldView>::empty());
}

/// Link resolution: a relative reference is prefixed with the base URL, an
/// absolute one is kept unchanged, and an anchor without a reference
/// contributes no output and no error.
pub proof fn lemma_link_resolution(
    x: Seq<char>,
    url: Seq<char>,
    href: Seq<char>,
)
    ensures
        !spec_has_scheme(href) ==> spec_parse(
            region(seq![el1("a"@, "href"@, href, seq![txt(x)])]),
            url,
        ) == ("["@ + x + "]("@ + url + href + ")"@, Seq::<FieldView>::empty()),
        spec_has_scheme(href) ==> spec_parse(
            region(seq![el1("a"@, "href"@, href, seq![txt(x)])]),
            url,
        ) == ("["@ + x + "]("@ + href + ")"@, Seq::<FieldView>::empty()),
        spec_parse(region(seq![el("a"@, seq![txt(x)])]), url) == (
            Seq::<char>::empty(),
            Seq::<FieldView>::empty(),
        ),
{
    lemma_tag_facts();
    let with = el1("a"@, "href"@, href, seq![txt(x)]);
    let without = el("a"@, seq![txt(x)]);
    lemma_parse_region_single(with, url);
    lemma_parse_region_single(without, url);
    lemma_size_leaf("a"@, seq![("href"@, href)], x);
    lemma_size_leaf("a"@, Seq::empty(), x);
    assert(nv_size_from(seq![with], 1) == 0);
    assert(nv_size_from(seq![without], 1) == 0);
    assert(nv_size(region(seq![with])) == 3);
    assert(nv_size(region(seq![without])) == 3);
    lemma_parse_text_elem("a"@, seq![("href"@, href)], x, url, 2);
    lemma_parse_text_elem("a"@, Seq::empty(), x, url, 2);
    assert(nv_attr(with, "href"@) == Some(href)) by {
        assert(seq![("href"@, href)][0].0 == "href"@);
    }
    assert(nv_attr(without, "href"@) is None);
    let st_with = parse_step(ContentView::Element(with), url, init_state(), 2);
    if !spec_has_scheme(href) {
        assert(st_with.text =~= "["@ + x + "]("@ + url + href + ")"@);
    } else {
        assert(st_with.text =~= "["@ + x + "]("@ + href + ")"@);
    }
    assert(st_with.fields =~= Seq::<FieldView>::empty());
    let st_wo = parse_step(ContentView::Element(without), url, init_state(), 2);
    assert(st_wo.text =~= Seq::<char>::empty());
    assert(st_wo.fields =~= Seq::<FieldView>::empty());
}

/// Admonition suppression: an admonition whose title, or whose content, trims
/// to nothing produces no field and no text.
pub proof fn lemma_admonition_suppressed(
    t: Seq<char>,
    c: Seq<char>,
    url: Seq<char>,
)
    requires
        spec_trim(t).len() == 0 || spec_trim(c).len() == 0,
    ensures
        ({
            let dv = el1(
                "div"@,
                "class"@,
                "admonition"@,
                seq![el("p"@, seq![txt(t)]), el("p"@, seq![txt(c)])],
            );
            spec_parse(region(seq![dv]), url) == (
                Seq::<char>::empty(),
                Seq::<FieldView>::empty(),
            )
        }),
{
    lemma_tag_facts();
    reveal_strlit("ul");
    reveal_strlit("ol");
    reveal_strlit("class");
    reveal_strlit("admonition");
    let p1 = el("p"@, seq![txt(t)]);
    let p2 = el("p"@, seq![txt(c)]);
    let dv = el1("div"@, "class"@, "admonition"@, seq![p1, p2]);
    assert(nv_attr(dv, "class"@) == Some("admonition"@)) by {
        assert(seq![("class"@, "admonition"@)][0].0 == "class"@);
    }
    assert(forall|i: int| 0 <= i < "admonition"@.len() ==> "admonition"@[i] != ' ');
    lemma_token_self("admonition"@);
    assert(nv_has_class(dv, "admonition"@));
    lemma_parse_region_single(dv, url);
    lemma_size_leaf("p"@, Seq::empty(), t);
    lemma_size_leaf("p"@, Seq::empty(), c);
    let dcs = seq![p1, p2];
    assert(nv_size_from(dcs, 2) == 0);
    assert(nv_size_from(dcs, 1) == 2);
    assert(nv_size_from(dcs, 0) == 4);
    assert(nv_size(dv) == 5);
    assert(nv_size_from(seq![dv], 1) == 0);
    assert(nv_size(region(seq![dv])) == 6);
    let fuel: nat = 5;
    assert(find_pnext_seq(dcs, 0) == Some((p1, Some(p2))));
    assert(find_pnext_in(dv) == Some((p1, Some(p2))));
    lemma_parse_text_elem("p"@, Seq::empty(), t, url, fuel);
    lemma_parse_text_elem("p"@, Seq::empty(), c, url, fuel);
    let st = parse_step(ContentView::Element(dv), url, init_state(), fuel);
    assert(st.text =~= Seq::<char>::empty());
    assert(st.fields =~= Seq::<FieldView>::empty());
}

/// Definition-list fallback: a named pair whose description parses to nothing
/// yields a field whose value is exactly the fixed placeholder.
pub proof fn lemma_dl_fallback(x: Seq<char>, url: Seq<char>)
    requires
        x.len() > 0,
    ensures
        ({
            let dl = el1(
                "dl"@,
                "class"@,
                "field-list"@,
                seq![el("dt"@, seq![txt(x)]), el("dd"@, Seq::empty())],
            );
            spec_parse(region(seq![dl]), url) == (
                Seq::<char>::empty(),
                seq![FieldView { name: x, value: "No content provided."@, inline: false }],
            )
        }),
{
    lemma_tag_facts();
    reveal_strlit("ul");
    reveal_strlit("ol");
    reveal_strlit("class");
    reveal_strlit("field-list");
    let dt = el("dt"@, seq![txt(x)]);
    let dd = el("dd"@, Seq::empty());
    let dl = el1("dl"@, "class"@, "field-list"@, seq![dt, dd]);
    assert(nv_attr(dl, "class"@) == Some("field-list"@)) by {
        assert(seq![("class"@, "field-list"@)][0].0 == "class"@);
    }
    assert(forall|i: int| 0 <= i < "field-list"@.len() ==> "field-list"@[i] != ' ');
    lemma_token_self("field-list"@);
    assert(nv_has_class(dl, "field-list"@));
    lemma_parse_region_single(dl, url);
    lemma_size_leaf("dt"@, Seq::empty(), x);
    lemma_size_leaf("dd"@, Seq::empty(), x);
    let cs = seq![dt, dd];
    assert(nv_size_from(cs, 2) == 0);
    assert(nv_size_from(cs, 1) == 1);
    assert(nv_size_from(cs, 0) == 3);
    assert(nv_size(dl) == 4);
    assert(nv_size_from(seq![dl], 1) == 0);
    assert(nv_size(region(seq![dl])) == 5);
    let fuel: nat = 4;
    // the dt and dd descendants found under the definition list
    assert(find_all_in(txt(x), NodePred::Tag("dt"@)) =~= Seq::<NodeView>::empty());
    assert(find_all_seq(seq![txt(x)], NodePred::Tag("dt"@), 1) =~= Seq::<NodeView>::empty());
    assert(find_all_in(dt, NodePred::Tag("dt"@)) =~= Seq::<NodeView>::empty()) by {
        assert(find_all_seq(seq![txt(x)], NodePred::Tag("dt"@), 0) =~= Seq::<NodeView>::empty());
    }
    assert(find_all_in(dd, NodePred::Tag("dt"@)) =~= Seq::<NodeView>::empty());
    assert(find_all_seq(cs, NodePred::Tag("dt"@), 2) =~= Seq::<NodeView>::empty());
    assert(find_all_seq(cs, NodePred::Tag("dt"@), 1) =~= Seq::<NodeView>::empty());
    assert(find_all_seq(cs, NodePred::Tag("dt"@), 0) =~= seq![dt]);
    assert(find_all_in(dl, NodePred::Tag("dt"@)) =~= seq![dt]);
    assert(find_all_in(txt(x), NodePred::Tag("dd"@)) =~= Seq::<NodeView>::empty());
    assert(find_all_seq(seq![txt(x)], NodePred::Tag("dd"@), 1) =~= Seq::<NodeView>::empty());
    assert(find_all_in(dt, NodePred::Tag("dd"@)) =~= Seq::<NodeView>::empty()) by {
        assert(find_all_seq(seq![txt(x)], NodePred::Tag("dd"@), 0) =~= Seq::<NodeView>::empty());
    }
    assert(find_all_in(dd, NodePred::Tag("dd"@)) =~= Seq::<NodeView>::empty());
    assert(find_all_seq(cs, NodePred::Tag("dd"@), 2) =~= Seq::<NodeView>::empty());
    assert(find_all_seq(cs, NodePred::Tag("dd"@), 1) =~= seq![dd]);
    assert(find_all_seq(cs, NodePred::Tag("dd"@), 0) =~= seq![dd]);
    assert(find_all_in(dl, NodePred::Tag("dd"@)) =~= seq![dd]);
    lemma_parse_text_elem("dt"@, Seq::empty(), x, url, fuel);
    lemma_parse_empty_elem("dd"@, Seq::empty(), url, fuel);
    let st0 = init_state();
    assert(seq![dt].drop_first() =~= Seq::<NodeView>::empty());
    assert(seq![dd].drop_first() =~= Seq::<NodeView>::empty());
    assert(seq![dt][0] == dt);
    assert(seq![dd][0] == dd);
    let r1 = parse_rec(dt, url, fuel);
    let r2 = parse_rec(dd, url, fuel);
    assert(r1.0 == x && r2.0.len() == 0);
    let st1 = ParseState { fields: st0.fields + r1.1 + r2.1, ..st0 };
    let st2 = ParseState {
        fields: st1.fields + seq![
            FieldView { name: x, value: "No content provided."@, inline: false },
        ],
        ..st1
    };
    assert(parse_pairs(Seq::<NodeView>::empty(), Seq::<NodeView>::empty(), url, st2, fuel)
        == st2);
    assert(parse_pairs(seq![dt], seq![dd], url, st0, fuel) == st2);
    let st = parse_step(ContentView::Element(dl), url, st0, fuel);
    assert(st == st2);
    assert(st.text =~= Seq::<char>::empty());
    assert(st.fields =~= seq![
        FieldView { name: x, value: "No content provided."@, inline: false },
    ]);
}

/// Non-field-list boundary: a definition list with any other class ends the
/// walk of its sibling set, so only content before it is parsed.
pub proof fn lemma_dl_boundary(
    a: Seq<char>,
    b: Seq<char>,
    inner: Seq<NodeView>,
    url: Seq<char>,
)
    ensures
        ({
            let regionv = region(
                seq![
                    el("p"@, seq![txt(a)]),
                    el1("dl"@, "class"@, "x"@, inner),
                    el("p"@, seq![txt(b)]),
                ],
            );
            spec_parse(regionv, url) == (a, Seq::<FieldView>::empty())
        }),
{
    lemma_tag_facts();
    reveal_strlit("class");
    reveal_strlit("x");
    reveal_strlit("field-list");
    reveal_strlit("rubric");
    let pa = el("p"@, seq![txt(a)]);
    let dlx = el1("dl"@, "class"@, "x"@, inner);
    let pb = el("p"@, seq![txt(b)]);
    let cs = seq![pa, dlx, pb];
    let regionv = region(cs);
    // sizes
    crate::tree::lemma_nv_size_pos(dlx);
    lemma_size_leaf("p"@, Seq::empty(), a);
    lemma_size_leaf("p"@, Seq::empty(), b);
    assert(nv_size_from(cs, 3) == 0);
    assert(nv_size_from(cs, 2) == 2);
    assert(nv_size_from(cs, 1) == nv_size(dlx) + 2);
    assert(nv_size_from(cs, 0) == nv_size(dlx) + 4);
    assert(nv_size(regionv) == nv_size(dlx) + 5);
    let full: nat = nv_size(regionv);
    let fuel: nat = (full - 1) as nat;
    assert(fuel >= 5);
    // the walk stops at the non-field definition list
    assert(nv_attr(dlx, "class"@) == Some("x"@)) by {
        assert(seq![("class"@, "x"@)][0].0 == "class"@);
    }
    assert(forall|i: int| 0 <= i < "x"@.len() ==> "x"@[i] != ' ');
    lemma_lit_neq("field-list"@, "x"@, 0);
    lemma_token_only("x"@, "field-list"@);
    assert(!nv_has_class(dlx, "field-list"@));
    assert(walk_seq(cs, 1) =~= Seq::<ContentView>::empty());
    assert(walk_seq(cs, 0) == seq![ContentView::Element(pa)] + walk_seq(cs, 1));
    assert(spec_walk(regionv) =~= seq![ContentView::Element(pa)]);
    // the first paragraph is parsed as inline text
    assert(nv_attr(pa, "class"@) is None);
    lemma_lit_neq("rubric"@, Seq::empty(), 0);
    lemma_token_only(Seq::empty(), "rubric"@);
    assert(nv_class(pa) =~= Seq::<char>::empty());
    assert(!nv_has_class(pa, "rubric"@));
    lemma_parse_text_elem("p"@, Seq::empty(), a, url, fuel);
    let st = parse_step(ContentView::Element(pa), url, init_state(), fuel);
    assert(st.text =~= a);
    assert(st.fields =~= Seq::<FieldView>::empty());
    assert(spec_walk(regionv)[0] == ContentView::Element(pa));
    assert(spec_walk(regionv).drop_first() =~= Seq::<ContentView>::empty());
    assert(parse_items(Seq::<ContentView>::empty(), url, st, fuel) == (st.text, st.fields));
    assert(parse_items(spec_walk(regionv), url, init_state(), fuel) == (st.text, st.fields));
}

/// Orchestrator error: a document without the target signature yields the
/// signature-not-found error and nothing else; one whose signature's parent
/// has no description yields the description-not-found error.
pub proof fn lemma_extract_errors(doc: Seq<NodeView>, url: Seq<char>, target: Seq<char>)
    ensures
        find_sig_forest(doc, target, 0) is None ==> spec_extract(doc, url, target) == Err::<
            (Seq<char>, Seq<crate::signature::SpanView>, Seq<FieldView>),
            Seq<char>,
        >("Could not find sig tag"@),
        (find_sig_forest(doc, target, 0) matches Some(sig) && crate::tree::find_first_in(
            sig.0,
            NodePred::Tag("dd"@),
        ) is None) ==> spec_extract(doc, url, target) == Err::<
            (Seq<char>, Seq<crate::signature::SpanView>, Seq<FieldView>),
            Seq<char>,
        >("Could not find dd tag"@),
{
}

} // verus!
