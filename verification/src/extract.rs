use vstd::prelude::*;

verus! {

use crate::tree::{NodeView, NodePred, nodes_view, find_sig_forest, find_first_in, find_first_tag};
use crate::cache::{DocumentCache, cache_lookup, parsed_doc};
use crate::content::{EmbedField, FieldView, fields_view, spec_parse, parse_node};
use crate::signature::{AnsiStringSection, SpanView, spans_view, sig_spans, parse_signature_node};

/// The assembled output for one documented symbol.
#[derive(Debug)]
pub struct SphinxDocumentResult {
    pub description: String,
    pub signature: Vec<AnsiStringSection>,
    pub fields: Vec<EmbedField>,
}

/// The one error the extraction surfaces: the signature or its description
/// could not be located.
#[derive(Debug)]
pub struct ScrapeError {
    pub message: String,
}

/// What extracting `target` from a parsed document yields: the description's
/// markdown and fields with the signature's tokens, or the error message.
pub open spec fn spec_extract(
    doc: Seq<NodeView>,
    url: Seq<char>,
    target: Seq<char>,
) -> Result<(Seq<char>, Seq<SpanView>, Seq<FieldView>), Seq<char>> {
    match find_sig_forest(doc, target, 0) {
        None => Err("Could not find sig tag"@),
        Some(sig) => match find_first_in(sig.0, NodePred::Tag("dd"@)) {
            None => Err("Could not find dd tag"@),
            Some(dd) => {
                let p = spec_parse(dd, url);
                Ok((p.0, sig_spans(sig.1), p.1))
            },
        },
    }
}

impl DocumentCache {
    /// Resolves the signature element `dt` with id `target` and its sibling
    /// description `dd` in the document cached for `url` (parsing `html` on a
    /// first visit), then parses both.  Fails, and returns no partial result,
    /// exactly when the signature or the description is missing.
    pub fn scrape_document(&mut self, url: &str, html: &str, target: &str) -> (r: Result<
        SphinxDocumentResult,
        ScrapeError,
    >)
        ensures
            (match cache_lookup(old(self)@, url@) {
                Some(d) => final (self)@ == old(self)@,
                None => final (self)@ == old(self)@.push((url@, parsed_doc(html@))),
            }),
            ({
                let d = match cache_lookup(old(self)@, url@) {
                    Some(d) => d,
                    None => parsed_doc(html@),
                };
                match r {
                    Ok(res) => spec_extract(d, url@, target@) == Ok::<
                        (Seq<char>, Seq<SpanView>, Seq<FieldView>),
                        Seq<char>,
                    >((res.description@, spans_view(res.signature@), fields_view(res.fields@))),
                    Err(e) => spec_extract(d, url@, target@) == Err::<
                        (Seq<char>, Seq<SpanView>, Seq<FieldView>),
                        Seq<char>,
                    >(e.message@),
                }
            }),
    {
        let doc = self.get_or_parse(url, html);
        let ghost d = nodes_view(doc@, 0);
        match crate::tree::find_sig(&doc, target) {
            None => Err(ScrapeError { message: "Could not find sig tag".to_owned() }),
            Some((parent, dt)) => {
                match find_first_tag(parent, "dd") {
                    None => Err(ScrapeError { message: "Could not find dd tag".to_owned() }),
                    Some(dd) => {
                        let parsed = parse_node(dd, url);
                        let spans = parse_signature_node(dt);
                        Ok(
                            SphinxDocumentResult {
                                description: parsed.0,
                                signature: spans,
                                fields: parsed.1,
                            },
                        )
                    },
                }
            },
        }
    }
}

} // verus!
