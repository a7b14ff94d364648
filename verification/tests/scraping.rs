use sphinx_scraper::cache::DocumentCache;

const PAGE: &str = "<html><body><dl><dt id=\"mod.func\"><span class=\"sig-name\">func</span><span class=\"sig-paren\">(</span><span class=\"sig-paren\">)</span></dt><dd><p>Does a <b>thing</b>.</p></dd></dl></body></html>";

#[test]
fn scrape_document_extracts_description_and_signature() {
    let mut cache = DocumentCache::new();
    let result = cache
        .scrape_document("https://docs.example.com/page", PAGE, "mod.func")
        .unwrap();
    assert_eq!(result.description, "Does a **thing**.");
    let texts: Vec<&str> = result
        .signature
        .iter()
        .map(|s| s.content.as_str())
        .collect();
    assert_eq!(texts, vec!["func", "(", ")"]);
    assert!(result.fields.is_empty());
}

#[test]
fn scrape_document_resolves_relative_links_against_the_url() {
    let page = "<html><body><dl><dt id=\"t\">sig</dt><dd><p><a href=\"/api\">api</a></p></dd></dl></body></html>";
    let mut cache = DocumentCache::new();
    let result = cache
        .scrape_document("https://docs.example.com", page, "t")
        .unwrap();
    assert_eq!(result.description, "[api](https://docs.example.com/api)");
}

#[test]
fn missing_signature_is_a_not_found_error() {
    let mut cache = DocumentCache::new();
    let err = cache
        .scrape_document("https://docs.example.com/page", PAGE, "missing-id")
        .unwrap_err();
    assert_eq!(err.message, "Could not find sig tag");
}

#[test]
fn missing_description_is_a_not_found_error() {
    let page = "<html><body><dl><dt id=\"mod.func\">sig</dt></dl></body></html>";
    let mut cache = DocumentCache::new();
    let err = cache
        .scrape_document("https://docs.example.com/page", page, "mod.func")
        .unwrap_err();
    assert_eq!(err.message, "Could not find dd tag");
}

#[test]
fn first_parse_wins_for_a_cached_url() {
    let first = "<html><body><dl><dt id=\"t\">sig</dt><dd><p>first</p></dd></dl></body></html>";
    let second = "<html><body><dl><dt id=\"t\">sig</dt><dd><p>second</p></dd></dl></body></html>";
    let mut cache = DocumentCache::new();
    let url = "https://docs.example.com/page";
    let r1 = cache.scrape_document(url, first, "t").unwrap();
    assert_eq!(r1.description, "first");
    let r2 = cache.scrape_document(url, second, "t").unwrap();
    assert_eq!(r2.description, "first");
}

#[test]
fn distinct_urls_are_parsed_separately() {
    let first = "<html><body><dl><dt id=\"t\">sig</dt><dd><p>first</p></dd></dl></body></html>";
    let second = "<html><body><dl><dt id=\"t\">sig</dt><dd><p>second</p></dd></dl></body></html>";
    let mut cache = DocumentCache::new();
    let r1 = cache
        .scrape_document("https://docs.example.com/a", first, "t")
        .unwrap();
    let r2 = cache
        .scrape_document("https://docs.example.com/b", second, "t")
        .unwrap();
    assert_eq!(r1.description, "first");
    assert_eq!(r2.description, "second");
}

#[test]
fn real_admonition_markup_becomes_a_field() {
    let page = "<html><body><dl><dt id=\"t\">sig</dt><dd><div class=\"admonition warning\"><p class=\"admonition-title\">Warning</p><p>Do not.</p></div></dd></dl></body></html>";
    let mut cache = DocumentCache::new();
    let result = cache
        .scrape_document("https://docs.example.com/page", page, "t")
        .unwrap();
    assert_eq!(result.fields.len(), 1);
    assert_eq!(result.fields[0].name, "Warning");
    assert_eq!(result.fields[0].value, "Do not.");
}
