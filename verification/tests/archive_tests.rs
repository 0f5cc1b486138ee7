use page_archiver::Error;
use page_archiver::PageArchive;
use page_archiver::extract::ResourceKind;
use page_archiver::orchestrator::ArchiveSession;
use page_archiver::orchestrator::FetchRequest;
use page_archiver::page_archive::FileData;
use page_archiver::parsing::Resource;
use page_archiver::parsing::ResourceMap;
use page_archiver::parsing::parse_resource_urls;
use page_archiver::urls::resolve_page_url;

/// Drives a session against an in-memory transport: `text` and `bytes`
/// map URLs to payloads; a URL absent from the relevant table fails its
/// fetch, which under the fail-fast policy aborts the whole run.
fn run_session(
    mut s: ArchiveSession,
    text: &[(&str, &str)],
    bytes: &[(&str, &[u8])],
) -> Result<PageArchive, Error> {
    let mut fetches: usize = 0;
    loop {
        match s.next_request() {
            None => {
                assert!(s.done());
                return Ok(s.finish());
            }
            Some(FetchRequest::Bytes(u)) => {
                fetches += 1;
                assert!(fetches <= s.num_refs());
                match bytes.iter().find(|(k, _)| *k == u.as_str()) {
                    Some((_, b)) => s.fulfill_bytes(b.to_vec()),
                    None => return Err(Error::RequestError(format!("fetch failed: {}", u))),
                }
            }
            Some(FetchRequest::Text(u)) => {
                fetches += 1;
                assert!(fetches <= s.num_refs());
                match text.iter().find(|(k, _)| *k == u.as_str()) {
                    Some((_, t)) => s.fulfill_text(t.to_string()),
                    None => return Err(Error::RequestError(format!("fetch failed: {}", u))),
                }
            }
        }
    }
}

/// The whole pipeline over in-memory transports, mirroring the archive
/// entry point: resolve the URL, fetch the page text, extract, fetch each
/// resource, assemble.
fn archive_with(
    url: &str,
    pages: &[(&str, &str)],
    text: &[(&str, &str)],
    bytes: &[(&str, &[u8])],
) -> Result<PageArchive, Error> {
    let page_url = resolve_page_url(url)?;
    let content = match pages.iter().find(|(k, _)| *k == page_url.as_str()) {
        Some((_, c)) => c.to_string(),
        None => return Err(Error::RequestError(format!("fetch failed: {}", page_url))),
    };
    let session = ArchiveSession::new(content, page_url.as_str())?;
    run_session(session, text, bytes)
}

#[test]
fn parse_invalid_url_async() {
    let u = "this~is~not~a~url";

    let res = resolve_page_url(u);
    assert!(res.is_err());

    if let Err(Error::ParseError(_err)) = res {
        // Okay, it's a parse error
    } else {
        panic!("Expected parse error");
    }
}

#[test]
fn lib_parse_invalid_url_async() {
    let u = "this~is~not~a~url";

    let res = archive_with(u, &[], &[], &[]);
    assert!(res.is_err());

    if let Err(Error::ParseError(_err)) = res {
        // Okay, it's a parse error
    } else {
        panic!("Expected parse error");
    }
}

#[test]
fn malformed_url_makes_no_request() {
    // A malformed URL fails before any transport lookup: the tables are
    // empty, yet the error is a ParseError, not a failed fetch.
    let res = archive_with("no scheme at all", &[], &[], &[]);
    match res {
        Err(Error::ParseError(_)) => {}
        _ => panic!("Expected parse error"),
    }
}

#[test]
fn resolver_normalizes() {
    // The resolver returns the URL's serialization, not its input text.
    let u = resolve_page_url("http://x.test").unwrap();
    assert_eq!(u.as_str(), "http://x.test/");
}

#[test]
fn distinct_resources_one_entry_each() {
    let markup = "<img src=\"/a.png\"><link rel=\"stylesheet\" href=\"/b.css\"><script src=\"/c.js\"></script>";
    let a = archive_with(
        "http://x.test/",
        &[("http://x.test/", markup)],
        &[("http://x.test/b.css", "body{}"), ("http://x.test/c.js", "var x;")],
        &[("http://x.test/a.png", b"PNG")],
    )
    .unwrap();
    assert_eq!(a.resource_map.len(), 3);
    match a.resource_map.get(&"http://x.test/a.png".to_string()) {
        Some(Resource::Image(b)) => assert_eq!(b.as_slice(), b"PNG"),
        _ => panic!("expected an image under /a.png"),
    }
    match a.resource_map.get(&"http://x.test/b.css".to_string()) {
        Some(Resource::Css(t)) => assert_eq!(t.as_str(), "body{}"),
        _ => panic!("expected a stylesheet under /b.css"),
    }
    match a.resource_map.get(&"http://x.test/c.js".to_string()) {
        Some(Resource::Javascript(t)) => assert_eq!(t.as_str(), "var x;"),
        _ => panic!("expected a script under /c.js"),
    }
}

#[test]
fn extraction_is_deterministic() {
    let markup = "<img src=\"/a.png\"><script src=\"b.js\"></script>";
    let base = "http://x.test/";
    let r1 = parse_resource_urls(markup, base).unwrap();
    let r2 = parse_resource_urls(markup, base).unwrap();
    assert_eq!(r1.len(), r2.len());
    for (x, y) in r1.iter().zip(r2.iter()) {
        assert_eq!(x.url(), y.url());
        assert_eq!(x.kind(), y.kind());
    }
}

#[test]
fn duplicate_url_fetched_once() {
    let markup = "<img src=\"/a.png\"><img src=\"/a.png\">";
    let refs = parse_resource_urls(markup, "http://x.test/").unwrap();
    assert_eq!(refs.len(), 1);
    assert_eq!(refs[0].url().as_str(), "http://x.test/a.png");

    let a = archive_with(
        "http://x.test/",
        &[("http://x.test/", markup)],
        &[],
        &[("http://x.test/a.png", b"PNG")],
    )
    .unwrap();
    assert_eq!(a.resource_map.len(), 1);
}

#[test]
fn first_kind_wins_for_duplicate_url() {
    let markup = "<img src=\"/x\"><script src=\"/x\"></script>";
    let refs = parse_resource_urls(markup, "http://x.test/").unwrap();
    assert_eq!(refs.len(), 1);
    assert_eq!(refs[0].kind(), ResourceKind::Image);
}

#[test]
fn partial_failure_fails_fast() {
    let markup = "<img src=\"/a.png\"><link rel=\"stylesheet\" href=\"/b.css\"><script src=\"/c.js\"></script>";
    // /b.css is missing from the transport: the whole run aborts with a
    // RequestError and no archive is produced.
    let res = archive_with(
        "http://x.test/",
        &[("http://x.test/", markup)],
        &[("http://x.test/c.js", "var x;")],
        &[("http://x.test/a.png", b"PNG")],
    );
    match res {
        Err(Error::RequestError(_)) => {}
        _ => panic!("expected a request error"),
    }
}

#[test]
fn end_to_end_scenario() {
    let markup = "<html><img src=\"/a.png\"><link rel=\"stylesheet\" href=\"/b.css\"></html>";
    let a = archive_with(
        "http://x.test/",
        &[("http://x.test/", markup)],
        &[("http://x.test/b.css", "h1{color:red}")],
        &[("http://x.test/a.png", b"\x89PNG")],
    )
    .unwrap();
    assert_eq!(a.content.as_str(), markup);
    assert_eq!(a.resource_map.len(), 2);
    match a.resource_map.get(&"http://x.test/a.png".to_string()) {
        Some(r @ Resource::Image(_)) => assert_eq!(r.kind(), ResourceKind::Image),
        _ => panic!("expected an image under http://x.test/a.png"),
    }
    match a.resource_map.get(&"http://x.test/b.css".to_string()) {
        Some(Resource::Css(_)) => {}
        _ => panic!("expected a stylesheet under http://x.test/b.css"),
    }
}

#[test]
fn relative_url_resolution() {
    let markup = "<link rel=\"stylesheet\" href=\"../style.css\">";
    let refs = parse_resource_urls(markup, "http://x.test/sub/page.html").unwrap();
    assert_eq!(refs.len(), 1);
    assert_eq!(refs[0].url().as_str(), "http://x.test/style.css");
    assert_eq!(refs[0].kind(), ResourceKind::Css);
}

#[test]
fn unterminated_tag_is_a_parse_error() {
    let res = parse_resource_urls("<p><img src=\"/a.png\"", "http://x.test/");
    match res {
        Err(Error::ParseError(_)) => {}
        _ => panic!("expected a parse error"),
    }
}

#[test]
fn tags_without_references_yield_nothing() {
    // An img with no src, a link without rel="stylesheet", a script
    // without src: none carries a reference.
    let markup = "<img alt=\"x\"><link rel=\"icon\" href=\"/i.png\"><script>var x;</script>";
    let refs = parse_resource_urls(markup, "http://x.test/").unwrap();
    assert_eq!(refs.len(), 0);
}

#[test]
fn empty_page_is_a_valid_archive() {
    let a = archive_with("http://x.test/", &[("http://x.test/", "")], &[], &[]).unwrap();
    assert_eq!(a.content.as_str(), "");
    assert_eq!(a.resource_map.len(), 0);
}

#[test]
fn unresolvable_reference_is_dropped() {
    // A reference that cannot resolve against the base is dropped, not
    // fatal: the rest of the page is still extracted.
    let markup = "<img src=\"http://[bad\"><img src=\"/ok.png\">";
    let refs = parse_resource_urls(markup, "http://x.test/").unwrap();
    assert_eq!(refs.len(), 1);
    assert_eq!(refs[0].url().as_str(), "http://x.test/ok.png");
}

#[test]
fn map_insert_overwrites() {
    let mut m = ResourceMap::new();
    m.insert("http://x.test/a".to_string(), Resource::Css("old".to_string()));
    m.insert("http://x.test/a".to_string(), Resource::Css("new".to_string()));
    assert_eq!(m.len(), 1);
    match m.get(&"http://x.test/a".to_string()) {
        Some(Resource::Css(t)) => assert_eq!(t.as_str(), "new"),
        _ => panic!("expected the overwritten stylesheet"),
    }
    assert!(m.contains_key(&"http://x.test/a".to_string()));
    assert!(!m.contains_key(&"http://x.test/b".to_string()));
}

#[test]
fn write_plan_lays_out_page_and_resources() {
    let markup = "<img src=\"/a.png\">";
    let a = archive_with(
        "http://x.test/",
        &[("http://x.test/", markup)],
        &[],
        &[("http://x.test/a.png", b"PNG")],
    )
    .unwrap();
    let plan = a.write_to_disk();
    assert_eq!(plan.len(), 2);
    assert_eq!(plan[0].name.as_str(), "index.html");
    match &plan[0].data {
        FileData::Text(t) => assert_eq!(t.as_str(), markup),
        _ => panic!("the page itself is text"),
    }
    assert_eq!(plan[1].name.as_str(), "http://x.test/a.png");
    match &plan[1].data {
        FileData::Binary(b) => assert_eq!(b.as_slice(), b"PNG"),
        _ => panic!("an image is binary"),
    }
}

#[test]
fn error_messages_are_readable() {
    let e = Error::ParseError("bad input".to_string());
    assert_eq!(e.message().as_str(), "bad input");
    let e = Error::RequestError("connection refused".to_string());
    assert_eq!(e.message().as_str(), "connection refused");
}
