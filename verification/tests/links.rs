use mangadex::link::{identifier_of, resolve_link, resolve_reference};
use mangadex::{ChapterDownloadRequest, MangaQuery, MangadexError, ParsedLink};

fn parsed(domain: Option<&str>, segments: Option<Vec<&str>>) -> Option<ParsedLink> {
    Some(ParsedLink::new(
        domain.map(|d| d.to_string()),
        segments.map(|list| list.into_iter().map(|s| s.to_string()).collect()),
    ))
}

fn carried(error: MangadexError) -> String {
    match error {
        MangadexError::UrlParseError(text) => text,
        other => panic!("unexpected error {:?}", other),
    }
}

#[test]
fn test_url_parse() {
    assert!(MangaQuery::from_url("https://mangadex.org/title/99b8eaeb-9041-4bfd-8eb7-d72addc88eb7/the-cafe-terrace-and-its-goddesses").is_ok());
    assert!(MangaQuery::from_url("https://mangadex.org/chapter/99b8eaeb-9041-4bfd-8eb7-d72addc88eb7/the-cafe-terrace-and-its-goddesses").is_err());
    assert!(MangaQuery::from_url("https://mangapark.com/title/99b8eaeb-9041-4bfd-8eb7-d72addc88eb7/the-cafe-terrace-and-its-goddesses").is_err());
}

#[test]
fn title_link_gives_back_the_identifier() {
    let id = "99b8eaeb-9041-4bfd-8eb7-d72addc88eb7";
    let link = format!("https://mangadex.org/title/{}/the-cafe-terrace-and-its-goddesses", id);
    let query = MangaQuery::from_url(&link).unwrap();
    assert_eq!(query.id().as_str(), id);
    assert_eq!(query.url(), format!("https://api.mangadex.org/manga/{}/aggregate", id));
    assert!(query.pairs().is_empty());
}

#[test]
fn title_link_without_a_name_gives_back_the_identifier() {
    let query = MangaQuery::from_url("https://mangadex.org/title/abc").unwrap();
    assert_eq!(query.id().as_str(), "abc");
}

#[test]
fn chapter_link_gives_back_the_identifier() {
    let request =
        ChapterDownloadRequest::from_url("https://mangadex.org/chapter/af456519-3791-47c3-af8a-23ed894b5dd8/1")
            .unwrap();
    assert_eq!(request.id().as_str(), "af456519-3791-47c3-af8a-23ed894b5dd8");
    assert!(request.wants_data_saver());
    assert_eq!(request.destination().as_str(), ".");
}

#[test]
fn title_link_is_no_chapter_link() {
    let link = "https://mangadex.org/title/99b8eaeb-9041-4bfd-8eb7-d72addc88eb7/x";
    let error = ChapterDownloadRequest::from_url(link).unwrap_err();
    assert_eq!(carried(error), link);
}

#[test]
fn chapter_link_is_no_title_link() {
    let link = "https://mangadex.org/chapter/99b8eaeb-9041-4bfd-8eb7-d72addc88eb7/x";
    let error = MangaQuery::from_url(link).unwrap_err();
    assert_eq!(carried(error), link);
}

#[test]
fn foreign_host_is_refused_with_the_text_as_given() {
    let link = "HTTPS://MangaPark.com/title/99b8eaeb-9041-4bfd-8eb7-d72addc88eb7";
    let error = MangaQuery::from_url(link).unwrap_err();
    assert_eq!(carried(error), link);
}

#[test]
fn subdomain_is_another_host() {
    assert!(MangaQuery::from_url("https://api.mangadex.org/title/abc").is_err());
    assert!(MangaQuery::from_url("https://mangadex.org.example.com/title/abc").is_err());
}

#[test]
fn text_that_is_no_link_is_refused_by_the_link_resolver() {
    let error = MangaQuery::from_url("99b8eaeb-9041-4bfd-8eb7-d72addc88eb7").unwrap_err();
    assert_eq!(carried(error), "99b8eaeb-9041-4bfd-8eb7-d72addc88eb7");
    assert!(MangaQuery::from_url("").is_err());
    assert!(MangaQuery::from_url("mangadex.org/title/abc").is_err());
}

#[test]
fn link_without_identifier_is_refused() {
    assert!(MangaQuery::from_url("https://mangadex.org/title").is_err());
    assert!(MangaQuery::from_url("https://mangadex.org/").is_err());
    assert!(MangaQuery::from_url("https://mangadex.org").is_err());
}

#[test]
fn link_with_empty_identifier_segment_carries_the_empty_identifier() {
    let query = MangaQuery::from_url("https://mangadex.org/title/").unwrap();
    assert_eq!(query.id().as_str(), "");
}

#[test]
fn link_without_host_is_refused() {
    assert!(MangaQuery::from_url("mailto:someone@mangadex.org").is_err());
    assert!(MangaQuery::from_url("data:text/plain,mangadex.org/title/abc").is_err());
    assert!(MangaQuery::from_url("https://127.0.0.1/title/abc").is_err());
}

#[test]
fn resolve_link_reads_host_and_path_and_nothing_else() {
    let id = resolve_link("https://mangadex.org:443/title/abc/name?tab=art#top", "title").unwrap();
    assert_eq!(id, "abc");
    let id = resolve_link("http://MANGADEX.ORG/chapter/xyz", "chapter").unwrap();
    assert_eq!(id, "xyz");
}

#[test]
fn identifier_of_parsed_link() {
    let link = parsed(Some("mangadex.org"), Some(vec!["title", "abc", "some-name"]));
    assert_eq!(identifier_of("raw", &link, "title").unwrap(), "abc");
    let link = parsed(Some("mangadex.org"), Some(vec!["title", "abc"]));
    assert_eq!(identifier_of("raw", &link, "title").unwrap(), "abc");
    assert_eq!(carried(identifier_of("raw", &link, "chapter").unwrap_err()), "raw");
}

#[test]
fn identifier_of_refuses_what_is_no_link_to_the_entry() {
    let cases = vec![
        parsed(Some("mangapark.com"), Some(vec!["title", "abc"])),
        parsed(None, Some(vec!["title", "abc"])),
        parsed(Some("mangadex.org"), None),
        parsed(Some("mangadex.org"), Some(vec![])),
        parsed(Some("mangadex.org"), Some(vec!["title"])),
        parsed(Some("mangadex.org"), Some(vec!["chapter", "abc"])),
        parsed(Some("mangadex.org"), Some(vec!["abc", "title"])),
        None,
    ];
    for link in cases {
        let error = identifier_of("the text", &link, "title").unwrap_err();
        assert_eq!(carried(error), "the text");
    }
}

#[test]
fn from_link_makes_a_fresh_query_and_request() {
    let link = parsed(Some("mangadex.org"), Some(vec!["title", "abc"]));
    let query = MangaQuery::from_link("raw", &link).unwrap();
    assert_eq!(query.id().as_str(), "abc");
    assert!(query.pairs().is_empty());
    assert!(ChapterDownloadRequest::from_link("raw", &link).is_err());
    let link = parsed(Some("mangadex.org"), Some(vec!["chapter", "xyz"]));
    let request = ChapterDownloadRequest::from_link("raw", &link).unwrap();
    assert_eq!(request.id().as_str(), "xyz");
    assert!(request.wants_data_saver());
    assert_eq!(request.destination().as_str(), ".");
    assert!(MangaQuery::from_link("raw", &link).is_err());
}

#[test]
fn bare_identifier_is_taken_as_it_stands() {
    let query = MangaQuery::resolve("d7037b2a-874a-4360-8a7b-07f2899152fd").unwrap();
    assert_eq!(query.id().as_str(), "d7037b2a-874a-4360-8a7b-07f2899152fd");
    let request = ChapterDownloadRequest::resolve("af456519-3791-47c3-af8a-23ed894b5dd8").unwrap();
    assert_eq!(request.id().as_str(), "af456519-3791-47c3-af8a-23ed894b5dd8");
    assert_eq!(resolve_reference("https://mangapark.com/title/abc", "title").unwrap(), "https://mangapark.com/title/abc");
    assert_eq!(resolve_reference("", "title").unwrap(), "");
}

#[test]
fn reference_that_names_the_host_is_resolved_as_a_link() {
    let query = MangaQuery::resolve("https://mangadex.org/title/abc/name").unwrap();
    assert_eq!(query.id().as_str(), "abc");
    let request = ChapterDownloadRequest::resolve("https://mangadex.org/chapter/xyz").unwrap();
    assert_eq!(request.id().as_str(), "xyz");
    let error = MangaQuery::resolve("https://mangadex.org/chapter/xyz").unwrap_err();
    assert_eq!(carried(error), "https://mangadex.org/chapter/xyz");
    let error = MangaQuery::resolve("mangadex.org/title/abc").unwrap_err();
    assert_eq!(carried(error), "mangadex.org/title/abc");
}
