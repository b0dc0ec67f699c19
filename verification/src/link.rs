//! Links to catalogue entries and chapters: what a link has to look like,
//! and the identifier that it carries.

use crate::error::MangadexError;
use crate::text::{contains, contains_text, texts};
use vstd::prelude::*;

verus! {

/// The parts of a link that the library reads.
pub struct LinkParts {
    /// The host, where it is a domain name.
    pub domain: Option<Seq<char>>,
    /// The segments of the path, where the link has a path of segments.
    pub segments: Option<Seq<Seq<char>>>,
}

/// The parts of a parsed link that the library reads.
#[derive(Debug)]
pub struct ParsedLink {
    domain: Option<String>,
    segments: Option<Vec<String>>,
}

impl View for ParsedLink {
    type V = LinkParts;

    closed spec fn view(&self) -> LinkParts {
        LinkParts {
            domain: match self.domain {
                Some(domain) => Some(domain@),
                None => None,
            },
            segments: match self.segments {
                Some(segments) => Some(texts(segments@)),
                None => None,
            },
        }
    }
}

/// The parts of a parsed link, if there is one.
pub open spec fn parts_of(link: Option<ParsedLink>) -> Option<LinkParts> {
    match link {
        Some(parsed) => Some(parsed@),
        None => None,
    }
}

impl ParsedLink {
    /// A parsed link from its parts.
    pub fn new(domain: Option<String>, segments: Option<Vec<String>>) -> (link: Self)
        ensures
            link@ == (LinkParts {
                domain: match domain {
                    Some(text) => Some(text@),
                    None => None,
                },
                segments: match segments {
                    Some(list) => Some(texts(list@)),
                    None => None,
                },
            }),
    {
        ParsedLink { domain, segments }
    }
}

/// What the URL parser makes of `raw`: the parts of the link, or nothing
/// where `raw` is no absolute URL.
pub uninterp spec fn parsed_link(raw: Seq<char>) -> Option<LinkParts>;

/// Parses `raw` as an absolute URL with `reqwest::Url::parse`, the parser of
/// the `url` crate as `reqwest` hands it on, and reads the result's domain
/// (`Url::domain`) and path segments (`Url::path_segments`). The contract
/// gives what comes back the name [`parsed_link`]; it claims nothing of it
/// but that it depends on `raw` alone.
#[verifier::external_body]
fn parse_link(raw: &str) -> (link: Option<ParsedLink>)
    ensures
        parts_of(link) == parsed_link(raw@),
{
    let url = reqwest::Url::parse(raw).ok()?;
    Some(
        ParsedLink {
            domain: url.domain().map(|domain| domain.to_string()),
            segments: url.path_segments().map(
                |segments| segments.map(|segment| segment.to_string()).collect(),
            ),
        },
    )
}

/// The host that every link has to name.
pub open spec fn host() -> Seq<char> {
    "mangadex.org"@
}

/// The identifier that a link carries for the kind of entry that `keyword`
/// names: the second segment of its path, where the host is the expected
/// one and the first segment is the keyword. Any other link carries none.
pub open spec fn link_identifier(link: Option<LinkParts>, keyword: Seq<char>) -> Option<Seq<char>> {
    match link {
        Some(LinkParts { domain: Some(domain), segments: Some(segments) }) => {
            if domain == host() && segments.len() >= 2 && segments[0] == keyword {
                Some(segments[1])
            } else {
                None
            }
        },
        _ => None,
    }
}

/// What resolving `raw` gives for the parts `link` that it was parsed to:
/// the identifier that the link carries, or the error that holds `raw`.
pub open spec fn is_resolved(
    raw: Seq<char>,
    link: Option<LinkParts>,
    keyword: Seq<char>,
    resolved: Result<Seq<char>, MangadexError>,
) -> bool {
    match resolved {
        Ok(id) => link_identifier(link, keyword) == Some(id),
        Err(MangadexError::UrlParseError(text)) => link_identifier(link, keyword) is None && text@
            == raw,
        Err(_) => false,
    }
}

/// The result of resolving, the identifier as plain text.
pub open spec fn id_text(resolved: Result<String, MangadexError>) -> Result<
    Seq<char>,
    MangadexError,
> {
    match resolved {
        Ok(id) => Ok(id@),
        Err(error) => Err(error),
    }
}

/// The identifier that the parsed link carries for the kind of entry that
/// `keyword` names, or the error that holds `raw`, the text that was parsed.
pub fn identifier_of(raw: &str, link: &Option<ParsedLink>, keyword: &str) -> (resolved: Result<
    String,
    MangadexError,
>)
    ensures
        is_resolved(raw@, parts_of(*link), keyword@, id_text(resolved)),
{
    let expected_host = String::from_str("mangadex.org");
    let expected_keyword = String::from_str(keyword);
    match link {
        Some(parsed) => match (&parsed.domain, &parsed.segments) {
            (Some(domain), Some(segments)) => {
                if *domain == expected_host && segments.len() >= 2 && segments[0]
                    == expected_keyword {
                    assert(texts(segments@)[0] == segments@[0]@);
                    assert(texts(segments@)[1] == segments@[1]@);
                    Ok(segments[1].clone())
                } else {
                    assert(segments.len() >= 2 ==> texts(segments@)[0] == segments@[0]@);
                    Err(MangadexError::UrlParseError(String::from_str(raw)))
                }
            },
            _ => Err(MangadexError::UrlParseError(String::from_str(raw))),
        },
        None => Err(MangadexError::UrlParseError(String::from_str(raw))),
    }
}

/// The identifier that the link `raw` carries for the kind of entry that
/// `keyword` names, or the error that holds `raw`.
pub fn resolve_link(raw: &str, keyword: &str) -> (resolved: Result<String, MangadexError>)
    ensures
        is_resolved(raw@, parsed_link(raw@), keyword@, id_text(resolved)),
{
    let link = parse_link(raw);
    identifier_of(raw, &link, keyword)
}

/// Whether `raw` is taken for a link: it names the host somewhere.
pub open spec fn looks_like_link(raw: Seq<char>) -> bool {
    contains_text(raw, host())
}

/// What resolving `raw` gives: a text that names the host is a link and is
/// resolved as one; any other text is the identifier as it stands.
pub open spec fn is_resolved_reference(
    raw: Seq<char>,
    keyword: Seq<char>,
    resolved: Result<Seq<char>, MangadexError>,
) -> bool {
    if looks_like_link(raw) {
        is_resolved(raw, parsed_link(raw), keyword, resolved)
    } else {
        resolved == Ok::<Seq<char>, MangadexError>(raw)
    }
}

/// The identifier that `raw` stands for: `raw` itself, or, where `raw` is a
/// link, the identifier that the link carries for the kind of entry that
/// `keyword` names.
pub fn resolve_reference(raw: &str, keyword: &str) -> (resolved: Result<String, MangadexError>)
    ensures
        is_resolved_reference(raw@, keyword@, id_text(resolved)),
{
    if contains(raw, "mangadex.org") {
        resolve_link(raw, keyword)
    } else {
        Ok(String::from_str(raw))
    }
}

/// A link to the expected host whose path begins with the keyword and an
/// identifier carries that identifier, whatever follows in the path.
pub proof fn lemma_link_round_trip(keyword: Seq<char>, id: Seq<char>, rest: Seq<Seq<char>>)
    ensures
        link_identifier(
            Some(LinkParts { domain: Some(host()), segments: Some(seq![keyword, id] + rest) }),
            keyword,
        ) == Some(id),
{
}

/// A link to another host, or one whose path begins with another word than
/// the keyword, carries no identifier. So does a link without a domain or
/// without a path of segments, and a text that is no link.
pub proof fn lemma_foreign_link_carries_nothing(link: Option<LinkParts>, keyword: Seq<char>)
    requires
        link matches Some(parts) ==> {
            ||| parts.domain != Some(host())
            ||| parts.segments is None
            ||| parts.segments.unwrap().len() < 2
            ||| parts.segments.unwrap()[0] != keyword
        },
    ensures
        link_identifier(link, keyword) is None,
{
}

/// The keywords of the two kinds of entries differ: the link to a chapter
/// is no link to a catalogue entry, and the other way round.
pub proof fn lemma_keywords_differ()
    ensures
        "title"@ != "chapter"@,
{
    reveal_strlit("title");
    reveal_strlit("chapter");
    assert("title"@.len() != "chapter"@.len());
}

} // verus!
