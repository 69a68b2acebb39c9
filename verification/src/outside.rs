//! The calls that the library makes into std and into outside crates, each
//! with the contract that the library relies on. Nothing here is proved:
//! every item states what the called code does according to its source or
//! documentation.

use vstd::prelude::*;
use vstd::utf8::{decode_utf8, valid_utf8};
use crate::feed::{Feed, FeedItem, FeedView};

verus! {

/// `rss::Error`, the error of reading a channel; carried through unread.
#[verifier::external_type_specification]
#[verifier::external_body]
pub struct ExRssError(rss::Error);

/// `url::ParseError`, the error of parsing a URL; carried through unread.
#[verifier::external_type_specification]
#[verifier::external_body]
pub struct ExUrlParseError(url::ParseError);

/// `chrono::NaiveDateTime`, a stored timestamp; carried through unread.
#[verifier::external_type_specification]
#[verifier::external_body]
pub struct ExNaiveDateTime(chrono::NaiveDateTime);

/// What `<rss::Channel as FromStr>::from_str` reads from an XML document,
/// as the library holds it: `None` where it returns an error.
pub uninterp spec fn rss_channel(xml: Seq<char>) -> Option<FeedView>;

/// The serialization (`Url::as_str`) of what `url::Url::parse` makes of its
/// input; `None` where it returns an error.
pub uninterp spec fn url_parse(input: Seq<char>) -> Option<Seq<char>>;

/// What `url::Url::path` returns for the URL with the given serialization.
pub uninterp spec fn url_path(serialization: Seq<char>) -> Seq<char>;

/// The text (`AsRef<str>`) of what `<mime::Mime as FromStr>::from_str`
/// makes of its input; `None` where it returns an error.
pub uninterp spec fn mime_source(text: Seq<char>) -> Option<Seq<char>>;

/// The first index at or after `from` that holds `c`; the length where none
/// does.
pub open spec fn first_index_of(s: Seq<char>, c: char, from: int) -> int
    decreases s.len() - from,
{
    if from >= s.len() {
        s.len() as int
    } else if s[from] == c {
        from
    } else {
        first_index_of(s, c, from + 1)
    }
}

/// The last index in `lo..hi` that holds `+`; `hi` where none does.
pub open spec fn last_plus_in(s: Seq<char>, lo: int, hi: int) -> int
    decreases hi - lo,
{
    if hi <= lo {
        hi
    } else if s[hi - 1] == '+' {
        hi - 1
    } else {
        let k = last_plus_in(s, lo, hi - 1);
        if k == hi - 1 {
            hi
        } else {
            k
        }
    }
}

/// What `mime::Mime::subtype` returns for a parsed media type with the given
/// text: the text after the first `/`, up to the last `+` that comes at
/// least two characters after the `/` and before any `;`, or else up to the
/// first `;`, or else to the end.
pub open spec fn mime_subtype(source: Seq<char>) -> Seq<char> {
    let slash = first_index_of(source, '/', 0);
    let semicolon = first_index_of(source, ';', 0);
    let plus = last_plus_in(source, slash + 2, semicolon);
    let end = if plus < semicolon {
        plus
    } else {
        semicolon
    };
    source.subrange(slash + 1, end)
}

/// `std::str::from_utf8`: by its documentation it succeeds exactly on valid
/// UTF-8, and then holds the characters that the bytes encode.
#[verifier::external_body]
pub(crate) fn utf8_text(bytes: &[u8]) -> (r: Option<&str>)
    ensures
        r is Some <==> valid_utf8(bytes@),
        r matches Some(t) ==> t@ == decode_utf8(bytes@),
{
    std::str::from_utf8(bytes).ok()
}

/// `<rss::Channel as FromStr>::from_str`, with the channel's title, last
/// build date, and each item's title and enclosure URL copied out. The
/// contract names the result (`rss_channel`) and says nothing of the XML
/// grammar; on failure it hands back the crate's error.
#[verifier::external_body]
pub(crate) fn read_channel(xml: &str) -> (r: Result<Feed, rss::Error>)
    ensures
        r is Ok <==> rss_channel(xml@) is Some,
        r matches Ok(feed) ==> rss_channel(xml@) == Some(feed@),
{
    match xml.parse::<rss::Channel>() {
        Ok(c) => Ok(Feed {
            title: c.title,
            last_build_date: c.last_build_date,
            items: c.items.into_iter().map(
                |i| FeedItem { title: i.title, enclosure_url: i.enclosure.map(|e| e.url) },
            ).collect(),
        }),
        Err(e) => Err(e),
    }
}

/// A parsed URL as the library reads it: its serialization and its path.
pub struct ParsedUrl {
    pub href: String,
    pub path: String,
}

/// `url::Url::parse`, then `Url::as_str` and `Url::path` on the result. The
/// contract names both results (`url_parse`, `url_path`); it does not state
/// the URL grammar.
#[verifier::external_body]
pub(crate) fn parse_url(input: &str) -> (r: Result<ParsedUrl, url::ParseError>)
    ensures
        r is Ok <==> url_parse(input@) is Some,
        r matches Ok(u) ==> url_parse(input@) == Some(u.href@) && u.path@ == url_path(u.href@),
{
    match url::Url::parse(input) {
        Ok(u) => Ok(ParsedUrl { href: u.as_str().to_string(), path: u.path().to_string() }),
        Err(e) => Err(e),
    }
}

/// A media type as the library reads it: its (lowercased) text and its
/// subtype.
pub struct MediaType {
    pub source: String,
    pub subtype: String,
}

/// `<mime::Mime as FromStr>::from_str`, then `Mime::subtype` on the result.
/// The contract names the parse (`mime_source`): it does not state the media
/// type grammar. The subtype it states (`mime_subtype`): `subtype` slices the
/// parsed text from after its `/` to the `+` that the parser recorded last
/// (one past the first subtype character, before any `;`), else to the `;`
/// that starts the parameters, else to the end.
#[verifier::external_body]
pub(crate) fn parse_media_type(text: &str) -> (r: Option<MediaType>)
    ensures
        r is Some <==> mime_source(text@) is Some,
        r matches Some(m) ==> mime_source(text@) == Some(m.source@) && m.subtype@ == mime_subtype(
            m.source@,
        ),
{
    match text.parse::<mime::Mime>() {
        Ok(m) => Some(MediaType {
            source: m.as_ref().to_string(),
            subtype: m.subtype().as_str().to_string(),
        }),
        Err(_) => None,
    }
}

} // verus!
