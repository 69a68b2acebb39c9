//! The decisions that the command line front end makes on its arguments
//! and on what it fetched.

use vstd::prelude::*;
use crate::models::Config;
use crate::outside::{mime_source, mime_subtype, parse_media_type};
use crate::text::{parse_id, spec_parse_i32};

verus! {

/// Whether updating with the given feed id covers a subscription: an id of
/// zero or below covers every subscription, a positive one only its own.
pub open spec fn spec_selects(feed_id: i32, subscription_id: i32) -> bool {
    feed_id <= 0 || feed_id == subscription_id
}

/// Whether an update run for `feed_id` covers the subscription.
pub fn selects_subscription(feed_id: i32, subscription_id: i32) -> (r: bool)
    ensures
        r == spec_selects(feed_id, subscription_id),
{
    !(feed_id != subscription_id && feed_id > 0)
}

/// The feed id that an update run is given: zero where the argument is
/// absent, its decimal reading otherwise; `None` where that reading fails.
pub fn update_target(id_arg: Option<&str>) -> (r: Option<i32>)
    ensures
        match id_arg {
            None => r == Some(0i32),
            Some(s) => r == spec_parse_i32(s@),
        },
{
    match id_arg {
        None => Some(0),
        Some(s) => parse_id(s),
    }
}

/// Whether the byte read at the unsubscribe prompt confirms it: only `y`.
pub fn is_confirmation(answer: u8) -> (r: bool)
    ensures
        r == (answer == 121),
{
    answer == 121
}

/// The setting that makes `path` the download directory.
pub fn download_dir_config(path: &str) -> (c: Config)
    ensures
        c.key@ == "downloaddir"@,
        c.value.deep_view() == Some(path@),
{
    Config { key: "downloaddir".to_owned(), value: Some(path.to_owned()) }
}

/// What a fetched feed's `Content-Type` says.
pub enum ContentKind {
    /// No media type could be read: the feed is left alone.
    Absent,
    /// An XML or RSS media type: the feed is read.
    Feed,
    /// Any other media type, with its subtype.
    Unsupported(String),
}

/// The media type text for RSS feeds.
pub open spec fn rss_media_type() -> Seq<char> {
    "application/rss+xml"@
}

/// The kind of a fetched feed's content: its media type is read; a subtype
/// equal to that of XML (`xml`) or to that of `application/rss+xml` marks a
/// feed.
pub open spec fn spec_content_kind(content_type: Option<Seq<char>>) -> ContentKindView {
    match content_type {
        None => ContentKindView::Absent,
        Some(t) => match mime_source(t) {
            None => ContentKindView::Absent,
            Some(source) => {
                let sub = mime_subtype(source);
                let rss_sub = match mime_source(rss_media_type()) {
                    Some(r) => Some(mime_subtype(r)),
                    None => None,
                };
                if sub == "xml"@ || rss_sub == Some(sub) {
                    ContentKindView::Feed
                } else {
                    ContentKindView::Unsupported(sub)
                }
            },
        },
    }
}

pub enum ContentKindView {
    Absent,
    Feed,
    Unsupported(Seq<char>),
}

impl View for ContentKind {
    type V = ContentKindView;

    open spec fn view(&self) -> ContentKindView {
        match self {
            ContentKind::Absent => ContentKindView::Absent,
            ContentKind::Feed => ContentKindView::Feed,
            ContentKind::Unsupported(s) => ContentKindView::Unsupported(s@),
        }
    }
}

/// Classifies a fetched feed by its `Content-Type` header, where it has one.
pub fn content_kind(content_type: Option<&str>) -> (r: ContentKind)
    ensures
        r@ == spec_content_kind(content_type.deep_view()),
{
    let text = match content_type {
        Some(t) => t,
        None => return ContentKind::Absent,
    };
    let media = match parse_media_type(text) {
        Some(m) => m,
        None => return ContentKind::Absent,
    };
    let xml = "xml".to_owned();
    if media.subtype == xml {
        return ContentKind::Feed;
    }
    let rss_type = "application/rss+xml";
    proof {
        assert(rss_type@ == rss_media_type());
    }
    match parse_media_type(rss_type) {
        Some(rss) => {
            if media.subtype == rss.subtype {
                return ContentKind::Feed;
            }
        },
        None => {},
    }
    ContentKind::Unsupported(media.subtype)
}

/// Updating without a feed id covers every subscription.
pub proof fn law_update_without_id_covers_all(subscription_id: i32)
    ensures
        spec_selects(0, subscription_id),
{
}

/// A positive feed id covers exactly its own subscription; any other id
/// covers them all.
pub proof fn law_selects(feed_id: i32, subscription_id: i32)
    ensures
        feed_id > 0 ==> (spec_selects(feed_id, subscription_id) <==> subscription_id == feed_id),
        feed_id <= 0 ==> spec_selects(feed_id, subscription_id),
{
}

/// The kind of a content type follows from its parsed subtype alone: an
/// `xml` subtype, or the subtype of `application/rss+xml`, marks a feed;
/// any other subtype is unsupported and reported; a header that is absent
/// or does not parse leaves the feed alone.
pub proof fn law_content_kind(t: Seq<char>)
    ensures
        spec_content_kind(None) is Absent,
        mime_source(t) is None ==> spec_content_kind(Some(t)) is Absent,
        mime_source(t) matches Some(src) ==> {
            let sub = mime_subtype(src);
            &&& sub == "xml"@ ==> spec_content_kind(Some(t)) is Feed
            &&& (mime_source(rss_media_type()) matches Some(r) && mime_subtype(r) == sub)
                ==> spec_content_kind(Some(t)) is Feed
            &&& (sub != "xml"@ && !(mime_source(rss_media_type()) matches Some(r) && mime_subtype(r)
                == sub)) ==> spec_content_kind(Some(t)) == ContentKindView::Unsupported(sub)
        },
{
}

/// Two content types whose parsed subtypes agree are of the same kind,
/// whatever else (parameters, suffixes) their texts hold.
pub proof fn law_content_kind_by_subtype(t1: Seq<char>, t2: Seq<char>)
    requires
        mime_source(t1) is Some,
        mime_source(t2) is Some,
        mime_subtype(mime_source(t1)->0) == mime_subtype(mime_source(t2)->0),
    ensures
        spec_content_kind(Some(t1)) == spec_content_kind(Some(t2)),
{
}

} // verus!
