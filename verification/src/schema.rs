//! The records of the older, SQLite-row based store: subscriptions whose
//! label and build date are always present, and podcasts with their text
//! content.

use vstd::prelude::*;
use crate::feed::{feed_plan, read_feed, Episode, EpisodeView, FeedPlan, FeedReading};
use crate::models::FeedError;

verus! {

/// A subscribed feed, as a row of the `subscription` table.
pub struct Subscription {
    pub id: i64,
    pub url: String,
    pub label: String,
    pub last_build_date: String,
}

/// A podcast episode, as a row of the `podcast` table.
pub struct Podcast {
    pub id: i64,
    pub subscription_id: i64,
    pub url: String,
    pub filename: String,
    pub title: String,
    pub content_text: String,
}

pub struct PodcastView {
    pub id: i64,
    pub subscription_id: i64,
    pub url: Seq<char>,
    pub filename: Seq<char>,
    pub title: Seq<char>,
    pub content_text: Seq<char>,
}

impl View for Podcast {
    type V = PodcastView;

    open spec fn view(&self) -> PodcastView {
        PodcastView {
            id: self.id,
            subscription_id: self.subscription_id,
            url: self.url@,
            filename: self.filename@,
            title: self.title@,
            content_text: self.content_text@,
        }
    }
}

/// A row removal that unsubscribing performs.
pub enum Removal {
    /// The `subscription` row with this id.
    Subscription(i64),
    /// Every `podcast` row of the subscription with this id.
    PodcastsOf(i64),
}

/// The row stored for an episode of a subscription's feed: a new row (id 0)
/// with empty text content.
pub open spec fn podcast_row(subscription_id: i64, e: EpisodeView) -> PodcastView {
    PodcastView {
        id: 0,
        subscription_id,
        url: e.url,
        filename: e.filename,
        title: e.title,
        content_text: Seq::empty(),
    }
}

/// What reading a subscription's feed leads to.
pub enum FeedUpdate {
    /// The feed has not been rebuilt since it was last read.
    AlreadyUpToDate,
    /// The subscription takes the channel's title as its label and the
    /// channel's build date; the rows are inserted, unless already present,
    /// with their downloaded flag set to `downloaded`.
    Updated {
        label: String,
        last_build_date: Option<String>,
        podcasts: Vec<Podcast>,
        downloaded: bool,
    },
}

impl FeedUpdate {
    /// The message reported for this outcome.
    pub fn status(&self) -> (s: &'static str)
        ensures
            self is AlreadyUpToDate ==> s@ == "Already up to date"@,
            self is Updated ==> s@ == "updated"@,
    {
        match self {
            FeedUpdate::AlreadyUpToDate => "Already up to date",
            FeedUpdate::Updated { .. } => "updated",
        }
    }
}

/// `r` is what `plan` describes for the given subscription.
pub open spec fn update_matches(
    r: Result<FeedUpdate, FeedError>,
    plan: FeedPlan,
    subscription_id: i64,
    as_downloaded: bool,
) -> bool {
    match plan {
        FeedPlan::Malformed => false,
        FeedPlan::Unreadable => r is Err,
        FeedPlan::UpToDate => r matches Ok(FeedUpdate::AlreadyUpToDate),
        FeedPlan::Update { label, last_build_date, episodes } => match r {
            Ok(FeedUpdate::Updated { label: l, last_build_date: d, podcasts, downloaded }) => {
                &&& l@ == label
                &&& downloaded == as_downloaded
                &&& d.deep_view() == last_build_date
                &&& podcasts@.map_values(|p: Podcast| p@) == episodes.map_values(
                    |e: EpisodeView| podcast_row(subscription_id, e),
                )
            },
            _ => false,
        },
    }
}

/// What reading a feed returns, by the plan: an error for an unreadable
/// body, `AlreadyUpToDate` for an up-to-date one, and for an update the
/// channel's title and build date, the downloaded flag asked for, and one
/// new row per episode, in order: id 0, the subscription's id, the episode's
/// URL, file name and title, and empty text content.
pub proof fn law_update_outcome(
    r: Result<FeedUpdate, FeedError>,
    plan: FeedPlan,
    subscription_id: i64,
    as_downloaded: bool,
)
    requires
        update_matches(r, plan, subscription_id, as_downloaded),
    ensures
        !(plan is Malformed),
        plan is Unreadable ==> r is Err,
        plan is UpToDate ==> r matches Ok(FeedUpdate::AlreadyUpToDate),
        plan matches FeedPlan::Update { label, last_build_date, episodes } ==> (r matches Ok(
            FeedUpdate::Updated { label: l, last_build_date: d, podcasts, downloaded },
        ) && l@ == label && d.deep_view() == last_build_date && downloaded == as_downloaded
            && podcasts.len() == episodes.len() && forall|i: int|
            0 <= i < episodes.len() ==> {
                let row = (#[trigger] podcasts@[i])@;
                &&& row.id == 0
                &&& row.subscription_id == subscription_id
                &&& row.url == episodes[i].url
                &&& row.filename == episodes[i].filename
                &&& row.title == episodes[i].title
                &&& row.content_text == Seq::<char>::empty()
            }),
{
    if let FeedPlan::Update { label, last_build_date, episodes } = plan {
        if let Ok(FeedUpdate::Updated { label: l, last_build_date: d, podcasts, downloaded }) = r {
            let mv = podcasts@.map_values(|p: Podcast| p@);
            let rows = episodes.map_values(|e: EpisodeView| podcast_row(subscription_id, e));
            assert(mv == rows);
            assert(mv.len() == podcasts@.len());
            assert forall|i: int| 0 <= i < episodes.len() implies {
                let row = (#[trigger] podcasts@[i])@;
                &&& row.id == 0
                &&& row.subscription_id == subscription_id
                &&& row.url == episodes[i].url
                &&& row.filename == episodes[i].filename
                &&& row.title == episodes[i].title
                &&& row.content_text == Seq::<char>::empty()
            } by {
                assert(mv[i] == podcasts@[i]@);
                assert(rows[i] == podcast_row(subscription_id, episodes[i]));
            }
        }
    }
}

/// The rows for a subscription's episodes, in order.
fn podcast_rows(subscription_id: i64, episodes: Vec<Episode>) -> (r: Vec<Podcast>)
    ensures
        r@.map_values(|p: Podcast| p@) == episodes@.map_values(|e: Episode| e@).map_values(
            |e: EpisodeView| podcast_row(subscription_id, e),
        ),
{
    let mut out: Vec<Podcast> = Vec::new();
    let mut i: usize = 0;
    while i < episodes.len()
        invariant
            i <= episodes.len(),
            out.len() == i,
            forall|j: int|
                0 <= j < i ==> #[trigger] out@[j]@ == podcast_row(subscription_id, episodes@[j]@),
        decreases episodes.len() - i,
    {
        let e = &episodes[i];
        out.push(
            Podcast {
                id: 0,
                subscription_id,
                url: e.url.clone(),
                filename: e.filename.clone(),
                title: e.title.clone(),
                content_text: String::new(),
            },
        );
        i = i + 1;
    }
    assert(out@.map_values(|p: Podcast| p@) =~= episodes@.map_values(|e: Episode| e@).map_values(
        |e: EpisodeView| podcast_row(subscription_id, e),
    ));
    out
}

impl Subscription {
    /// A subscription from the columns of its row.
    pub fn map(id: i64, url: String, label: String, last_build_date: String) -> (s: Subscription)
        ensures
            s == (Subscription { id, url, label, last_build_date }),
    {
        Subscription { id, url, label, last_build_date }
    }

    /// The rows that unsubscribing removes, in order: the subscription, then
    /// its podcasts.
    pub fn delete(&self) -> (r: Vec<Removal>)
        ensures
            r@ == seq![Removal::Subscription(self.id), Removal::PodcastsOf(self.id)],
    {
        let mut r: Vec<Removal> = Vec::new();
        r.push(Removal::Subscription(self.id));
        r.push(Removal::PodcastsOf(self.id));
        r
    }

    /// The plan for reading `body` as this subscription's feed.
    pub open spec fn feed_plan(&self, body: Seq<u8>) -> FeedPlan {
        feed_plan(Some(self.last_build_date@), body)
    }

    /// Reads a fetched feed body for this subscription. A channel whose build
    /// date equals the stored one is already up to date; otherwise every item
    /// becomes a new podcast row, to be stored with `as_downloaded` as its
    /// downloaded flag.
    pub fn from_xml_feed(&self, body: Vec<u8>, as_downloaded: bool) -> (r: Result<FeedUpdate, FeedError>)
        requires
            !(self.feed_plan(body@) is Malformed),
        ensures
            update_matches(r, self.feed_plan(body@), self.id, as_downloaded),
    {
        match self.checked_from_xml_feed(body, as_downloaded) {
            Some(r) => r,
            None => {
                proof {
                    assert(false);
                }
                Ok(FeedUpdate::AlreadyUpToDate)
            },
        }
    }

    /// As `from_xml_feed`, for any body: `None` where the body is not UTF-8
    /// or an item lacks an enclosure, a title, or a URL with path segments.
    pub fn checked_from_xml_feed(&self, body: Vec<u8>, as_downloaded: bool) -> (r: Option<Result<FeedUpdate, FeedError>>)
        ensures
            r is None <==> self.feed_plan(body@) is Malformed,
            r matches Some(u) ==> update_matches(u, self.feed_plan(body@), self.id, as_downloaded),
    {
        let stored = Some(self.last_build_date.clone());
        match read_feed(body.as_slice(), &stored) {
            FeedReading::Malformed => None,
            FeedReading::Unreadable(e) => Some(Err(FeedError::Rss(e))),
            FeedReading::UpToDate => Some(Ok(FeedUpdate::AlreadyUpToDate)),
            FeedReading::Update { label, last_build_date, episodes } => {
                let podcasts = podcast_rows(self.id, episodes);
                Some(
                    Ok(
                        FeedUpdate::Updated {
                            label,
                            last_build_date,
                            podcasts,
                            downloaded: as_downloaded,
                        },
                    ),
                )
            },
        }
    }
}

impl Podcast {
    /// A podcast from the columns of its row.
    pub fn map(
        id: i64,
        subscription_id: i64,
        url: String,
        filename: String,
        title: String,
        content_text: String,
    ) -> (p: Podcast)
        ensures
            p == (Podcast { id, subscription_id, url, filename, title, content_text }),
    {
        Podcast { id, subscription_id, url, filename, title, content_text }
    }
}

} // verus!
