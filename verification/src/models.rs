//! The records of the subscription store (subscriptions, podcasts and
//! settings) and how a subscription's feed turns into new podcast records.

use vstd::prelude::*;
use crate::outside::{parse_url, url_parse};
use crate::feed::{
    read_feed, feed_plan, reading_matches, Episode, EpisodeView, FeedPlan, FeedReading,
};

verus! {

/// A subscribed feed.
pub struct Subscription {
    pub id: i32,
    pub url: String,
    pub label: Option<String>,
    pub last_build_date: Option<String>,
    pub created_at: chrono::NaiveDateTime,
}

/// A feed about to be subscribed to: its URL in serialized form.
pub struct NewSubscription {
    pub url: String,
}

/// A stored podcast episode; `downloaded` is 1 once it has been fetched.
pub struct Podcast {
    pub id: i32,
    pub subscription_id: i32,
    pub url: String,
    pub filename: String,
    pub title: String,
    pub content_text: Option<String>,
    pub downloaded: i32,
    pub downloaded_at: Option<chrono::NaiveDateTime>,
    pub created_at: chrono::NaiveDateTime,
}

impl Podcast {
    /// Whether the episode still waits to be downloaded: its flag is 0.
    pub fn is_pending(&self) -> (r: bool)
        ensures
            r == (self.downloaded == 0),
    {
        self.downloaded == 0
    }

    /// The record of this episode once its file has been fetched, at `at`:
    /// flagged downloaded (1) with that time; every other field unchanged.
    pub fn mark_downloaded(self, at: chrono::NaiveDateTime) -> (r: Podcast)
        ensures
            r == (Podcast { downloaded: 1, downloaded_at: Some(at), ..self }),
    {
        Podcast { downloaded: 1, downloaded_at: Some(at), ..self }
    }
}

/// A fetched episode no longer waits to be downloaded.
pub proof fn law_downloaded_not_pending(p: Podcast, at: chrono::NaiveDateTime)
    ensures
        (Podcast { downloaded: 1, downloaded_at: Some(at), ..p }).downloaded != 0,
{
}

/// Why a URL given to subscribe to was refused.
#[derive(Debug)]
pub enum SubscribeError {
    /// The URL parser refused it.
    InvalidUrl(url::ParseError),
}

impl NewSubscription {
    /// The subscription for a URL given on the command line: the URL in the
    /// serialized form that the URL parser gives it.
    pub fn parse(input: &str) -> (r: Result<NewSubscription, SubscribeError>)
        ensures
            r is Ok <==> url_parse(input@) is Some,
            r matches Ok(s) ==> url_parse(input@) == Some(s.url@),
    {
        match parse_url(input) {
            Ok(u) => Ok(NewSubscription { url: u.href }),
            Err(e) => Err(SubscribeError::InvalidUrl(e)),
        }
    }

    /// Whether this feed is not yet among the stored subscriptions' URLs;
    /// only then is it stored.
    pub fn is_new(&self, stored_urls: &Vec<String>) -> (r: bool)
        ensures
            r == !stored_urls@.map_values(|u: String| u@).contains(self.url@),
    {
        !contains_url(stored_urls, &self.url)
    }
}

/// Storing only new subscriptions keeps the stored URLs free of repeats.
pub proof fn law_subscription_urls_unique(stored: Seq<Seq<char>>, url: Seq<char>)
    requires
        stored.no_duplicates(),
        !stored.contains(url),
    ensures
        stored.push(url).no_duplicates(),
{
    let s2 = stored.push(url);
    assert forall|i: int, j: int| 0 <= i < s2.len() && 0 <= j < s2.len() && i != j implies s2[i]
        != s2[j] by {
        if i == stored.len() as int {
            assert(s2[j] == stored[j]);
        } else if j == stored.len() as int {
            assert(s2[i] == stored[i]);
        }
    }
}

/// A podcast episode about to be stored.
#[derive(Debug)]
pub struct NewPodcast {
    pub subscription_id: i32,
    pub url: String,
    pub filename: String,
    pub title: String,
    pub downloaded: i32,
}

pub struct NewPodcastView {
    pub subscription_id: i32,
    pub url: Seq<char>,
    pub filename: Seq<char>,
    pub title: Seq<char>,
    pub downloaded: i32,
}

impl View for NewPodcast {
    type V = NewPodcastView;

    open spec fn view(&self) -> NewPodcastView {
        NewPodcastView {
            subscription_id: self.subscription_id,
            url: self.url@,
            filename: self.filename@,
            title: self.title@,
            downloaded: self.downloaded,
        }
    }
}

/// A setting: a key and its optional value.
pub struct Config {
    pub key: String,
    pub value: Option<String>,
}

/// The stored flag for an episode that is, or is not, taken as downloaded.
pub open spec fn downloaded_flag(as_downloaded: bool) -> i32 {
    if as_downloaded {
        1
    } else {
        0
    }
}

/// The record stored for an episode of a subscription's feed.
pub open spec fn podcast_record(
    subscription_id: i32,
    e: EpisodeView,
    as_downloaded: bool,
) -> NewPodcastView {
    NewPodcastView {
        subscription_id,
        url: e.url,
        filename: e.filename,
        title: e.title,
        downloaded: downloaded_flag(as_downloaded),
    }
}

/// The records for a feed's episodes, in order.
pub open spec fn records_for(
    subscription_id: i32,
    episodes: Seq<EpisodeView>,
    as_downloaded: bool,
) -> Seq<NewPodcastView> {
    episodes.map_values(|e: EpisodeView| podcast_record(subscription_id, e, as_downloaded))
}

/// What reading a subscription's feed leads to.
#[derive(Debug)]
pub enum FeedUpdate {
    /// The feed has not been rebuilt since it was last read.
    AlreadyUpToDate,
    /// The subscription takes the channel's title as its label and the
    /// channel's build date; the podcasts are the records for the feed's
    /// episodes, in feed order.
    Updated { label: String, last_build_date: Option<String>, podcasts: Vec<NewPodcast> },
}

impl FeedUpdate {
    /// The message reported for this outcome.
    pub fn status(&self) -> (s: &'static str)
        ensures
            self is AlreadyUpToDate ==> s@ == "Already up to date"@,
            self is Updated ==> s@ == "updated"@,
    {
        match self {
            FeedUpdate::AlreadyUpToDate => "Already up to date",
            FeedUpdate::Updated { .. } => "updated",
        }
    }
}

/// Why a feed could not be read.
#[derive(Debug)]
pub enum FeedError {
    /// The RSS reader refused the body.
    Rss(rss::Error),
}

/// `r` is what `plan` describes for the given subscription and flag.
pub open spec fn update_matches(
    r: Result<FeedUpdate, FeedError>,
    plan: FeedPlan,
    subscription_id: i32,
    as_downloaded: bool,
) -> bool {
    match plan {
        FeedPlan::Malformed => false,
        FeedPlan::Unreadable => r is Err,
        FeedPlan::UpToDate => r matches Ok(FeedUpdate::AlreadyUpToDate),
        FeedPlan::Update { label, last_build_date, episodes } => match r {
            Ok(FeedUpdate::Updated { label: l, last_build_date: d, podcasts }) => {
                &&& l@ == label
                &&& d.deep_view() == last_build_date
                &&& podcasts@.map_values(|p: NewPodcast| p@) == records_for(
                    subscription_id,
                    episodes,
                    as_downloaded,
                )
            },
            _ => false,
        },
    }
}

/// The records for a subscription's episodes, in order.
fn podcast_records(subscription_id: i32, episodes: Vec<Episode>, as_downloaded: bool) -> (r: Vec<
    NewPodcast,
>)
    ensures
        r@.map_values(|p: NewPodcast| p@) == records_for(
            subscription_id,
            episodes@.map_values(|e: Episode| e@),
            as_downloaded,
        ),
{
    let ghost source = episodes@;
    let downloaded: i32 = if as_downloaded {
        1
    } else {
        0
    };
    let mut out: Vec<NewPodcast> = Vec::new();
    let mut i: usize = 0;
    while i < episodes.len()
        invariant
            downloaded == downloaded_flag(as_downloaded),
            source == episodes@,
            i <= episodes.len(),
            out.len() == i,
            forall|j: int|
                0 <= j < i ==> #[trigger] out@[j]@ == podcast_record(
                    subscription_id,
                    source[j]@,
                    as_downloaded,
                ),
        decreases episodes.len() - i,
    {
        let e = &episodes[i];
        out.push(
            NewPodcast {
                subscription_id,
                url: e.url.clone(),
                filename: e.filename.clone(),
                title: e.title.clone(),
                downloaded,
            },
        );
        i = i + 1;
    }
    assert(out@.map_values(|p: NewPodcast| p@) =~= records_for(
        subscription_id,
        source.map_values(|e: Episode| e@),
        as_downloaded,
    ));
    out
}

impl Subscription {
    /// The plan for reading `body` as this subscription's feed.
    pub open spec fn feed_plan(&self, body: Seq<u8>) -> FeedPlan {
        feed_plan(self.last_build_date.deep_view(), body)
    }

    /// Reads a fetched feed body for this subscription. A channel whose build
    /// date equals the stored one is already up to date; otherwise the
    /// subscription takes the channel's title and date, and every item
    /// becomes a podcast record, marked downloaded when `as_downloaded`.
    pub fn from_xml_feed(&self, body: Vec<u8>, as_downloaded: bool) -> (r: Result<
        FeedUpdate,
        FeedError,
    >)
        requires
            !(self.feed_plan(body@) is Malformed),
        ensures
            update_matches(r, self.feed_plan(body@), self.id, as_downloaded),
    {
        match self.checked_from_xml_feed(body, as_downloaded) {
            Some(r) => r,
            None => {
                proof {
                    assert(false);
                }
                Ok(FeedUpdate::AlreadyUpToDate)
            },
        }
    }

    /// As `from_xml_feed`, for any body: `None` where the body is not UTF-8
    /// or an item lacks an enclosure, a title, or a URL with path segments.
    pub fn checked_from_xml_feed(&self, body: Vec<u8>, as_downloaded: bool) -> (r: Option<
        Result<FeedUpdate, FeedError>,
    >)
        ensures
            r is None <==> self.feed_plan(body@) is Malformed,
            r matches Some(u) ==> update_matches(u, self.feed_plan(body@), self.id, as_downloaded),
    {
        match read_feed(body.as_slice(), &self.last_build_date) {
            FeedReading::Malformed => None,
            FeedReading::Unreadable(e) => Some(Err(FeedError::Rss(e))),
            FeedReading::UpToDate => Some(Ok(FeedUpdate::AlreadyUpToDate)),
            FeedReading::Update { label, last_build_date, episodes } => {
                let podcasts = podcast_records(self.id, episodes, as_downloaded);
                Some(Ok(FeedUpdate::Updated { label, last_build_date, podcasts }))
            },
        }
    }
}

/// Every record made from a feed belongs to the subscription and carries
/// the downloaded flag that was asked for.
pub proof fn law_records_marked(
    subscription_id: i32,
    episodes: Seq<EpisodeView>,
    as_downloaded: bool,
)
    ensures
        records_for(subscription_id, episodes, as_downloaded).len() == episodes.len(),
        forall|i: int|
            0 <= i < episodes.len() ==> {
                let p = #[trigger] records_for(subscription_id, episodes, as_downloaded)[i];
                &&& p.subscription_id == subscription_id
                &&& p.downloaded == (if as_downloaded {
                    1i32
                } else {
                    0i32
                })
                &&& p.url == episodes[i].url
                &&& p.filename == episodes[i].filename
                &&& p.title == episodes[i].title
            },
{
}

/// What reading a feed returns, by the plan: an error for an unreadable
/// body, `AlreadyUpToDate` for an up-to-date one, and for an update the
/// channel's title and build date with one record per episode, in order;
/// a malformed plan has no result.
pub proof fn law_update_outcome(
    r: Result<FeedUpdate, FeedError>,
    plan: FeedPlan,
    subscription_id: i32,
    as_downloaded: bool,
)
    requires
        update_matches(r, plan, subscription_id, as_downloaded),
    ensures
        !(plan is Malformed),
        plan is Unreadable ==> r is Err,
        plan is UpToDate ==> r matches Ok(FeedUpdate::AlreadyUpToDate),
        plan matches FeedPlan::Update { label, last_build_date, episodes } ==> (r matches Ok(
            FeedUpdate::Updated { label: l, last_build_date: d, podcasts },
        ) && l@ == label && d.deep_view() == last_build_date && podcasts.len() == episodes.len()
            && forall|i: int|
            0 <= i < episodes.len() ==> (#[trigger] podcasts@[i])@ == podcast_record(
                subscription_id,
                episodes[i],
                as_downloaded,
            )),
{
    if let FeedPlan::Update { label, last_build_date, episodes } = plan {
        if let Ok(FeedUpdate::Updated { label: l, last_build_date: d, podcasts }) = r {
            let mv = podcasts@.map_values(|p: NewPodcast| p@);
            let rec = records_for(subscription_id, episodes, as_downloaded);
            assert(mv == rec);
            assert(mv.len() == podcasts@.len());
            assert(rec.len() == episodes.len());
            assert forall|i: int| 0 <= i < episodes.len() implies (#[trigger] podcasts@[i])@
                == podcast_record(subscription_id, episodes[i], as_downloaded) by {
                assert(mv[i] == podcasts@[i]@);
                assert(rec[i] == podcast_record(subscription_id, episodes[i], as_downloaded));
            }
        }
    }
}

/// The URLs of the given records.
pub open spec fn urls_of(ps: Seq<NewPodcastView>) -> Seq<Seq<char>> {
    ps.map_values(|p: NewPodcastView| p.url)
}

/// The candidates that get stored, in order: each one whose URL is neither
/// among the `known` ones nor that of an earlier candidate.
pub open spec fn fresh_podcasts(
    candidates: Seq<NewPodcastView>,
    known: Seq<Seq<char>>,
) -> Seq<NewPodcastView>
    decreases candidates.len(),
{
    if candidates.len() == 0 {
        Seq::empty()
    } else {
        let prev = fresh_podcasts(candidates.drop_last(), known);
        let p = candidates.last();
        if known.contains(p.url) || urls_of(candidates.drop_last()).contains(p.url) {
            prev
        } else {
            prev.push(p)
        }
    }
}

/// Whether `url` is among `urls`.
fn contains_url(urls: &Vec<String>, url: &String) -> (r: bool)
    ensures
        r == urls@.map_values(|u: String| u@).contains(url@),
{
    let ghost views = urls@.map_values(|u: String| u@);
    let mut i: usize = 0;
    while i < urls.len()
        invariant
            views == urls@.map_values(|u: String| u@),
            i <= urls.len(),
            forall|j: int| 0 <= j < i ==> views[j] != url@,
        decreases urls.len() - i,
    {
        if urls[i] == *url {
            assert(views[i as int] == url@);
            return true;
        }
        i = i + 1;
    }
    false
}

/// A copy of a record.
fn copy_podcast(p: &NewPodcast) -> (r: NewPodcast)
    ensures
        r@ == p@,
{
    NewPodcast {
        subscription_id: p.subscription_id,
        url: p.url.clone(),
        filename: p.filename.clone(),
        title: p.title.clone(),
        downloaded: p.downloaded,
    }
}

/// The records among `candidates` to store, given the URLs already stored:
/// a record is stored unless its URL is already known or was taken by an
/// earlier candidate.
pub fn select_new_podcasts(candidates: &Vec<NewPodcast>, known_urls: &Vec<String>) -> (r: Vec<
    NewPodcast,
>)
    ensures
        r@.map_values(|p: NewPodcast| p@) == fresh_podcasts(
            candidates@.map_values(|p: NewPodcast| p@),
            known_urls@.map_values(|u: String| u@),
        ),
{
    let ghost cands = candidates@.map_values(|p: NewPodcast| p@);
    let ghost known = known_urls@.map_values(|u: String| u@);
    let mut seen: Vec<String> = Vec::new();
    let mut out: Vec<NewPodcast> = Vec::new();
    let mut i: usize = 0;
    assert(cands.take(0) =~= Seq::<NewPodcastView>::empty());
    assert(out@.map_values(|p: NewPodcast| p@) =~= Seq::<NewPodcastView>::empty());
    while i < candidates.len()
        invariant
            cands == candidates@.map_values(|p: NewPodcast| p@),
            known == known_urls@.map_values(|u: String| u@),
            i <= candidates.len(),
            seen@.map_values(|u: String| u@) == urls_of(cands.take(i as int)),
            out@.map_values(|p: NewPodcast| p@) == fresh_podcasts(cands.take(i as int), known),
        decreases candidates.len() - i,
    {
        let p = &candidates[i];
        let ghost prefix = cands.take(i as int);
        assert(cands.take(i + 1).drop_last() =~= prefix);
        assert(cands.take(i + 1).last() == p@);
        let in_known = contains_url(known_urls, &p.url);
        let in_seen = contains_url(&seen, &p.url);
        if !in_known && !in_seen {
            let ghost before = out@;
            out.push(copy_podcast(p));
            assert(out@.map_values(|q: NewPodcast| q@) =~= before.map_values(|q: NewPodcast| q@).push(
                p@,
            ));
        }
        let ghost seen_before = seen@;
        seen.push(p.url.clone());
        assert(seen@.map_values(|u: String| u@) =~= seen_before.map_values(|u: String| u@).push(
            p.url@,
        ));
        assert(urls_of(cands.take(i + 1)) =~= urls_of(prefix).push(p.url@));
        i = i + 1;
    }
    assert(cands.take(i as int) =~= cands);
    out
}

/// Every stored record is one of the candidates.
pub proof fn law_fresh_from_candidates(candidates: Seq<NewPodcastView>, known: Seq<Seq<char>>)
    ensures
        forall|i: int|
            0 <= i < fresh_podcasts(candidates, known).len() ==> candidates.contains(
                #[trigger] fresh_podcasts(candidates, known)[i],
            ),
    decreases candidates.len(),
{
    if candidates.len() > 0 {
        let prev = candidates.drop_last();
        law_fresh_from_candidates(prev, known);
        let f = fresh_podcasts(candidates, known);
        assert forall|i: int| 0 <= i < f.len() implies candidates.contains(#[trigger] f[i]) by {
            if i < fresh_podcasts(prev, known).len() {
                let j = choose|j: int| 0 <= j < prev.len() && prev[j] == f[i];
                assert(candidates[j] == f[i]);
            } else {
                assert(candidates[candidates.len() - 1] == f[i]);
            }
        }
    }
}

/// The URL of a stored record is the URL of some candidate.
proof fn lemma_fresh_urls_from_candidates(candidates: Seq<NewPodcastView>, known: Seq<Seq<char>>)
    ensures
        forall|u: Seq<char>|
            urls_of(fresh_podcasts(candidates, known)).contains(u) ==> #[trigger] urls_of(
                candidates,
            ).contains(u),
{
    law_fresh_from_candidates(candidates, known);
    let f = fresh_podcasts(candidates, known);
    assert forall|u: Seq<char>| urls_of(f).contains(u) implies #[trigger] urls_of(
        candidates,
    ).contains(u) by {
        let i = choose|i: int| 0 <= i < urls_of(f).len() && urls_of(f)[i] == u;
        assert(candidates.contains(f[i]));
        let j = choose|j: int| 0 <= j < candidates.len() && candidates[j] == f[i];
        assert(urls_of(candidates)[j] == u);
    }
}

/// No stored record has a URL that was already known.
pub proof fn law_fresh_unknown(candidates: Seq<NewPodcastView>, known: Seq<Seq<char>>)
    ensures
        forall|i: int|
            0 <= i < fresh_podcasts(candidates, known).len() ==> !known.contains(
                #[trigger] fresh_podcasts(candidates, known)[i].url,
            ),
    decreases candidates.len(),
{
    if candidates.len() > 0 {
        let prev = candidates.drop_last();
        law_fresh_unknown(prev, known);
        let pf = fresh_podcasts(prev, known);
        let f = fresh_podcasts(candidates, known);
        assert forall|i: int| 0 <= i < f.len() implies !known.contains(#[trigger] f[i].url) by {
            if i < pf.len() {
                assert(f[i] == pf[i]);
            }
        }
    }
}

/// No two stored records share a URL.
pub proof fn law_fresh_distinct(candidates: Seq<NewPodcastView>, known: Seq<Seq<char>>)
    ensures
        urls_of(fresh_podcasts(candidates, known)).no_duplicates(),
    decreases candidates.len(),
{
    if candidates.len() > 0 {
        let prev = candidates.drop_last();
        law_fresh_distinct(prev, known);
        lemma_fresh_urls_from_candidates(prev, known);
        let pf = fresh_podcasts(prev, known);
        let p = candidates.last();
        if !(known.contains(p.url) || urls_of(prev).contains(p.url)) {
            assert(urls_of(pf.push(p)) =~= urls_of(pf).push(p.url));
            assert(!urls_of(pf).contains(p.url));
        }
    }
}

/// Every candidate whose URL was not known has its URL among the stored
/// records.
pub proof fn law_fresh_complete(candidates: Seq<NewPodcastView>, known: Seq<Seq<char>>)
    ensures
        forall|i: int|
            0 <= i < candidates.len() && !known.contains(#[trigger] candidates[i].url) ==> urls_of(
                fresh_podcasts(candidates, known),
            ).contains(candidates[i].url),
    decreases candidates.len(),
{
    if candidates.len() > 0 {
        let prev = candidates.drop_last();
        law_fresh_complete(prev, known);
        let pf = fresh_podcasts(prev, known);
        let f = fresh_podcasts(candidates, known);
        let p = candidates.last();
        assert forall|i: int|
            0 <= i < candidates.len() && !known.contains(
                #[trigger] candidates[i].url,
            ) implies urls_of(f).contains(candidates[i].url) by {
            if i < candidates.len() - 1 {
                assert(prev[i] == candidates[i]);
                let k = choose|k: int| 0 <= k < urls_of(pf).len() && urls_of(pf)[k] == candidates[i].url;
                assert(urls_of(f)[k] == candidates[i].url);
            } else if urls_of(prev).contains(p.url) {
                let j = choose|j: int| 0 <= j < urls_of(prev).len() && urls_of(prev)[j] == p.url;
                assert(prev[j].url == p.url);
                assert(candidates[j] == prev[j]);
                let k = choose|k: int| 0 <= k < urls_of(pf).len() && urls_of(pf)[k] == p.url;
                assert(urls_of(f)[k] == p.url);
            } else {
                assert(urls_of(f)[f.len() - 1] == p.url);
            }
        }
    }
}

/// `idx` places each stored record at the first candidate with its URL, in
/// increasing candidate order.
pub open spec fn placed_in_order(
    candidates: Seq<NewPodcastView>,
    stored: Seq<NewPodcastView>,
    idx: Seq<int>,
) -> bool {
    &&& idx.len() == stored.len()
    &&& forall|i: int|
        0 <= i < idx.len() ==> 0 <= #[trigger] idx[i] < candidates.len() && candidates[idx[i]]
            == stored[i]
    &&& forall|i: int, j: int| 0 <= i < j < idx.len() ==> idx[i] < idx[j]
    &&& forall|i: int, a: int|
        #![trigger candidates[a], stored[i]]
        0 <= i < idx.len() && 0 <= a < idx[i] ==> candidates[a].url != stored[i].url
}

/// The stored records keep the candidates' order, and each is the first
/// candidate with its URL.
pub proof fn law_fresh_in_order(candidates: Seq<NewPodcastView>, known: Seq<Seq<char>>)
    ensures
        exists|idx: Seq<int>|
            placed_in_order(candidates, fresh_podcasts(candidates, known), idx),
    decreases candidates.len(),
{
    if candidates.len() == 0 {
        assert(placed_in_order(candidates, fresh_podcasts(candidates, known), Seq::empty()));
    } else {
        let prev = candidates.drop_last();
        law_fresh_in_order(prev, known);
        let pf = fresh_podcasts(prev, known);
        let pidx = choose|idx: Seq<int>| placed_in_order(prev, pf, idx);
        let f = fresh_podcasts(candidates, known);
        let p = candidates.last();
        let last = candidates.len() - 1;
        assert forall|i: int| 0 <= i < pidx.len() implies 0 <= #[trigger] pidx[i] < candidates.len()
            && candidates[pidx[i]] == pf[i] by {
            assert(prev[pidx[i]] == candidates[pidx[i]]);
        }
        assert forall|i: int, a: int|
            #![trigger candidates[a], pf[i]]
            0 <= i < pidx.len() && 0 <= a < pidx[i] implies candidates[a].url != pf[i].url by {
            assert(prev[a] == candidates[a]);
            assert(prev[a].url != pf[i].url);
        }
        if known.contains(p.url) || urls_of(prev).contains(p.url) {
            assert(f == pf);
            assert(placed_in_order(candidates, f, pidx));
        } else {
            let idx = pidx.push(last);
            assert(f == pf.push(p));
            assert forall|a: int| 0 <= a < last implies #[trigger] candidates[a].url != p.url by {
                assert(urls_of(prev)[a] == prev[a].url);
                assert(prev[a] == candidates[a]);
            }
            assert forall|i: int| 0 <= i < idx.len() implies 0 <= #[trigger] idx[i] < candidates.len()
                && candidates[idx[i]] == f[i] by {
                if i < pidx.len() {
                    assert(idx[i] == pidx[i]);
                    assert(f[i] == pf[i]);
                }
            }
            assert forall|i: int, a: int|
                #![trigger candidates[a], f[i]]
                0 <= i < idx.len() && 0 <= a < idx[i] implies candidates[a].url != f[i].url by {
                if i < pidx.len() {
                    assert(idx[i] == pidx[i]);
                    assert(f[i] == pf[i]);
                } else {
                    assert(f[i] == p);
                }
            }
            assert(placed_in_order(candidates, f, idx));
        }
    }
}

/// Where every candidate's URL is known, nothing is stored.
proof fn lemma_fresh_all_known(candidates: Seq<NewPodcastView>, known: Seq<Seq<char>>)
    requires
        forall|i: int| 0 <= i < candidates.len() ==> known.contains(#[trigger] candidates[i].url),
    ensures
        fresh_podcasts(candidates, known) == Seq::<NewPodcastView>::empty(),
    decreases candidates.len(),
{
    if candidates.len() > 0 {
        let prev = candidates.drop_last();
        assert forall|i: int| 0 <= i < prev.len() implies known.contains(#[trigger] prev[i].url) by {
            assert(prev[i] == candidates[i]);
        }
        lemma_fresh_all_known(prev, known);
        assert(known.contains(candidates[candidates.len() - 1].url));
    }
}

/// Storing the same candidates again, once the stored URLs are known,
/// stores nothing more.
pub proof fn law_fresh_idempotent(candidates: Seq<NewPodcastView>, known: Seq<Seq<char>>)
    ensures
        fresh_podcasts(candidates, known + urls_of(fresh_podcasts(candidates, known)))
            == Seq::<NewPodcastView>::empty(),
{
    let stored = urls_of(fresh_podcasts(candidates, known));
    let known2 = known + stored;
    law_fresh_complete(candidates, known);
    assert forall|i: int| 0 <= i < candidates.len() implies known2.contains(
        #[trigger] candidates[i].url,
    ) by {
        let u: Seq<char> = candidates[i].url;
        if known.contains(u) {
            let j = choose|j: int| 0 <= j < known.len() && known[j] == u;
            assert(known2[j] == u);
        } else {
            let j = choose|j: int| 0 <= j < stored.len() && stored[j] == u;
            assert(known2[known.len() + j] == u);
        }
    }
    lemma_fresh_all_known(candidates, known2);
}

} // verus!
