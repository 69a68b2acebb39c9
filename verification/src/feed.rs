//! A podcast feed as the library reads it, and how each of its items
//! becomes an episode: the enclosure's URL, the file name it is saved
//! under, and its title.

use vstd::prelude::*;
use vstd::utf8::{decode_utf8, valid_utf8};
use crate::outside::{parse_url, read_channel, rss_channel, url_parse, url_path, utf8_text};
use crate::text::{join_with, law_split_on, lemma_split_on_nonempty, split_on, split_str};

verus! {

/// An item of a feed: what the library reads of it.
pub struct FeedItem {
    pub title: Option<String>,
    pub enclosure_url: Option<String>,
}

pub struct FeedItemView {
    pub title: Option<Seq<char>>,
    pub enclosure_url: Option<Seq<char>>,
}

impl View for FeedItem {
    type V = FeedItemView;

    open spec fn view(&self) -> FeedItemView {
        FeedItemView { title: self.title.deep_view(), enclosure_url: self.enclosure_url.deep_view() }
    }
}

/// A feed's channel: its title, the date it was last built, and its items
/// in document order.
pub struct Feed {
    pub title: String,
    pub last_build_date: Option<String>,
    pub items: Vec<FeedItem>,
}

pub struct FeedView {
    pub title: Seq<char>,
    pub last_build_date: Option<Seq<char>>,
    pub items: Seq<FeedItemView>,
}

impl View for Feed {
    type V = FeedView;

    open spec fn view(&self) -> FeedView {
        FeedView {
            title: self.title@,
            last_build_date: self.last_build_date.deep_view(),
            items: self.items@.map_values(|i: FeedItem| i@),
        }
    }
}

/// What `Url::path_segments` yields for a URL with the given path: the path
/// after its leading `/`, split on `/`; nothing where the path does not
/// start with `/`.
pub open spec fn spec_path_segments(path: Seq<char>) -> Option<Seq<Seq<char>>> {
    if path.len() > 0 && path[0] == '/' {
        Some(split_on(path.drop_first(), '/'))
    } else {
        None
    }
}

/// The segments of a URL path, as `Url::path_segments` gives them.
pub fn path_segments(path: &str) -> (r: Option<Vec<String>>)
    ensures
        r is Some <==> spec_path_segments(path@) is Some,
        r matches Some(segs) ==> spec_path_segments(path@) == Some(
            segs@.map_values(|p: String| p@),
        ),
{
    let n: usize = path.unicode_len();
    if n > 0 && path.get_char(0) == '/' {
        let rest = path.substring_char(1, n);
        assert(rest@ =~= path@.drop_first());
        Some(split_str(rest, '/'))
    } else {
        None
    }
}

/// A path has segments exactly when it starts with `/`; they are then the
/// slash-free pieces that, joined with `/`, give the rest of the path.
pub proof fn law_path_segments(path: Seq<char>)
    ensures
        spec_path_segments(path) is Some <==> (path.len() > 0 && path[0] == '/'),
        spec_path_segments(path) matches Some(segs) ==> {
            &&& segs.len() >= 1
            &&& join_with(segs, '/') == path.drop_first()
            &&& forall|i: int| 0 <= i < segs.len() ==> !(#[trigger] segs[i]).contains('/')
        },
{
    if path.len() > 0 && path[0] == '/' {
        law_split_on(path.drop_first(), '/');
        lemma_split_on_nonempty(path.drop_first(), '/');
    }
}

/// A path segment that names the audio file generically, so that the file
/// is named after the segment before it.
pub open spec fn is_audio_marker(segment: Seq<char>) -> bool {
    segment == "enclosure.mp3"@ || segment == "listen.mp3"@
}

/// The index of the first marker segment, or the number of segments where
/// there is none.
pub open spec fn first_marker(segs: Seq<Seq<char>>) -> int
    decreases segs.len(),
{
    if segs.len() == 0 {
        0
    } else if is_audio_marker(segs[0]) {
        0
    } else {
        1 + first_marker(segs.drop_first())
    }
}

/// The file name an episode is saved under, from its URL's path segments:
/// where a segment is a marker, the segment before the first marker (empty
/// where there is none) followed by `.mp3`; otherwise the last segment.
pub open spec fn podcast_file_name(segs: Seq<Seq<char>>) -> Seq<char> {
    let k: int = first_marker(segs);
    if k < segs.len() {
        (if k == 0 {
            Seq::<char>::empty()
        } else {
            segs[k - 1]
        }) + ".mp3"@
    } else if segs.len() == 0 {
        Seq::<char>::empty()
    } else {
        segs.last()
    }
}

/// `first_marker` is the first index holding a marker, or the length.
proof fn lemma_first_marker(segs: Seq<Seq<char>>, i: int)
    requires
        0 <= i <= segs.len(),
        forall|j: int| 0 <= j < i ==> !is_audio_marker(#[trigger] segs[j]),
        i == segs.len() || is_audio_marker(segs[i]),
    ensures
        first_marker(segs) == i,
    decreases i,
{
    if i > 0 {
        assert(!is_audio_marker(segs[0]));
        assert forall|j: int| 0 <= j < i - 1 implies !is_audio_marker(
            #[trigger] segs.drop_first()[j],
        ) by {
            assert(segs.drop_first()[j] == segs[j + 1]);
        }
        lemma_first_marker(segs.drop_first(), i - 1);
    }
}

/// Names the file an episode is saved under from its URL's path segments.
pub fn file_name_from_segments(segs: &Vec<String>) -> (name: String)
    ensures
        name@ == podcast_file_name(segs@.map_values(|p: String| p@)),
{
    let ghost views = segs@.map_values(|p: String| p@);
    let enclosure = "enclosure.mp3".to_owned();
    let listen = "listen.mp3".to_owned();
    let mut name = String::new();
    let mut i: usize = 0;
    while i < segs.len()
        invariant
            views == segs@.map_values(|p: String| p@),
            enclosure@ == "enclosure.mp3"@,
            listen@ == "listen.mp3"@,
            i <= segs.len(),
            forall|j: int| 0 <= j < i ==> !is_audio_marker(#[trigger] views[j]),
            name@ == (if i == 0 {
                Seq::<char>::empty()
            } else {
                views[i - 1]
            }),
        decreases segs.len() - i,
    {
        let seg = &segs[i];
        if *seg == enclosure || *seg == listen {
            proof {
                lemma_first_marker(views, i as int);
            }
            return name.concat(".mp3");
        }
        name = seg.clone();
        i = i + 1;
    }
    proof {
        lemma_first_marker(views, i as int);
    }
    name
}

/// An episode of a feed: the serialized URL of its enclosure, the name of
/// the file it is saved under, and its title.
pub struct Episode {
    pub url: String,
    pub filename: String,
    pub title: String,
}

pub struct EpisodeView {
    pub url: Seq<char>,
    pub filename: Seq<char>,
    pub title: Seq<char>,
}

impl View for Episode {
    type V = EpisodeView;

    open spec fn view(&self) -> EpisodeView {
        EpisodeView { url: self.url@, filename: self.filename@, title: self.title@ }
    }
}

/// The episode that an item describes; `None` where it lacks an enclosure
/// or a title, where the enclosure's URL does not parse, or where that URL
/// has no path segments.
pub open spec fn spec_episode(item: FeedItemView) -> Option<EpisodeView> {
    match item.enclosure_url {
        None => None,
        Some(u) => match url_parse(u) {
            None => None,
            Some(href) => match spec_path_segments(url_path(href)) {
                None => None,
                Some(segs) => match item.title {
                    None => None,
                    Some(t) => Some(EpisodeView { url: href, filename: podcast_file_name(segs), title: t }),
                },
            },
        },
    }
}

/// Reads the episode that an item describes.
pub fn episode(item: &FeedItem) -> (r: Option<Episode>)
    ensures
        r matches Some(e) ==> spec_episode(item@) == Some(e@),
        r is None ==> spec_episode(item@) is None,
{
    let enclosure_url = match &item.enclosure_url {
        Some(u) => u,
        None => return None,
    };
    let parsed = match parse_url(enclosure_url.as_str()) {
        Ok(p) => p,
        Err(_) => return None,
    };
    let segs = match path_segments(parsed.path.as_str()) {
        Some(s) => s,
        None => return None,
    };
    let filename = file_name_from_segments(&segs);
    match &item.title {
        Some(t) => Some(Episode { url: parsed.href, filename, title: t.clone() }),
        None => None,
    }
}

/// The episodes of all items, in order; `None` where any item has none.
pub open spec fn spec_episodes(items: Seq<FeedItemView>) -> Option<Seq<EpisodeView>>
    decreases items.len(),
{
    if items.len() == 0 {
        Some(Seq::empty())
    } else {
        match (spec_episodes(items.drop_last()), spec_episode(items.last())) {
            (Some(prev), Some(e)) => Some(prev.push(e)),
            _ => None,
        }
    }
}

/// Reads the episodes of all items.
pub fn episodes(items: &Vec<FeedItem>) -> (r: Option<Vec<Episode>>)
    ensures
        r matches Some(es) ==> spec_episodes(items@.map_values(|i: FeedItem| i@)) == Some(
            es@.map_values(|e: Episode| e@),
        ),
        r is None ==> spec_episodes(items@.map_values(|i: FeedItem| i@)) is None,
{
    let ghost views = items@.map_values(|i: FeedItem| i@);
    let mut out: Vec<Episode> = Vec::new();
    let mut i: usize = 0;
    assert(views.take(0) =~= Seq::<FeedItemView>::empty());
    while i < items.len()
        invariant
            views == items@.map_values(|i: FeedItem| i@),
            i <= items.len(),
            spec_episodes(views.take(i as int)) == Some(out@.map_values(|e: Episode| e@)),
        decreases items.len() - i,
    {
        assert(views.take(i + 1).drop_last() =~= views.take(i as int));
        match episode(&items[i]) {
            Some(e) => {
                let ghost before = out@;
                out.push(e);
                assert(out@.map_values(|e: Episode| e@) =~= before.map_values(|e: Episode| e@).push(
                    e@,
                ));
            },
            None => {
                proof {
                    lemma_episodes_none(views, i as int);
                }
                return None;
            },
        }
        i = i + 1;
    }
    assert(views.take(i as int) =~= views);
    Some(out)
}

/// A prefix without episodes leaves the whole without episodes.
proof fn lemma_episodes_none(items: Seq<FeedItemView>, i: int)
    requires
        0 <= i < items.len(),
        spec_episode(items[i]) is None,
    ensures
        spec_episodes(items) is None,
    decreases items.len(),
{
    if i < items.len() - 1 {
        assert(items.drop_last()[i] == items[i]);
        lemma_episodes_none(items.drop_last(), i);
    }
}

/// What reading a feed body amounts to, given the last build date stored
/// for its subscription.
pub enum FeedPlan {
    /// The body is not UTF-8, or an item lacks what an episode needs.
    Malformed,
    /// The body is not a channel that the RSS reader accepts.
    Unreadable,
    /// The channel carries a build date equal to the stored one.
    UpToDate,
    /// The channel's title and build date, and its episodes in order.
    Update { label: Seq<char>, last_build_date: Option<Seq<char>>, episodes: Seq<EpisodeView> },
}

/// The plan for a feed body: a channel whose build date is given and equal
/// to the stored one is up to date; any other readable channel is an update
/// with all of its episodes.
pub open spec fn feed_plan(stored_date: Option<Seq<char>>, body: Seq<u8>) -> FeedPlan {
    if !valid_utf8(body) {
        FeedPlan::Malformed
    } else {
        match rss_channel(decode_utf8(body)) {
            None => FeedPlan::Unreadable,
            Some(ch) => if ch.last_build_date is Some && ch.last_build_date == stored_date {
                FeedPlan::UpToDate
            } else {
                match spec_episodes(ch.items) {
                    Some(es) => FeedPlan::Update {
                        label: ch.title,
                        last_build_date: ch.last_build_date,
                        episodes: es,
                    },
                    None => FeedPlan::Malformed,
                }
            },
        }
    }
}

/// What was read from a feed body; the variants follow `FeedPlan`.
pub enum FeedReading {
    /// The body is not UTF-8, or an item lacks what an episode needs.
    Malformed,
    /// The RSS reader refused the body, with its error.
    Unreadable(rss::Error),
    /// The channel's build date equals the stored one.
    UpToDate,
    /// The channel's title and build date, and its episodes in order.
    Update { label: String, last_build_date: Option<String>, episodes: Vec<Episode> },
}

/// `reading` is what `plan` describes.
pub open spec fn reading_matches(reading: FeedReading, plan: FeedPlan) -> bool {
    match plan {
        FeedPlan::Malformed => reading is Malformed,
        FeedPlan::Unreadable => reading is Unreadable,
        FeedPlan::UpToDate => reading is UpToDate,
        FeedPlan::Update { label, last_build_date, episodes } => match reading {
            FeedReading::Update { label: l, last_build_date: d, episodes: es } => {
                &&& l@ == label
                &&& d.deep_view() == last_build_date
                &&& es@.map_values(|e: Episode| e@) == episodes
            },
            _ => false,
        },
    }
}

/// Two optional strings are equal.
fn same_date(a: &Option<String>, b: &Option<String>) -> (r: bool)
    ensures
        r == (a.deep_view() == b.deep_view()),
{
    match (a, b) {
        (Some(x), Some(y)) => *x == *y,
        (None, None) => true,
        _ => false,
    }
}

/// Reads a feed body against the last build date stored for its
/// subscription.
pub fn read_feed(body: &[u8], stored_date: &Option<String>) -> (r: FeedReading)
    ensures
        reading_matches(r, feed_plan(stored_date.deep_view(), body@)),
{
    let text = match utf8_text(body) {
        Some(t) => t,
        None => return FeedReading::Malformed,
    };
    let feed = match read_channel(text) {
        Ok(f) => f,
        Err(e) => return FeedReading::Unreadable(e),
    };
    if feed.last_build_date.is_some() && same_date(&feed.last_build_date, stored_date) {
        return FeedReading::UpToDate;
    }
    match episodes(&feed.items) {
        Some(es) => FeedReading::Update {
            label: feed.title,
            last_build_date: feed.last_build_date,
            episodes: es,
        },
        None => FeedReading::Malformed,
    }
}

/// Once an update has stored a channel's build date, reading the same body
/// again finds it up to date; a channel without a build date is never up to
/// date.
pub proof fn law_update_then_up_to_date(stored_date: Option<Seq<char>>, body: Seq<u8>)
    ensures
        feed_plan(stored_date, body) matches FeedPlan::Update { last_build_date, .. } ==> (
        last_build_date is Some ==> feed_plan(last_build_date, body) is UpToDate),
        feed_plan(stored_date, body) matches FeedPlan::Update { last_build_date, .. } ==> (
        last_build_date is None ==> forall|other: Option<Seq<char>>|
            !(#[trigger] feed_plan(other, body) is UpToDate)),
{
}

/// The file name an episode gets: with no marker segment it is the last
/// segment (empty where there are none); where the first marker stands at
/// `k`, it is the segment before it (empty for `k == 0`) followed by `.mp3`.
pub proof fn law_file_name(segs: Seq<Seq<char>>)
    ensures
        (forall|i: int| 0 <= i < segs.len() ==> !is_audio_marker(#[trigger] segs[i]))
            ==> podcast_file_name(segs) == (if segs.len() == 0 {
            Seq::<char>::empty()
        } else {
            segs[segs.len() - 1]
        }),
        forall|k: int|
            0 <= k < segs.len() && #[trigger] is_audio_marker(segs[k]) && (forall|j: int|
                0 <= j < k ==> !is_audio_marker(#[trigger] segs[j])) ==> podcast_file_name(segs)
                == (if k == 0 {
                Seq::<char>::empty()
            } else {
                segs[k - 1]
            }) + ".mp3"@,
{
    if forall|i: int| 0 <= i < segs.len() ==> !is_audio_marker(#[trigger] segs[i]) {
        lemma_first_marker(segs, segs.len() as int);
    }
    assert forall|k: int|
        0 <= k < segs.len() && #[trigger] is_audio_marker(segs[k]) && (forall|j: int|
            0 <= j < k ==> !is_audio_marker(#[trigger] segs[j])) implies podcast_file_name(segs)
            == (if k == 0 {
            Seq::<char>::empty()
        } else {
            segs[k - 1]
        }) + ".mp3"@ by {
        lemma_first_marker(segs, k);
    }
}

/// An item gives an episode exactly when it has a title and an enclosure
/// whose URL parses to one with path segments; the episode then holds the
/// parsed URL, the file name those segments give, and the item's title.
pub proof fn law_episode(item: FeedItemView)
    ensures
        spec_episode(item) is Some <==> {
            &&& item.title is Some
            &&& item.enclosure_url matches Some(u) && url_parse(u) matches Some(href)
                && spec_path_segments(url_path(href)) is Some
        },
        spec_episode(item) matches Some(e) ==> {
            &&& Some(e.title) == item.title
            &&& url_parse(item.enclosure_url->0) == Some(e.url)
            &&& e.filename == podcast_file_name(spec_path_segments(url_path(e.url))->0)
        },
{
}

/// The episodes of a list of items, item by item: present exactly when
/// every item has one, and then one episode per item, in the same order.
pub proof fn law_episodes(items: Seq<FeedItemView>)
    ensures
        spec_episodes(items) is Some <==> (forall|i: int|
            0 <= i < items.len() ==> #[trigger] spec_episode(items[i]) is Some),
        spec_episodes(items) matches Some(es) ==> es.len() == items.len() && (forall|i: int|
            0 <= i < items.len() ==> spec_episode(#[trigger] items[i]) == Some(es[i])),
    decreases items.len(),
{
    if items.len() > 0 {
        let prev = items.drop_last();
        law_episodes(prev);
        assert forall|i: int| 0 <= i < prev.len() implies #[trigger] prev[i] == items[i] by {}
        if forall|i: int| 0 <= i < items.len() ==> #[trigger] spec_episode(items[i]) is Some {
            assert forall|i: int| 0 <= i < prev.len() implies #[trigger] spec_episode(
                prev[i],
            ) is Some by {
                assert(prev[i] == items[i]);
            }
            assert(spec_episode(items[items.len() - 1]) is Some);
        }
        if spec_episodes(items) is Some {
            let es = spec_episodes(items).unwrap();
            let pes = spec_episodes(prev).unwrap();
            assert forall|i: int| 0 <= i < items.len() implies spec_episode(#[trigger] items[i])
                == Some(es[i]) by {
                if i < prev.len() {
                    assert(prev[i] == items[i]);
                    assert(es[i] == pes[i]);
                }
            }
        } else {
            if spec_episodes(prev) is None {
                let i = choose|i: int| 0 <= i < prev.len() && #[trigger] spec_episode(prev[i]) is None;
                assert(prev[i] == items[i]);
                assert(spec_episode(items[i]) is None);
            } else {
                assert(spec_episode(items[items.len() - 1]) is None);
            }
        }
    }
}

/// How reading a body turns out, by what the UTF-8 decoder and the RSS
/// reader give: a body that is not UTF-8 is malformed; one the reader
/// refuses is unreadable; a channel is up to date exactly when it carries a
/// build date equal to the stored one, and otherwise it is an update with
/// the channel's title and build date and one episode per item (malformed
/// where some item has none).
pub proof fn law_feed_plan(stored: Option<Seq<char>>, body: Seq<u8>)
    ensures
        !valid_utf8(body) ==> feed_plan(stored, body) is Malformed,
        valid_utf8(body) && rss_channel(decode_utf8(body)) is None ==> feed_plan(stored, body) is Unreadable,
        valid_utf8(body) ==> (rss_channel(decode_utf8(body)) matches Some(ch) ==> {
            &&& (feed_plan(stored, body) is UpToDate <==> (ch.last_build_date is Some
                && ch.last_build_date == stored))
            &&& ch.last_build_date != stored ==> !(feed_plan(stored, body) is UpToDate)
            &&& !(ch.last_build_date is Some && ch.last_build_date == stored) ==> (
            (forall|i: int|
                0 <= i < ch.items.len() ==> #[trigger] spec_episode(ch.items[i]) is Some) ==> (
            feed_plan(stored, body) matches FeedPlan::Update { label, last_build_date, episodes }
                && label == ch.title && last_build_date == ch.last_build_date && episodes.len()
                == ch.items.len() && (forall|i: int|
                0 <= i < ch.items.len() ==> spec_episode(#[trigger] ch.items[i]) == Some(
                    episodes[i],
                ))))
            &&& !(ch.last_build_date is Some && ch.last_build_date == stored) ==> (
            (exists|i: int|
                0 <= i < ch.items.len() && #[trigger] spec_episode(ch.items[i]) is None) ==> feed_plan(
                stored,
                body,
            ) is Malformed)
        }),
{
    if valid_utf8(body) {
        if let Some(ch) = rss_channel(decode_utf8(body)) {
            law_episodes(ch.items);
        }
    }
}

} // verus!
