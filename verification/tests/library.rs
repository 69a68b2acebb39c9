use octopod::cli::{
    content_kind, download_dir_config, is_confirmation, selects_subscription, update_target,
    ContentKind,
};
use octopod::common::{
    download_path, getdownloaddir, partial_download_path, plan_download, DownloadStart,
};
use octopod::feed::{episode, file_name_from_segments, path_segments, read_feed, FeedItem, FeedReading};
use octopod::models::{
    select_new_podcasts, Config, Podcast, FeedError, FeedUpdate, NewPodcast, NewSubscription,
    SubscribeError, Subscription,
};
use octopod::schema;
use octopod::text::{parse_id, split_str};

fn strings(xs: &[&str]) -> Vec<String> {
    xs.iter().map(|s| s.to_string()).collect()
}

fn timestamp() -> chrono::NaiveDateTime {
    chrono::NaiveDate::from_ymd_opt(2024, 1, 1).unwrap().and_hms_opt(0, 0, 0).unwrap()
}

fn subscription(last_build_date: Option<&str>) -> Subscription {
    Subscription {
        id: 7,
        url: "http://example.com/feed".to_string(),
        label: None,
        last_build_date: last_build_date.map(|d| d.to_string()),
        created_at: timestamp(),
    }
}

const DATE: &str = "Mon, 01 Jan 2024 00:00:00 GMT";

fn feed_xml(items: &str) -> Vec<u8> {
    format!(
        "<?xml version=\"1.0\"?><rss version=\"2.0\"><channel><title>My Show</title>\
         <link>http://example.com</link><description>d</description>\
         <lastBuildDate>{}</lastBuildDate>{}</channel></rss>",
        DATE, items
    )
    .into_bytes()
}

fn item(title: &str, url: &str) -> String {
    format!(
        "<item><title>{}</title><enclosure url=\"{}\" length=\"1\" type=\"audio/mpeg\"/></item>",
        title, url
    )
}

fn podcast(url: &str) -> NewPodcast {
    NewPodcast {
        subscription_id: 1,
        url: url.to_string(),
        filename: "f.mp3".to_string(),
        title: "t".to_string(),
        downloaded: 0,
    }
}

#[test]
fn split_str_yields_every_piece() {
    assert_eq!(split_str("a/b/c", '/'), strings(&["a", "b", "c"]));
    assert_eq!(split_str("", '/'), strings(&[""]));
    assert_eq!(split_str("a/", '/'), strings(&["a", ""]));
    assert_eq!(split_str("//", '/'), strings(&["", "", ""]));
    assert_eq!(split_str("é/ü", '/'), strings(&["é", "ü"]));
}

#[test]
fn parse_id_reads_decimal_i32() {
    assert_eq!(parse_id("42"), Some(42));
    assert_eq!(parse_id("-7"), Some(-7));
    assert_eq!(parse_id("+5"), Some(5));
    assert_eq!(parse_id("007"), Some(7));
    assert_eq!(parse_id("2147483647"), Some(i32::MAX));
    assert_eq!(parse_id("-2147483648"), Some(i32::MIN));
    assert_eq!(parse_id("2147483648"), None);
    assert_eq!(parse_id("-2147483649"), None);
    assert_eq!(parse_id("99999999999999999999"), None);
    assert_eq!(parse_id(""), None);
    assert_eq!(parse_id("-"), None);
    assert_eq!(parse_id("+"), None);
    assert_eq!(parse_id("12a"), None);
    assert_eq!(parse_id(" 1"), None);
    assert_eq!(parse_id("abc"), None);
}

#[test]
fn parse_id_agrees_with_std() {
    for s in ["0", "-0", "+0", "123", "-99", "2147483647", "2147483648", "1_0", "٣", "--1", "+-1"] {
        assert_eq!(parse_id(s), s.parse::<i32>().ok(), "input {:?}", s);
    }
}

#[test]
fn path_segments_follow_the_leading_slash() {
    assert_eq!(path_segments("/a/b"), Some(strings(&["a", "b"])));
    assert_eq!(path_segments("/"), Some(strings(&[""])));
    assert_eq!(path_segments("/a/"), Some(strings(&["a", ""])));
    assert_eq!(path_segments("abc"), None);
    assert_eq!(path_segments(""), None);
}

#[test]
fn file_name_is_last_segment_or_before_marker() {
    assert_eq!(file_name_from_segments(&strings(&["feeds", "ep1.mp3"])), "ep1.mp3");
    assert_eq!(file_name_from_segments(&strings(&["show", "episode42", "enclosure.mp3"])), "episode42.mp3");
    assert_eq!(file_name_from_segments(&strings(&["show", "episode42", "listen.mp3", "x"])), "episode42.mp3");
    assert_eq!(file_name_from_segments(&strings(&["listen.mp3"])), ".mp3");
    assert_eq!(file_name_from_segments(&strings(&["a", "listen.mp3", "enclosure.mp3"])), "a.mp3");
    assert_eq!(file_name_from_segments(&strings(&[])), "");
    assert_eq!(file_name_from_segments(&strings(&["dir", ""])), "");
}

#[test]
fn episode_normalizes_url_and_names_file() {
    let it = FeedItem {
        title: Some("Ep".to_string()),
        enclosure_url: Some("HTTP://Example.COM/show/listen.mp3".to_string()),
    };
    let e = episode(&it).unwrap();
    assert_eq!(e.url, "http://example.com/show/listen.mp3");
    assert_eq!(e.filename, "show.mp3");
    assert_eq!(e.title, "Ep");

    let it = FeedItem {
        title: Some("Ep".to_string()),
        enclosure_url: Some("https://example.com/a/b/ep%201.mp3?x=1".to_string()),
    };
    let e = episode(&it).unwrap();
    assert_eq!(e.url, "https://example.com/a/b/ep%201.mp3?x=1");
    assert_eq!(e.filename, "ep%201.mp3");
}

#[test]
fn episode_missing_parts_give_none() {
    let no_title = FeedItem { title: None, enclosure_url: Some("http://e.com/a.mp3".to_string()) };
    assert!(episode(&no_title).is_none());
    let no_enclosure = FeedItem { title: Some("t".to_string()), enclosure_url: None };
    assert!(episode(&no_enclosure).is_none());
    let bad_url = FeedItem { title: Some("t".to_string()), enclosure_url: Some("not a url".to_string()) };
    assert!(episode(&bad_url).is_none());
    let no_base = FeedItem { title: Some("t".to_string()), enclosure_url: Some("mailto:a@b.c".to_string()) };
    assert!(episode(&no_base).is_none());
}

#[test]
fn from_xml_feed_updates_new_subscription() {
    let body = feed_xml(&(item("Ep 1", "http://example.com/ep1.mp3") + &item("Ep 2", "http://Example.com/x/enclosure.mp3")));
    let sub = subscription(None);
    match sub.from_xml_feed(body, false) {
        Ok(FeedUpdate::Updated { label, last_build_date, podcasts }) => {
            assert_eq!(label, "My Show");
            assert_eq!(last_build_date.as_deref(), Some(DATE));
            assert_eq!(podcasts.len(), 2);
            assert_eq!(podcasts[0].subscription_id, 7);
            assert_eq!(podcasts[0].url, "http://example.com/ep1.mp3");
            assert_eq!(podcasts[0].filename, "ep1.mp3");
            assert_eq!(podcasts[0].title, "Ep 1");
            assert_eq!(podcasts[0].downloaded, 0);
            assert_eq!(podcasts[1].url, "http://example.com/x/enclosure.mp3");
            assert_eq!(podcasts[1].filename, "x.mp3");
        }
        _ => panic!("expected an update"),
    }
}

#[test]
fn from_xml_feed_marks_downloaded_when_asked() {
    let body = feed_xml(&item("Ep 1", "http://example.com/ep1.mp3"));
    match subscription(Some("older")).from_xml_feed(body, true) {
        Ok(FeedUpdate::Updated { podcasts, .. }) => {
            assert_eq!(podcasts.len(), 1);
            assert_eq!(podcasts[0].downloaded, 1);
        }
        _ => panic!("expected an update"),
    }
}

#[test]
fn from_xml_feed_up_to_date_when_date_unchanged() {
    let body = feed_xml(&item("Ep 1", "http://example.com/ep1.mp3"));
    let r = subscription(Some(DATE)).from_xml_feed(body, false);
    assert!(matches!(r, Ok(FeedUpdate::AlreadyUpToDate)));
    assert_eq!(r.unwrap().status(), "Already up to date");
}

#[test]
fn from_xml_feed_second_read_is_up_to_date() {
    let body = feed_xml(&item("Ep 1", "http://example.com/ep1.mp3"));
    let mut sub = subscription(None);
    let first = sub.from_xml_feed(body.clone(), false).unwrap();
    assert_eq!(first.status(), "updated");
    if let FeedUpdate::Updated { last_build_date, .. } = first {
        sub.last_build_date = last_build_date;
    }
    assert!(matches!(sub.from_xml_feed(body, false), Ok(FeedUpdate::AlreadyUpToDate)));
}

#[test]
fn from_xml_feed_refuses_non_rss() {
    let r = subscription(None).from_xml_feed(b"<html></html>".to_vec(), false);
    assert!(matches!(r, Err(FeedError::Rss(_))));
    let r = subscription(None).from_xml_feed(b"".to_vec(), false);
    assert!(matches!(r, Err(FeedError::Rss(_))));
}

#[test]
fn checked_from_xml_feed_flags_malformed_input() {
    let sub = subscription(None);
    assert!(sub.checked_from_xml_feed(vec![0xff, 0xfe], false).is_none());
    let no_enclosure = feed_xml("<item><title>t</title></item>");
    assert!(sub.checked_from_xml_feed(no_enclosure.clone(), false).is_none());
    // An up-to-date feed is not read item by item.
    assert!(matches!(
        subscription(Some(DATE)).checked_from_xml_feed(no_enclosure, false),
        Some(Ok(FeedUpdate::AlreadyUpToDate))
    ));
}

#[test]
fn read_feed_reports_each_outcome() {
    let body = feed_xml(&item("Ep 1", "http://example.com/ep1.mp3"));
    assert!(matches!(read_feed(&body, &None), FeedReading::Update { .. }));
    assert!(matches!(read_feed(&body, &Some(DATE.to_string())), FeedReading::UpToDate));
    assert!(matches!(read_feed(b"nope", &None), FeedReading::Unreadable(_)));
    assert!(matches!(read_feed(&[0xc3], &None), FeedReading::Malformed));
}

#[test]
fn select_new_podcasts_skips_known_and_repeated() {
    let cands = vec![podcast("a"), podcast("b"), podcast("a"), podcast("c"), podcast("b")];
    let known = strings(&["c"]);
    let fresh = select_new_podcasts(&cands, &known);
    let urls: Vec<&str> = fresh.iter().map(|p| p.url.as_str()).collect();
    assert_eq!(urls, vec!["a", "b"]);
    // Once stored, nothing is new any more.
    let mut known2 = known.clone();
    known2.extend(fresh.iter().map(|p| p.url.clone()));
    assert!(select_new_podcasts(&cands, &known2).is_empty());
    assert!(select_new_podcasts(&vec![], &known).is_empty());
}

#[test]
fn new_subscription_normalizes_url() {
    match NewSubscription::parse("HTTP://Example.com") {
        Ok(s) => assert_eq!(s.url, "http://example.com/"),
        Err(_) => panic!("expected a URL"),
    }
    assert!(matches!(NewSubscription::parse("no url here"), Err(SubscribeError::InvalidUrl(_))));
}

#[test]
fn schema_subscription_reads_feed() {
    let sub = schema::Subscription::map(3, "u".to_string(), "l".to_string(), "old".to_string());
    assert_eq!(sub.id, 3);
    let body = feed_xml(&item("Ep 1", "http://example.com/s/listen.mp3"));
    match sub.from_xml_feed(body.clone(), true) {
        Ok(schema::FeedUpdate::Updated { label, podcasts, downloaded, .. }) => {
            assert_eq!(label, "My Show");
            assert!(downloaded);
            assert_eq!(podcasts.len(), 1);
            assert_eq!(podcasts[0].id, 0);
            assert_eq!(podcasts[0].subscription_id, 3);
            assert_eq!(podcasts[0].filename, "s.mp3");
            assert_eq!(podcasts[0].content_text, "");
        }
        _ => panic!("expected an update"),
    }
    let current = schema::Subscription::map(3, "u".to_string(), "l".to_string(), DATE.to_string());
    assert!(matches!(current.from_xml_feed(body, false), Ok(schema::FeedUpdate::AlreadyUpToDate)));
    assert!(current.checked_from_xml_feed(vec![0x80], false).is_none());
}

#[test]
fn schema_delete_removes_subscription_then_podcasts() {
    let sub = schema::Subscription::map(9, "u".to_string(), "l".to_string(), "d".to_string());
    let r = sub.delete();
    assert_eq!(r.len(), 2);
    assert!(matches!(r[0], schema::Removal::Subscription(9)));
    assert!(matches!(r[1], schema::Removal::PodcastsOf(9)));
    let p = schema::Podcast::map(1, 9, "u".to_string(), "f".to_string(), "t".to_string(), "c".to_string());
    assert_eq!(p.subscription_id, 9);
    assert_eq!(p.content_text, "c");
}

#[test]
fn download_dir_defaults_to_tmp() {
    assert_eq!(getdownloaddir(&None), "/tmp/");
    let none = Config { key: "downloaddir".to_string(), value: None };
    assert_eq!(getdownloaddir(&Some(none)), "/tmp/");
    let some = Config { key: "downloaddir".to_string(), value: Some("/music/".to_string()) };
    assert_eq!(getdownloaddir(&Some(some)), "/music/");
}

#[test]
fn download_paths_and_plan() {
    assert_eq!(download_path("/tmp/", "ep.mp3"), "/tmp/ep.mp3");
    assert_eq!(partial_download_path("/tmp/", "ep.mp3"), "/tmp/ep.mp3.downloading");
    assert!(matches!(plan_download(true, Some(5)), DownloadStart::AlreadyDownloaded));
    assert!(matches!(plan_download(false, Some(5)), DownloadStart::Resume(5)));
    assert!(matches!(plan_download(false, None), DownloadStart::Fresh));
}

#[test]
fn cli_decisions() {
    assert!(selects_subscription(0, 5));
    assert!(selects_subscription(-3, 5));
    assert!(selects_subscription(5, 5));
    assert!(!selects_subscription(4, 5));
    assert_eq!(update_target(None), Some(0));
    assert_eq!(update_target(Some("12")), Some(12));
    assert_eq!(update_target(Some("x")), None);
    assert!(is_confirmation(b'y'));
    assert!(!is_confirmation(b'Y'));
    assert!(!is_confirmation(b'n'));
    let c = download_dir_config("/music/");
    assert_eq!(c.key, "downloaddir");
    assert_eq!(c.value.as_deref(), Some("/music/"));
}

#[test]
fn content_kind_accepts_xml_and_rss() {
    assert!(matches!(content_kind(Some("application/rss+xml")), ContentKind::Feed));
    assert!(matches!(content_kind(Some("text/xml; charset=utf-8")), ContentKind::Feed));
    assert!(matches!(content_kind(Some("Application/XML")), ContentKind::Feed));
    assert!(matches!(content_kind(Some("application/rss")), ContentKind::Feed));
    match content_kind(Some("text/html")) {
        ContentKind::Unsupported(s) => assert_eq!(s, "html"),
        _ => panic!("expected unsupported"),
    }
    match content_kind(Some("application/atom+xml")) {
        ContentKind::Unsupported(s) => assert_eq!(s, "atom"),
        _ => panic!("expected unsupported"),
    }
    assert!(matches!(content_kind(None), ContentKind::Absent));
    assert!(matches!(content_kind(Some("garbage")), ContentKind::Absent));
}

#[test]
fn finished_download_leaves_pending() {
    let p = Podcast {
        id: 4,
        subscription_id: 2,
        url: "http://example.com/a.mp3".to_string(),
        filename: "a.mp3".to_string(),
        title: "A".to_string(),
        content_text: None,
        downloaded: 0,
        downloaded_at: None,
        created_at: timestamp(),
    };
    assert!(p.is_pending());
    let at = chrono::NaiveDate::from_ymd_opt(2024, 2, 3).unwrap().and_hms_opt(4, 5, 6).unwrap();
    let done = p.mark_downloaded(at);
    assert!(!done.is_pending());
    assert_eq!(done.downloaded, 1);
    assert_eq!(done.downloaded_at, Some(at));
    assert_eq!(done.id, 4);
    assert_eq!(done.filename, "a.mp3");
    assert_eq!(done.created_at, timestamp());
}

#[test]
fn subscription_is_new_only_when_url_not_stored() {
    let s = NewSubscription::parse("http://Example.com/feed").unwrap();
    assert!(s.is_new(&strings(&["http://example.com/other"])));
    assert!(!s.is_new(&strings(&["http://a.org/", "http://example.com/feed"])));
    assert!(s.is_new(&strings(&[])));
}

#[test]
fn schema_update_status_messages() {
    assert_eq!(schema::FeedUpdate::AlreadyUpToDate.status(), "Already up to date");
    let u = schema::FeedUpdate::Updated {
        label: "l".to_string(),
        last_build_date: None,
        podcasts: vec![],
        downloaded: false,
    };
    assert_eq!(u.status(), "updated");
}
