//! Where podcasts are downloaded to, and how a download starts.

use vstd::prelude::*;
use crate::models::Config;

verus! {

/// The download directory for the stored `downloaddir` setting's value:
/// the value itself, or the temporary directory `/tmp/` where it has none.
pub open spec fn spec_download_dir(value: Option<Seq<char>>) -> Seq<char> {
    match value {
        Some(path) => path,
        None => "/tmp/"@,
    }
}

/// The download directory for the `downloaddir` setting row where one is
/// stored: its value, or the temporary directory `/tmp/` where the row or
/// its value is absent.
pub open spec fn spec_setting_dir(setting: Option<Config>) -> Seq<char> {
    match setting {
        Some(c) => spec_download_dir(c.value.deep_view()),
        None => "/tmp/"@,
    }
}

/// The download directory that the `downloaddir` setting row names, where
/// one is stored; the temporary directory `/tmp/` otherwise.
pub fn getdownloaddir(setting: &Option<Config>) -> (dir: String)
    ensures
        dir@ == spec_setting_dir(*setting),
{
    match setting {
        Some(config) => match &config.value {
            Some(path) => path.clone(),
            None => "/tmp/".to_owned(),
        },
        None => "/tmp/".to_owned(),
    }
}

/// The path a podcast file is saved at once downloaded: the directory
/// followed directly by the file name.
pub fn download_path(dir: &str, filename: &str) -> (path: String)
    ensures
        path@ == dir@ + filename@,
{
    dir.to_owned().concat(filename)
}

/// The path a podcast file is written to while it downloads: the final
/// path followed by `.downloading`.
pub fn partial_download_path(dir: &str, filename: &str) -> (path: String)
    ensures
        path@ == dir@ + filename@ + ".downloading"@,
{
    download_path(dir, filename).concat(".downloading")
}

/// How a download starts.
pub enum DownloadStart {
    /// The final file exists: nothing is fetched.
    AlreadyDownloaded,
    /// A partial file of this many bytes exists: the transfer resumes after
    /// them, appending to it.
    Resume(u64),
    /// No file exists: a new partial file is created and fetched whole.
    Fresh,
}

/// Decides how a download starts from what is on disk: whether the final
/// file exists, and the length of the partial file where there is one.
pub fn plan_download(final_exists: bool, partial_len: Option<u64>) -> (r: DownloadStart)
    ensures
        final_exists ==> r is AlreadyDownloaded,
        !final_exists ==> match partial_len {
            Some(n) => r == DownloadStart::Resume(n),
            None => r is Fresh,
        },
{
    if final_exists {
        DownloadStart::AlreadyDownloaded
    } else {
        match partial_len {
            Some(n) => DownloadStart::Resume(n),
            None => DownloadStart::Fresh,
        }
    }
}

/// A stored directory is used as it is, whatever its text; only a missing
/// row or value falls back to `/tmp/`.
pub proof fn law_download_dir(setting: Option<Config>)
    ensures
        setting matches Some(c) ==> (c.value matches Some(p) ==> spec_setting_dir(setting) == p@),
        setting matches Some(c) ==> (c.value is None ==> spec_setting_dir(setting) == "/tmp/"@),
        setting is None ==> spec_setting_dir(setting) == "/tmp/"@,
        forall|p: Seq<char>| #[trigger] spec_download_dir(Some(p)) == p,
{
}

} // verus!
