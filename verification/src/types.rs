//! Shared data types: media kinds, URL analyses, settings and the registry of
//! running downloads.
use vstd::prelude::*;
use crate::text::{chars_eq, chars_of, contains, contains_chars, ends_with, ends_with_chars, string_of};

verus! {

/// The kind of media behind a URL.
#[derive(Debug, Clone, Copy, PartialEq, Eq, Structural)]
pub enum MediaType {
    YouTube,
    HLS,
    DASH,
    DirectVideo,
    DirectAudio,
    Unknown,
}

/// What an analysis of a URL found.
#[derive(Debug, Clone)]
pub struct UrlAnalysis {
    pub url: String,
    pub site_name: String,
    pub media_type: MediaType,
    pub title: Option<String>,
    pub thumbnail: Option<String>,
    pub duration: Option<String>,
    pub qualities: Vec<QualityOption>,
}

/// One downloadable quality of a media item.
#[derive(Debug, Clone)]
pub struct QualityOption {
    pub label: String,
    pub format_id: String,
    pub file_size: Option<u64>,
    pub ext: String,
}

/// User settings.
#[derive(Debug, Clone)]
pub struct AppSettings {
    pub download_folder: String,
    pub max_concurrent: u32,
    pub preferred_quality: String,
    pub preferred_format: String,
    pub auto_convert: bool,
    pub custom_folders: Vec<String>,
}

/// Calls `dirs::download_dir()` and renders the path as text, empty where the
/// platform reports none. Nothing is claimed of the result: it depends on the
/// machine and the user.
#[verifier::external_body]
fn download_dir_text() -> (r: String)
{
    dirs::download_dir().unwrap_or_default().to_string_lossy().to_string()
}

impl Default for AppSettings {
    /// The user's download folder, 3 downloads at a time, 1080p MP4,
    /// conversion on, no custom folders.
    fn default() -> (r: Self)
        ensures
            r.max_concurrent == 3,
            r.preferred_quality@ == "1080p"@,
            r.preferred_format@ == "mp4"@,
            r.auto_convert,
            r.custom_folders@.len() == 0,
    {
        AppSettings {
            download_folder: download_dir_text(),
            max_concurrent: 3,
            preferred_quality: String::from_str("1080p"),
            preferred_format: String::from_str("mp4"),
            auto_convert: true,
            custom_folders: Vec::new(),
        }
    }
}

/// A running download: the process id once it is known, and whether the user
/// asked to cancel it.
#[derive(Debug, Clone, Copy, PartialEq, Eq, Structural)]
pub struct DownloadHandle {
    pub pid: Option<u32>,
    pub cancelled: bool,
}

/// The running downloads by job id, each job at most once.
pub struct DownloadManager {
    handles: Vec<(String, DownloadHandle)>,
}

/// The registry as a map from job id to handle.
pub open spec fn registry_map(s: Seq<(String, DownloadHandle)>) -> Map<Seq<char>, DownloadHandle> {
    Map::new(
        |k: Seq<char>| exists|i: int| 0 <= i < s.len() && s[i].0@ == k,
        |k: Seq<char>| s[choose|i: int| 0 <= i < s.len() && s[i].0@ == k].1,
    )
}

/// No job id occurs twice.
pub open spec fn ids_unique(s: Seq<(String, DownloadHandle)>) -> bool {
    forall|i: int, j: int| 0 <= i < s.len() && 0 <= j < s.len() && i != j ==> s[i].0@ != s[j].0@
}

impl View for DownloadManager {
    type V = Map<Seq<char>, DownloadHandle>;

    closed spec fn view(&self) -> Map<Seq<char>, DownloadHandle> {
        registry_map(self.handles@)
    }
}

impl DownloadManager {
    /// The registry's own consistency: each job registered once.
    pub closed spec fn wf(&self) -> bool {
        ids_unique(self.handles@)
    }

    /// An empty registry.
    pub fn new() -> (r: Self)
        ensures
            r@ == Map::<Seq<char>, DownloadHandle>::empty(),
            r.wf(),
    {
        let r = DownloadManager { handles: Vec::new() };
        proof {
            assert(r@ =~= Map::<Seq<char>, DownloadHandle>::empty());
        }
        r
    }

    fn position(&self, job_id: &str) -> (r: Option<usize>)
        ensures
            match r {
                Some(i) => i < self.handles@.len() && self.handles@[i as int].0@ == job_id@,
                None => forall|j: int| 0 <= j < self.handles@.len() ==> self.handles@[j].0@ != job_id@,
            },
    {
        let want = chars_of(job_id);
        let mut i: usize = 0;
        while i < self.handles.len()
            invariant
                i <= self.handles@.len(),
                want@ == job_id@,
                forall|j: int| 0 <= j < i ==> self.handles@[j].0@ != job_id@,
            decreases self.handles@.len() - i,
        {
            let k = chars_of(self.handles[i].0.as_str());
            if chars_eq(&k, &want) {
                return Some(i);
            }
            i = i + 1;
        }
        None
    }

    /// The handle of a job.
    pub fn get(&self, job_id: &str) -> (r: Option<DownloadHandle>)
        requires
            self.wf(),
        ensures
            match r {
                Some(h) => self@.contains_key(job_id@) && self@[job_id@] == h,
                None => !self@.contains_key(job_id@),
            },
    {
        match self.position(job_id) {
            Some(i) => {
                proof {
                    let c = choose|j: int| 0 <= j < self.handles@.len() && self.handles@[j].0@ == job_id@;
                    assert(c == i);
                }
                Some(self.handles[i].1)
            },
            None => None,
        }
    }

    /// Registers a job's handle, replacing an earlier one of the same job.
    pub fn register(&mut self, job_id: &str, handle: DownloadHandle)
        requires
            old(self).wf(),
        ensures
            final(self).wf(),
            final(self)@ == old(self)@.insert(job_id@, handle),
    {
        let ghost before = self.handles@;
        match self.position(job_id) {
            Some(i) => {
                let name = string_of(&chars_of(job_id));
                self.handles.set(i, (name, handle));
                proof {
                    assert forall|k: Seq<char>| #![auto] self@.contains_key(k) <==> old(self)@.insert(job_id@, handle).contains_key(k) by {
                        if k != job_id@ && old(self)@.contains_key(k) {
                            let c = choose|j: int| 0 <= j < before.len() && before[j].0@ == k;
                            assert(self.handles@[c].0@ == k);
                        }
                        if k == job_id@ {
                            assert(self.handles@[i as int].0@ == k);
                        }
                        if self@.contains_key(k) && k != job_id@ {
                            let c = choose|j: int| 0 <= j < self.handles@.len() && self.handles@[j].0@ == k;
                            assert(before[c].0@ == k);
                        }
                    }
                    assert forall|k: Seq<char>| #![auto] self@.contains_key(k) implies self@[k] == old(self)@.insert(job_id@, handle)[k] by {
                        let c = choose|j: int| 0 <= j < self.handles@.len() && self.handles@[j].0@ == k;
                        if k == job_id@ {
                            assert(c == i);
                        } else {
                            assert(before[c].0@ == k);
                            let c0 = choose|j: int| 0 <= j < before.len() && before[j].0@ == k;
                            assert(c0 == c);
                        }
                    }
                    assert(self@ =~= old(self)@.insert(job_id@, handle));
                }
            },
            None => {
                let name = string_of(&chars_of(job_id));
                self.handles.push((name, handle));
                proof {
                    let n = before.len() as int;
                    assert forall|k: Seq<char>| #![auto] self@.contains_key(k) <==> old(self)@.insert(job_id@, handle).contains_key(k) by {
                        if k != job_id@ && old(self)@.contains_key(k) {
                            let c = choose|j: int| 0 <= j < before.len() && before[j].0@ == k;
                            assert(self.handles@[c].0@ == k);
                        }
                        if k == job_id@ {
                            assert(self.handles@[n].0@ == k);
                        }
                        if self@.contains_key(k) && k != job_id@ {
                            let c = choose|j: int| 0 <= j < self.handles@.len() && self.handles@[j].0@ == k;
                            assert(before[c].0@ == k);
                        }
                    }
                    assert forall|k: Seq<char>| #![auto] self@.contains_key(k) implies self@[k] == old(self)@.insert(job_id@, handle)[k] by {
                        let c = choose|j: int| 0 <= j < self.handles@.len() && self.handles@[j].0@ == k;
                        if k == job_id@ {
                            assert(c == n);
                        } else {
                            assert(before[c].0@ == k);
                            let c0 = choose|j: int| 0 <= j < before.len() && before[j].0@ == k;
                            assert(c0 == c);
                        }
                    }
                    assert(self@ =~= old(self)@.insert(job_id@, handle));
                }
            },
        }
    }

    /// Removes a job's handle, if it is registered.
    pub fn remove(&mut self, job_id: &str)
        requires
            old(self).wf(),
        ensures
            final(self).wf(),
            final(self)@ == old(self)@.remove(job_id@),
    {
        let ghost before = self.handles@;
        match self.position(job_id) {
            Some(i) => {
                self.handles.remove(i);
                proof {
                    assert forall|j: int| 0 <= j < self.handles@.len() implies #[trigger] self.handles@[j] == if j < i { before[j] } else { before[j + 1] } by {}
                    assert forall|k: Seq<char>| #![auto] self@.contains_key(k) <==> old(self)@.remove(job_id@).contains_key(k) by {
                        if k != job_id@ && old(self)@.contains_key(k) {
                            let c = choose|j: int| 0 <= j < before.len() && before[j].0@ == k;
                            if c < i {
                                assert(self.handles@[c].0@ == k);
                            } else {
                                assert(c != i);
                                assert(self.handles@[c - 1].0@ == k);
                            }
                        }
                        if self@.contains_key(k) {
                            let c = choose|j: int| 0 <= j < self.handles@.len() && self.handles@[j].0@ == k;
                            if c < i {
                                assert(before[c].0@ == k);
                            } else {
                                assert(before[c + 1].0@ == k);
                            }
                        }
                    }
                    assert forall|k: Seq<char>| #![auto] self@.contains_key(k) implies self@[k] == old(self)@[k] by {
                        let c = choose|j: int| 0 <= j < self.handles@.len() && self.handles@[j].0@ == k;
                        let c0 = choose|j: int| 0 <= j < before.len() && before[j].0@ == k;
                        if c < i {
                            assert(before[c].0@ == k);
                            assert(c0 == c);
                        } else {
                            assert(before[c + 1].0@ == k);
                            assert(c0 == c + 1);
                        }
                    }
                    assert(self@ =~= old(self)@.remove(job_id@));
                }
            },
            None => {
                proof {
                    assert(!old(self)@.contains_key(job_id@));
                    assert(self@ =~= old(self)@.remove(job_id@));
                }
            },
        }
    }

    /// Records the process id of a registered job (nothing happens for a job
    /// that is not registered).
    pub fn set_pid(&mut self, job_id: &str, pid: u32)
        requires
            old(self).wf(),
        ensures
            final(self).wf(),
            final(self)@ == if old(self)@.contains_key(job_id@) {
                old(self)@.insert(job_id@, DownloadHandle { pid: Some(pid), cancelled: old(self)@[job_id@].cancelled })
            } else {
                old(self)@
            },
    {
        match self.get(job_id) {
            Some(h) => {
                self.register(job_id, DownloadHandle { pid: Some(pid), cancelled: h.cancelled });
            },
            None => {},
        }
    }

    /// Marks a registered job as cancelled and gives the process to stop, if
    /// its id is known; an unknown job is left alone and gives none.
    pub fn cancel(&mut self, job_id: &str) -> (r: Option<u32>)
        requires
            old(self).wf(),
        ensures
            final(self).wf(),
            old(self)@.contains_key(job_id@) ==> {
                &&& final(self)@ == old(self)@.insert(job_id@, DownloadHandle { pid: old(self)@[job_id@].pid, cancelled: true })
                &&& r == old(self)@[job_id@].pid
            },
            !old(self)@.contains_key(job_id@) ==> final(self)@ == old(self)@ && r is None,
    {
        match self.get(job_id) {
            Some(h) => {
                self.register(job_id, DownloadHandle { pid: h.pid, cancelled: true });
                h.pid
            },
            None => None,
        }
    }

    /// Whether the user asked to cancel the job (false for an unknown job).
    pub fn is_cancelled(&self, job_id: &str) -> (r: bool)
        requires
            self.wf(),
        ensures
            r == (self@.contains_key(job_id@) && self@[job_id@].cancelled),
    {
        match self.get(job_id) {
            Some(h) => h.cancelled,
            None => false,
        }
    }
}

/// What the registry gives back of what was written: after `register`, `get`
/// gives the handle registered; other jobs are untouched; after `remove`, `get`
/// gives nothing for the job.
pub proof fn law_registry_read_after_write(m: Map<Seq<char>, DownloadHandle>, job: Seq<char>,
    other: Seq<char>, handle: DownloadHandle)
    ensures
        m.insert(job, handle).contains_key(job),
        m.insert(job, handle)[job] == handle,
        other != job ==> (m.insert(job, handle).contains_key(other) == m.contains_key(other)
            && (m.contains_key(other) ==> m.insert(job, handle)[other] == m[other])),
        !m.remove(job).contains_key(job),
        other != job ==> (m.remove(job).contains_key(other) == m.contains_key(other)),
{
}

/// Cancelling a registered job makes `is_cancelled` true for it and keeps its
/// process id; cancelling an unknown job leaves it unknown.
pub proof fn law_cancel_then_cancelled(m: Map<Seq<char>, DownloadHandle>, job: Seq<char>)
    ensures
        m.contains_key(job) ==> ({
            let after = m.insert(job, DownloadHandle { pid: m[job].pid, cancelled: true });
            after.contains_key(job) && after[job].cancelled && after[job].pid == m[job].pid
        }),
{
}

/// The site a URL belongs to, by the first marker found in this order.
pub open spec fn site_of(url: Seq<char>) -> Seq<char> {
    if contains(url, "youtube.com"@) || contains(url, "youtu.be"@) {
        "YouTube"@
    } else if contains(url, "tiktok.com"@) {
        "TikTok"@
    } else if contains(url, "twitter.com"@) || contains(url, "x.com"@) {
        "Twitter/X"@
    } else if contains(url, "instagram.com"@) {
        "Instagram"@
    } else if contains(url, "reddit.com"@) {
        "Reddit"@
    } else if contains(url, ".m3u8"@) {
        "HLS Stream"@
    } else if contains(url, ".mpd"@) {
        "DASH Stream"@
    } else {
        "Website"@
    }
}

fn has(v: &[char], lit: &str) -> (r: bool)
    ensures
        r == contains(v@, lit@),
{
    let l = chars_of(lit);
    contains_chars(v, &l)
}

fn ends(v: &[char], lit: &str) -> (r: bool)
    ensures
        r == ends_with(v@, lit@),
{
    let l = chars_of(lit);
    ends_with_chars(v, &l)
}

/// The site a URL belongs to (see [`site_of`]).
pub fn detect_site(url: &str) -> (r: String)
    ensures
        r@ == site_of(url@),
{
    let v = chars_of(url);
    if has(&v, "youtube.com") || has(&v, "youtu.be") {
        String::from_str("YouTube")
    } else if has(&v, "tiktok.com") {
        String::from_str("TikTok")
    } else if has(&v, "twitter.com") || has(&v, "x.com") {
        String::from_str("Twitter/X")
    } else if has(&v, "instagram.com") {
        String::from_str("Instagram")
    } else if has(&v, "reddit.com") {
        String::from_str("Reddit")
    } else if has(&v, ".m3u8") {
        String::from_str("HLS Stream")
    } else if has(&v, ".mpd") {
        String::from_str("DASH Stream")
    } else {
        String::from_str("Website")
    }
}

/// The kind of media behind a URL, by its markers and its ending.
pub open spec fn media_type_of(url: Seq<char>) -> MediaType {
    if contains(url, "youtube.com"@) || contains(url, "youtu.be"@) {
        MediaType::YouTube
    } else if contains(url, ".m3u8"@) {
        MediaType::HLS
    } else if contains(url, ".mpd"@) {
        MediaType::DASH
    } else if ends_with(url, ".mp4"@) || ends_with(url, ".webm"@) || ends_with(url, ".mkv"@) {
        MediaType::DirectVideo
    } else if ends_with(url, ".mp3"@) || ends_with(url, ".m4a"@) {
        MediaType::DirectAudio
    } else {
        MediaType::Unknown
    }
}

/// The kind of media behind a URL (see [`media_type_of`]).
pub fn detect_type(url: &str) -> (r: MediaType)
    ensures
        r == media_type_of(url@),
{
    let v = chars_of(url);
    if has(&v, "youtube.com") || has(&v, "youtu.be") {
        MediaType::YouTube
    } else if has(&v, ".m3u8") {
        MediaType::HLS
    } else if has(&v, ".mpd") {
        MediaType::DASH
    } else if ends(&v, ".mp4") || ends(&v, ".webm") || ends(&v, ".mkv") {
        MediaType::DirectVideo
    } else if ends(&v, ".mp3") || ends(&v, ".m4a") {
        MediaType::DirectAudio
    } else {
        MediaType::Unknown
    }
}

/// A text that ends with `suffix` has the suffix's last character last.
proof fn lemma_ends_with_last(url: Seq<char>, suffix: Seq<char>)
    requires
        ends_with(url, suffix),
        suffix.len() > 0,
    ensures
        url[url.len() - 1] == suffix[suffix.len() - 1],
{
    assert(url.skip(url.len() - suffix.len())[suffix.len() - 1] == url[url.len() - 1]);
}

/// A URL with no YouTube, `.m3u8` or `.mpd` marker is direct audio exactly
/// when it ends in `.mp3` or `.m4a`, and direct video exactly when it ends in
/// `.mp4`, `.webm` or `.mkv`.
pub proof fn law_direct_media_by_extension(url: Seq<char>)
    requires
        !contains(url, "youtube.com"@),
        !contains(url, "youtu.be"@),
        !contains(url, ".m3u8"@),
        !contains(url, ".mpd"@),
    ensures
        media_type_of(url) == MediaType::DirectAudio <==> (ends_with(url, ".mp3"@) || ends_with(url, ".m4a"@)),
        media_type_of(url) == MediaType::DirectVideo
            <==> (ends_with(url, ".mp4"@) || ends_with(url, ".webm"@) || ends_with(url, ".mkv"@)),
{
    reveal_strlit(".mp3");
    reveal_strlit(".m4a");
    reveal_strlit(".mp4");
    reveal_strlit(".webm");
    reveal_strlit(".mkv");
    if ends_with(url, ".mp3"@) {
        lemma_ends_with_last(url, ".mp3"@);
        if ends_with(url, ".mp4"@) { lemma_ends_with_last(url, ".mp4"@); }
        if ends_with(url, ".webm"@) { lemma_ends_with_last(url, ".webm"@); }
        if ends_with(url, ".mkv"@) { lemma_ends_with_last(url, ".mkv"@); }
    }
    if ends_with(url, ".m4a"@) {
        lemma_ends_with_last(url, ".m4a"@);
        if ends_with(url, ".mp4"@) { lemma_ends_with_last(url, ".mp4"@); }
        if ends_with(url, ".webm"@) { lemma_ends_with_last(url, ".webm"@); }
        if ends_with(url, ".mkv"@) { lemma_ends_with_last(url, ".mkv"@); }
    }
}

/// A URL that mentions YouTube is a YouTube URL; otherwise one that mentions
/// `.m3u8` is HLS, and otherwise one that mentions `.mpd` is DASH.
pub proof fn law_stream_markers(url: Seq<char>)
    ensures
        (contains(url, "youtube.com"@) || contains(url, "youtu.be"@)) ==> media_type_of(url) == MediaType::YouTube,
        !contains(url, "youtube.com"@) && !contains(url, "youtu.be"@) && contains(url, ".m3u8"@)
            ==> media_type_of(url) == MediaType::HLS,
        !contains(url, "youtube.com"@) && !contains(url, "youtu.be"@) && !contains(url, ".m3u8"@)
            && contains(url, ".mpd"@) ==> media_type_of(url) == MediaType::DASH,
{
}

} // verus!
