//! Native download engines: HLS and DASH manifest handling, direct files,
//! and the choice among them.
pub mod dash;
pub mod hls;
pub mod direct;

use vstd::prelude::*;
use crate::text::{chars_of, contains, contains_chars, push_str, string_of};
use crate::license::{spec_to_lowercase, to_lowercase};

verus! {

/// Which engine downloads a URL.
#[derive(Debug, Clone, PartialEq, Eq)]
pub enum Route {
    /// The HLS engine.
    Hls,
    /// yt-dlp (DASH manifests and everything unrecognised).
    UseYtdlp,
    /// A direct file download to `output_path`, for a URL naming the file
    /// extension `ext`.
    Direct { ext: String, output_path: String },
}

/// The file extensions downloaded directly, in the order they are checked.
pub open spec fn direct_exts() -> Seq<Seq<char>> {
    seq![".mp4"@, ".webm"@, ".mkv"@, ".avi"@, ".mov"@, ".flv"@, ".m4v"@, ".ts"@]
}

/// The first direct extension the lowercased URL mentions.
pub open spec fn first_direct_ext(lower: Seq<char>) -> Option<int> {
    if exists|i: int| 0 <= i < 8 && contains(lower, #[trigger] direct_exts()[i]) {
        Some(choose|i: int| 0 <= i < 8 && contains(lower, direct_exts()[i])
            && forall|j: int| 0 <= j < i ==> !contains(lower, #[trigger] direct_exts()[j]))
    } else {
        None
    }
}

/// How a URL is routed: `.m3u8` to HLS, `.mpd` to yt-dlp, a URL whose
/// lowercase form mentions a video file extension to a direct download at
/// `<dir>/<name><ext>`, anything else to yt-dlp.
pub open spec fn route_spec(url: Seq<char>, output_dir: Seq<char>, filename: Seq<char>) -> (int, Seq<char>, Seq<char>) {
    if contains(url, ".m3u8"@) {
        (0, Seq::empty(), Seq::empty())
    } else if contains(url, ".mpd"@) {
        (1, Seq::empty(), Seq::empty())
    } else {
        match first_direct_ext(spec_to_lowercase(url)) {
            Some(i) => (2, direct_exts()[i], output_dir + "/"@ + filename + direct_exts()[i]),
            None => (1, Seq::empty(), Seq::empty()),
        }
    }
}

/// Routes a URL to an engine (see [`route_spec`]).
pub fn download_url(url: &str, output_dir: &str, filename: &str) -> (r: Route)
    ensures
        match r {
            Route::Hls => route_spec(url@, output_dir@, filename@).0 == 0,
            Route::UseYtdlp => route_spec(url@, output_dir@, filename@).0 == 1,
            Route::Direct { ext, output_path } => route_spec(url@, output_dir@, filename@) == (2int, ext@, output_path@),
        },
{
    let v = chars_of(url);
    if contains_chars(&v, &chars_of(".m3u8")) {
        return Route::Hls;
    }
    if contains_chars(&v, &chars_of(".mpd")) {
        return Route::UseYtdlp;
    }
    let lower = chars_of(to_lowercase(url).as_str());
    let exts = [".mp4", ".webm", ".mkv", ".avi", ".mov", ".flv", ".m4v", ".ts"];
    let mut i: usize = 0;
    while i < 8
        invariant
            i <= 8,
            lower@ == spec_to_lowercase(url@),
            !contains(url@, ".m3u8"@),
            !contains(url@, ".mpd"@),
            exts@.map_values(|s: &'static str| s@) == direct_exts(),
            forall|j: int| 0 <= j < i ==> !contains(lower@, #[trigger] direct_exts()[j]),
        decreases 8 - i,
    {
        proof {
            assert(exts@.map_values(|s: &'static str| s@)[i as int] == exts@[i as int]@);
        }
        if contains_chars(&lower, &chars_of(exts[i])) {
            proof {
                let c = choose|c: int| 0 <= c < 8 && contains(lower@, direct_exts()[c])
                    && forall|j: int| 0 <= j < c ==> !contains(lower@, #[trigger] direct_exts()[j]);
                assert(c == i);
            }
            let mut p = chars_of(output_dir);
            push_str(&mut p, "/");
            push_str(&mut p, filename);
            push_str(&mut p, exts[i]);
            return Route::Direct { ext: string_of(&chars_of(exts[i])), output_path: string_of(&p) };
        }
        i = i + 1;
    }
    Route::UseYtdlp
}

/// The wait before retrying a failed segment download: 800 ms after the
/// first failure, 1600 ms after the second; the third failure is final.
pub fn segment_retry_delay_ms(attempt: u32) -> (r: Option<u64>)
    ensures
        r == if 1 <= attempt < 3 { Some((800 * attempt) as u64) } else { None::<u64> },
{
    if attempt >= 1 && attempt < 3 {
        Some(800 * attempt as u64)
    } else {
        None
    }
}

} // verus!
