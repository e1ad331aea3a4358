//! DASH (MPEG-DASH) downloads: manifest parsing and the choice of what to
//! fetch. The application performs the fetches, writes the files and muxes.
pub mod parser;

use vstd::prelude::*;
use crate::text::{chars_of, dec_string, push_all, push_str, push_usize, string_of};
use crate::engine::dash::parser::{DashTrack, DashTrackSpec};

verus! {

/// What a DASH download fetches: the positions of the chosen video track and
/// audio track (if any) in their lists, and the line reporting the choice.
pub struct DashSelection {
    pub video: usize,
    pub audio: Option<usize>,
    pub summary: String,
}

/// A track described as "<label> (<bandwidth>bps, <n> segments)".
pub open spec fn track_summary(t: DashTrackSpec) -> Seq<char> {
    t.label + " ("@ + dec_string(t.bandwidth as nat) + "bps, "@ + dec_string(t.segment_urls.len()) + " segments)"@
}

/// The refusal of a DRM-protected stream.
pub open spec fn drm_refusal() -> Seq<char> {
    "DRM protected content \u{2014} cannot download. This stream uses Widevine/PlayReady/FairPlay encryption."@
}

/// Some track of the list is DRM-protected.
pub open spec fn any_drm(ts: Seq<DashTrackSpec>) -> bool {
    exists|i: int| 0 <= i < ts.len() && (#[trigger] ts[i]).is_drm
}

fn has_drm_track(ts: &Vec<DashTrack>) -> (r: bool)
    ensures
        r == any_drm(ts@.map_values(|t: DashTrack| t@)),
{
    let ghost tv = ts@.map_values(|t: DashTrack| t@);
    let mut i: usize = 0;
    while i < ts.len()
        invariant
            i <= ts@.len(),
            tv == ts@.map_values(|t: DashTrack| t@),
            forall|j: int| 0 <= j < i ==> !(#[trigger] tv[j]).is_drm,
        decreases ts@.len() - i,
    {
        if ts[i].is_drm {
            proof {
                assert(tv[i as int].is_drm);
            }
            return true;
        }
        i = i + 1;
    }
    false
}

fn describe(t: &DashTrack) -> (r: Vec<char>)
    ensures
        r@ == track_summary(t@),
{
    let mut v = chars_of(t.label.as_str());
    push_str(&mut v, " (");
    let bw = crate::text::u64_to_chars(t.bandwidth);
    push_all(&mut v, &bw);
    push_str(&mut v, "bps, ");
    push_usize(&mut v, t.segment_urls.len());
    push_str(&mut v, " segments)");
    v
}

/// Decides what a DASH download fetches, from the manifest's tracks (each list
/// sorted by ascending bandwidth): a live manifest, a DRM-protected track or
/// no video track refuse the download; otherwise the last (highest-bandwidth)
/// video track and the last audio track, if any, are chosen.
pub fn select_tracks(is_live: bool, video: &Vec<DashTrack>, audio: &Vec<DashTrack>) -> (r: Result<DashSelection, String>)
    ensures
        ({
            let vv = video@.map_values(|t: DashTrack| t@);
            let av = audio@.map_values(|t: DashTrack| t@);
            if is_live {
                r matches Err(e) && e@ == "Live DASH streams are not yet supported"@
            } else if any_drm(vv) || any_drm(av) {
                r matches Err(e) && e@ == drm_refusal()
            } else if vv.len() == 0 {
                r matches Err(e) && e@ == "No video tracks found in DASH manifest"@
            } else {
                r matches Ok(s) && {
                    &&& s.video == vv.len() - 1
                    &&& s.audio == if av.len() == 0 { None } else { Some((av.len() - 1) as usize) }
                    &&& s.summary@ == "DASH: Video="@ + track_summary(vv.last()) + ", Audio="@ + if av.len() == 0 {
                        "none"@
                    } else {
                        track_summary(av.last())
                    }
                }
            }
        }),
{
    if is_live {
        return Err(String::from_str("Live DASH streams are not yet supported"));
    }
    if has_drm_track(video) || has_drm_track(audio) {
        return Err(String::from_str("DRM protected content \u{2014} cannot download. This stream uses Widevine/PlayReady/FairPlay encryption."));
    }
    if video.len() == 0 {
        return Err(String::from_str("No video tracks found in DASH manifest"));
    }
    let vi = video.len() - 1;
    let mut line: Vec<char> = Vec::new();
    push_str(&mut line, "DASH: Video=");
    let vd = describe(&video[vi]);
    push_all(&mut line, &vd);
    push_str(&mut line, ", Audio=");
    let ai = if audio.len() == 0 {
        push_str(&mut line, "none");
        None
    } else {
        let a = audio.len() - 1;
        let ad = describe(&audio[a]);
        push_all(&mut line, &ad);
        Some(a)
    };
    Ok(DashSelection { video: vi, audio: ai, summary: string_of(&line) })
}

/// The files of a DASH download in `output_dir`: the video and audio parts and
/// the final MP4.
pub fn dash_paths(output_dir: &str, filename: &str) -> (r: (String, String, String))
    ensures
        r.0@ == output_dir@ + "/"@ + filename@ + "_video_temp.m4s"@,
        r.1@ == output_dir@ + "/"@ + filename@ + "_audio_temp.m4s"@,
        r.2@ == output_dir@ + "/"@ + filename@ + ".mp4"@,
{
    let mut v: Vec<char> = Vec::new();
    push_str(&mut v, output_dir);
    push_str(&mut v, "/");
    push_str(&mut v, filename);
    let mut a = v.clone();
    let mut m = v.clone();
    push_str(&mut v, "_video_temp.m4s");
    push_str(&mut a, "_audio_temp.m4s");
    push_str(&mut m, ".mp4");
    (string_of(&v), string_of(&a), string_of(&m))
}

/// The line announcing the download of `n` segments of a kind ("video" or
/// "audio").
pub fn segments_line(n: usize, kind: &str) -> (r: String)
    ensures
        r@ == "DASH: Downloading "@ + dec_string(n as nat) + " "@ + kind@ + " segments"@,
{
    let mut v: Vec<char> = Vec::new();
    push_str(&mut v, "DASH: Downloading ");
    push_usize(&mut v, n);
    push_str(&mut v, " ");
    push_str(&mut v, kind);
    push_str(&mut v, " segments");
    string_of(&v)
}

/// A way of turning the downloaded tracks into the output file.
#[derive(Debug, Clone, Copy, PartialEq, Eq, Structural)]
pub enum FinishStep {
    /// Mux the video and audio tracks into an MP4 file with ffmpeg.
    Mux,
    /// Remux the video track alone into an MP4 file with ffmpeg.
    Remux,
    /// Keep the video track as it is, renamed to `.m4s`.
    Rename,
}

/// The first way to try: muxing when an audio track was written and ffmpeg is
/// found, else remuxing the video when ffmpeg is found, else renaming.
pub fn first_finish_step(has_audio: bool, has_ffmpeg: bool) -> (r: FinishStep)
    ensures
        r == (if has_ffmpeg && has_audio { FinishStep::Mux } else if has_ffmpeg { FinishStep::Remux } else { FinishStep::Rename }),
{
    if has_ffmpeg && has_audio {
        FinishStep::Mux
    } else if has_ffmpeg {
        FinishStep::Remux
    } else {
        FinishStep::Rename
    }
}

/// The way to try after `failed` failed: after a mux, remuxing the video when
/// ffmpeg is found; otherwise renaming.
pub fn next_finish_step(failed: FinishStep, has_ffmpeg: bool) -> (r: FinishStep)
    ensures
        r == (if failed == FinishStep::Mux && has_ffmpeg { FinishStep::Remux } else { FinishStep::Rename }),
{
    match failed {
        FinishStep::Mux => if has_ffmpeg { FinishStep::Remux } else { FinishStep::Rename },
        _ => FinishStep::Rename,
    }
}

} // verus!
