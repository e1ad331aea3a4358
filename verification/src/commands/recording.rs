//! Screen recording: the recording state, frame conversion and file naming.
//! Capturing the screen and encoding the GIF are the application's.
use vstd::prelude::*;
use crate::text::{chars_of, dec_string, push_str, push_usize, string_of, u64_to_chars, push_all};

verus! {

/// One captured frame: RGBA pixels and the size.
pub struct RecordingFrame {
    pub rgba: Vec<u8>,
    pub width: u32,
    pub height: u32,
}

/// Where a recording stands.
#[derive(Debug, Clone, Copy, PartialEq, Eq, Structural)]
pub enum RecordingStatus {
    Idle,
    Recording,
    Stopping,
}

/// The recorder: its status, the frames captured, and the screen region
/// (x, y, width, height) captured.
pub struct RecordingState {
    pub status: RecordingStatus,
    pub frames: Vec<RecordingFrame>,
    pub capture_region: (i32, i32, u32, u32),
}

/// The recorder as the contracts see it.
pub struct RecordingView {
    pub status: RecordingStatus,
    pub frames: Seq<RecordingFrame>,
    pub capture_region: (i32, i32, u32, u32),
}

impl View for RecordingState {
    type V = RecordingView;

    open spec fn view(&self) -> RecordingView {
        RecordingView { status: self.status, frames: self.frames@, capture_region: self.capture_region }
    }
}

/// The recorder after `start(region)`: unchanged while recording, else
/// recording the region with no frames.
pub open spec fn after_start(v: RecordingView, region: (i32, i32, u32, u32)) -> RecordingView {
    if v.status == RecordingStatus::Recording {
        v
    } else {
        RecordingView { status: RecordingStatus::Recording, frames: Seq::empty(), capture_region: region }
    }
}

/// The recorder after `push_frame(frame)`.
pub open spec fn after_push(v: RecordingView, frame: RecordingFrame) -> RecordingView {
    RecordingView { frames: v.frames.push(frame), ..v }
}

/// The recorder after pushing `frames` one by one.
pub open spec fn after_pushes(v: RecordingView, frames: Seq<RecordingFrame>) -> RecordingView
    decreases frames.len(),
{
    if frames.len() == 0 {
        v
    } else {
        after_push(after_pushes(v, frames.drop_last()), frames.last())
    }
}

/// What `stop` hands out: the frames when recording and some were captured.
pub open spec fn stopped_frames(v: RecordingView) -> Option<Seq<RecordingFrame>> {
    if v.status == RecordingStatus::Recording && v.frames.len() > 0 {
        Some(v.frames)
    } else {
        None
    }
}

proof fn lemma_pushes_keep(v: RecordingView, frames: Seq<RecordingFrame>)
    ensures
        after_pushes(v, frames).status == v.status,
        after_pushes(v, frames).frames == v.frames + frames,
    decreases frames.len(),
{
    if frames.len() > 0 {
        lemma_pushes_keep(v, frames.drop_last());
        assert(v.frames + frames == (v.frames + frames.drop_last()).push(frames.last()));
    }
}

/// A recording gives back what was captured: after `start` on a recorder that
/// is not recording and frames pushed one by one, `stop` hands out exactly
/// those frames, in order (and refuses when there are none).
pub proof fn law_stop_gives_pushed_frames(v: RecordingView, region: (i32, i32, u32, u32),
    frames: Seq<RecordingFrame>)
    requires
        v.status != RecordingStatus::Recording,
    ensures
        stopped_frames(after_pushes(after_start(v, region), frames))
            == if frames.len() > 0 { Some(frames) } else { None::<Seq<RecordingFrame>> },
{
    lemma_pushes_keep(after_start(v, region), frames);
    assert(Seq::<RecordingFrame>::empty() + frames == frames);
}

impl RecordingState {
    /// Idle, no frames, a 400 by 300 region at the origin.
    pub fn new() -> (r: Self)
        ensures
            r.status == RecordingStatus::Idle,
            r.frames@.len() == 0,
            r.capture_region == (0i32, 0i32, 400u32, 300u32),
    {
        RecordingState { status: RecordingStatus::Idle, frames: Vec::new(), capture_region: (0, 0, 400, 300) }
    }

    /// Starts recording the region: refused while recording; otherwise the
    /// frames are cleared.
    pub fn start(&mut self, region: (i32, i32, u32, u32)) -> (r: Result<(), String>)
        ensures
            old(self).status == RecordingStatus::Recording ==> {
                &&& r matches Err(e) && e@ == "Already recording"@
                &&& *final(self) == *old(self)
            },
            final(self)@ == after_start(old(self)@, region),
            old(self).status != RecordingStatus::Recording ==> {
                &&& r is Ok
                &&& final(self).status == RecordingStatus::Recording
                &&& final(self).capture_region == region
                &&& final(self).frames@.len() == 0
            },
    {
        if self.status == RecordingStatus::Recording {
            return Err(String::from_str("Already recording"));
        }
        self.status = RecordingStatus::Recording;
        self.capture_region = region;
        self.frames = Vec::new();
        Ok(())
    }

    /// Whether the capture loop goes on.
    pub fn is_recording(&self) -> (r: bool)
        ensures
            r == (self.status == RecordingStatus::Recording),
    {
        self.status == RecordingStatus::Recording
    }

    /// Moves the captured region.
    pub fn update_region(&mut self, region: (i32, i32, u32, u32))
        ensures
            final(self).capture_region == region,
            final(self).status == old(self).status,
            final(self).frames == old(self).frames,
    {
        self.capture_region = region;
    }

    /// Adds a captured frame.
    pub fn push_frame(&mut self, frame: RecordingFrame)
        ensures
            final(self)@ == after_push(old(self)@, frame),
            final(self).frames@ == old(self).frames@.push(frame),
            final(self).status == old(self).status,
            final(self).capture_region == old(self).capture_region,
    {
        self.frames.push(frame);
    }

    /// Stops recording and hands out the frames: refused when not recording,
    /// and when no frame was captured (the recorder is then idle and empty).
    pub fn stop(&mut self) -> (r: Result<Vec<RecordingFrame>, String>)
        ensures
            match r {
                Ok(fs) => stopped_frames(old(self)@) == Some(fs@),
                Err(_) => stopped_frames(old(self)@) is None,
            },
            old(self).status != RecordingStatus::Recording ==> {
                &&& r matches Err(e) && e@ == "Not recording"@
                &&& *final(self) == *old(self)
            },
            old(self).status == RecordingStatus::Recording ==> {
                &&& final(self).status == RecordingStatus::Idle
                &&& final(self).frames@.len() == 0
                &&& final(self).capture_region == old(self).capture_region
                &&& match r {
                    Ok(fs) => fs@ == old(self).frames@ && fs@.len() > 0,
                    Err(e) => old(self).frames@.len() == 0 && e@ == "No frames captured"@,
                }
            },
    {
        if self.status != RecordingStatus::Recording {
            return Err(String::from_str("Not recording"));
        }
        self.status = RecordingStatus::Stopping;
        let mut frames: Vec<RecordingFrame> = Vec::new();
        std::mem::swap(&mut frames, &mut self.frames);
        self.status = RecordingStatus::Idle;
        if frames.len() == 0 {
            return Err(String::from_str("No frames captured"));
        }
        Ok(frames)
    }
}

/// RGB pixels from RGBA ones: the first three bytes of every four.
pub open spec fn rgb_of(rgba: Seq<u8>) -> Seq<u8> {
    Seq::new((rgba.len() / 4 * 3 + if rgba.len() % 4 == 3 { 3nat } else { 0nat }) as nat,
        |i: int| rgba[(i / 3) * 4 + i % 3])
}

proof fn lemma_third(k: int, p: int)
    requires
        p >= 0,
        3 * p <= k < 3 * p + 3,
    ensures
        k / 3 == p,
        k % 3 == k - 3 * p,
{
}

/// Drops the alpha byte of each pixel. A trailing group of fewer than four
/// bytes must hold at least three (the pixel is read up to its third byte).
pub fn rgba_to_rgb(rgba: &Vec<u8>) -> (r: Vec<u8>)
    requires
        rgba@.len() % 4 == 0 || rgba@.len() % 4 == 3,
    ensures
        r@ == rgb_of(rgba@),
{
    let n = rgba.len();
    let full = n / 4;
    let mut out: Vec<u8> = Vec::new();
    let mut p: usize = 0;
    while p < full
        invariant
            n == rgba@.len(),
            full == n / 4,
            p <= full,
            out@.len() == 3 * p,
            forall|k: int| 0 <= k < out@.len() ==> out@[k] == rgba@[(k / 3) * 4 + k % 3],
        decreases full - p,
    {
        let b = p * 4;
        out.push(rgba[b]);
        out.push(rgba[b + 1]);
        out.push(rgba[b + 2]);
        proof {
            assert forall|k: int| 0 <= k < out@.len() implies out@[k] == rgba@[(k / 3) * 4 + k % 3] by {
                if k >= 3 * p {
                    lemma_third(k, p as int);
                }
            }
        }
        p = p + 1;
    }
    if n % 4 == 3 {
        let b = full * 4;
        out.push(rgba[b]);
        out.push(rgba[b + 1]);
        out.push(rgba[b + 2]);
        proof {
            assert forall|k: int| 0 <= k < out@.len() implies out@[k] == rgba@[(k / 3) * 4 + k % 3] by {
                if k >= 3 * full {
                    lemma_third(k, full as int);
                }
            }
        }
    }
    proof {
        assert(out@ =~= rgb_of(rgba@));
    }
    out
}

/// The file name of a recording made at `secs` seconds after the Unix epoch.
pub fn recording_filename(secs: u64) -> (r: String)
    ensures
        r@ == "CyberSnatcher_Recording_"@ + dec_string(secs as nat) + ".gif"@,
{
    let mut v = chars_of("CyberSnatcher_Recording_");
    push_all(&mut v, &u64_to_chars(secs));
    push_str(&mut v, ".gif");
    string_of(&v)
}

} // verus!
