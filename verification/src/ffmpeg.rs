//! ffmpeg command lines, conversion presets and the parsing of ffmpeg output.
use vstd::prelude::*;
use crate::platform::Platform;
use crate::text::{chars_eq, chars_of, dec_string, digit_char, find_from, first_occurrence_from, number_with_suffix,
    occurs_at, push_all, push_str, slice_chars, split, split_chars, string_of, trim, trim_chars};

verus! {

/// The bundled ffmpeg binary's file name on a platform.
pub open spec fn ffmpeg_binary_name_spec(p: Platform) -> Seq<char> {
    match p {
        Platform::Windows => "ffmpeg-x86_64-pc-windows-msvc.exe"@,
        Platform::MacArm => "ffmpeg-aarch64-apple-darwin"@,
        Platform::MacIntel => "ffmpeg-x86_64-apple-darwin"@,
        Platform::Linux => "ffmpeg-x86_64-unknown-linux-gnu"@,
    }
}

/// The bundled ffmpeg binary's file name on a platform.
pub fn ffmpeg_binary_name(p: Platform) -> (r: &'static str)
    ensures
        r@ == ffmpeg_binary_name_spec(p),
{
    match p {
        Platform::Windows => "ffmpeg-x86_64-pc-windows-msvc.exe",
        Platform::MacArm => "ffmpeg-aarch64-apple-darwin",
        Platform::MacIntel => "ffmpeg-x86_64-apple-darwin",
        Platform::Linux => "ffmpeg-x86_64-unknown-linux-gnu",
    }
}

/// A conversion the user can pick.
#[derive(Debug, Clone, Copy, PartialEq, Eq, Structural)]
pub enum ConversionPreset {
    ToMp4,
    ToMp4H264,
    ToMp4H265,
    ToMkv,
    ToWebm,
    ToMp3 { bitrate: u32 },
    ToM4a { bitrate: u32 },
    ToFlac,
    ToWav,
    Remux,
    Compress720p,
    Compress480p,
}

/// The strings of a list of literals.
pub open spec fn lits(v: Seq<&'static str>) -> Seq<Seq<char>> {
    v.map_values(|s: &'static str| s@)
}

/// The codec and container options of a preset.
pub open spec fn preset_options(p: ConversionPreset) -> Seq<Seq<char>> {
    match p {
        ConversionPreset::ToMp4 | ConversionPreset::Remux => seq!["-c"@, "copy"@, "-movflags"@, "+faststart"@],
        ConversionPreset::ToMkv => seq!["-c"@, "copy"@],
        ConversionPreset::ToMp4H264 => seq!["-c:v"@, "libx264"@, "-preset"@, "medium"@, "-crf"@, "23"@,
            "-c:a"@, "aac"@, "-b:a"@, "192k"@, "-movflags"@, "+faststart"@],
        ConversionPreset::ToMp4H265 => seq!["-c:v"@, "libx265"@, "-preset"@, "medium"@, "-crf"@, "28"@,
            "-c:a"@, "aac"@, "-b:a"@, "192k"@, "-movflags"@, "+faststart"@, "-tag:v"@, "hvc1"@],
        ConversionPreset::ToWebm => seq!["-c:v"@, "libvpx-vp9"@, "-crf"@, "30"@, "-b:v"@, "0"@,
            "-c:a"@, "libopus"@, "-b:a"@, "192k"@],
        ConversionPreset::ToMp3 { bitrate } => seq!["-vn"@, "-c:a"@, "libmp3lame"@, "-b:a"@,
            dec_string(bitrate as nat).push('k')],
        ConversionPreset::ToM4a { bitrate } => seq!["-vn"@, "-c:a"@, "aac"@, "-b:a"@,
            dec_string(bitrate as nat).push('k')],
        ConversionPreset::ToFlac => seq!["-vn"@, "-c:a"@, "flac"@],
        ConversionPreset::ToWav => seq!["-vn"@, "-c:a"@, "pcm_s16le"@],
        ConversionPreset::Compress720p => seq!["-c:v"@, "libx264"@, "-preset"@, "medium"@, "-crf"@, "23"@,
            "-vf"@, "scale=-2:720"@, "-c:a"@, "aac"@, "-b:a"@, "128k"@, "-movflags"@, "+faststart"@],
        ConversionPreset::Compress480p => seq!["-c:v"@, "libx264"@, "-preset"@, "medium"@, "-crf"@, "25"@,
            "-vf"@, "scale=-2:480"@, "-c:a"@, "aac"@, "-b:a"@, "96k"@, "-movflags"@, "+faststart"@],
    }
}

/// The ffmpeg arguments of a preset: the input, overwrite, the preset's
/// options, the output.
pub open spec fn ffmpeg_args_spec(p: ConversionPreset, input: Seq<char>, output: Seq<char>) -> Seq<Seq<char>> {
    seq!["-i"@, input, "-y"@] + preset_options(p) + seq![output]
}

/// Appends each literal as a `String`.
fn push_literals(args: &mut Vec<String>, lits_: &[&'static str])
    ensures
        final(args)@.map_values(|s: String| s@) == old(args)@.map_values(|s: String| s@) + lits(lits_@),
{
    let ghost start = args@.map_values(|s: String| s@);
    let mut i: usize = 0;
    while i < lits_.len()
        invariant
            i <= lits_@.len(),
            args@.map_values(|s: String| s@) == start + lits(lits_@.take(i as int)),
        decreases lits_@.len() - i,
    {
        let ghost before = args@.map_values(|s: String| s@);
        args.push(String::from_str(lits_[i]));
        proof {
            assert(args@.map_values(|s: String| s@) =~= before.push(lits_@[i as int]@));
            assert(lits(lits_@.take(i + 1)) =~= lits(lits_@.take(i as int)).push(lits_@[i as int]@));
        }
        i = i + 1;
    }
    proof {
        assert(lits_@.take(lits_@.len() as int) =~= lits_@);
    }
}

/// Appends one string.
fn push_string(args: &mut Vec<String>, s: String)
    ensures
        final(args)@.map_values(|t: String| t@) == old(args)@.map_values(|t: String| t@).push(s@),
{
    let ghost before = args@.map_values(|t: String| t@);
    let ghost sv = s@;
    args.push(s);
    proof {
        assert(args@.map_values(|t: String| t@) =~= before.push(sv));
    }
}

impl ConversionPreset {
    /// The ffmpeg arguments: the input, overwrite, the preset's options, the
    /// output.
    pub fn to_ffmpeg_args(&self, input: &str, output: &str) -> (r: Vec<String>)
        ensures
            r@.map_values(|s: String| s@) == ffmpeg_args_spec(*self, input@, output@),
    {
        let mut args: Vec<String> = Vec::new();
        push_string(&mut args, String::from_str("-i"));
        push_string(&mut args, string_of(&chars_of(input)));
        push_string(&mut args, String::from_str("-y"));
        let ghost head = args@.map_values(|s: String| s@);
        proof {
            assert(head =~= seq!["-i"@, input@, "-y"@]);
        }
        match self {
            ConversionPreset::ToMp4 | ConversionPreset::Remux => {
                push_literals(&mut args, &["-c", "copy", "-movflags", "+faststart"]);
            },
            ConversionPreset::ToMkv => {
                push_literals(&mut args, &["-c", "copy"]);
            },
            ConversionPreset::ToMp4H264 => {
                push_literals(&mut args, &["-c:v", "libx264", "-preset", "medium", "-crf", "23",
                    "-c:a", "aac", "-b:a", "192k", "-movflags", "+faststart"]);
            },
            ConversionPreset::ToMp4H265 => {
                push_literals(&mut args, &["-c:v", "libx265", "-preset", "medium", "-crf", "28",
                    "-c:a", "aac", "-b:a", "192k", "-movflags", "+faststart", "-tag:v", "hvc1"]);
            },
            ConversionPreset::ToWebm => {
                push_literals(&mut args, &["-c:v", "libvpx-vp9", "-crf", "30", "-b:v", "0",
                    "-c:a", "libopus", "-b:a", "192k"]);
            },
            ConversionPreset::ToMp3 { bitrate } => {
                push_literals(&mut args, &["-vn", "-c:a", "libmp3lame", "-b:a"]);
                push_string(&mut args, number_with_suffix(*bitrate as u64, 'k'));
            },
            ConversionPreset::ToM4a { bitrate } => {
                push_literals(&mut args, &["-vn", "-c:a", "aac", "-b:a"]);
                push_string(&mut args, number_with_suffix(*bitrate as u64, 'k'));
            },
            ConversionPreset::ToFlac => {
                push_literals(&mut args, &["-vn", "-c:a", "flac"]);
            },
            ConversionPreset::ToWav => {
                push_literals(&mut args, &["-vn", "-c:a", "pcm_s16le"]);
            },
            ConversionPreset::Compress720p => {
                push_literals(&mut args, &["-c:v", "libx264", "-preset", "medium", "-crf", "23",
                    "-vf", "scale=-2:720", "-c:a", "aac", "-b:a", "128k", "-movflags", "+faststart"]);
            },
            ConversionPreset::Compress480p => {
                push_literals(&mut args, &["-c:v", "libx264", "-preset", "medium", "-crf", "25",
                    "-vf", "scale=-2:480", "-c:a", "aac", "-b:a", "96k", "-movflags", "+faststart"]);
            },
        }
        proof {
            assert(args@.map_values(|s: String| s@) =~= head + preset_options(*self));
        }
        push_string(&mut args, string_of(&chars_of(output)));
        args
    }

    /// The extension of the converted file.
    pub open spec fn output_ext_spec(&self) -> Seq<char> {
        match *self {
            ConversionPreset::ToMp4 | ConversionPreset::ToMp4H264 | ConversionPreset::ToMp4H265
            | ConversionPreset::Remux | ConversionPreset::Compress720p | ConversionPreset::Compress480p => "mp4"@,
            ConversionPreset::ToMkv => "mkv"@,
            ConversionPreset::ToWebm => "webm"@,
            ConversionPreset::ToMp3 { .. } => "mp3"@,
            ConversionPreset::ToM4a { .. } => "m4a"@,
            ConversionPreset::ToFlac => "flac"@,
            ConversionPreset::ToWav => "wav"@,
        }
    }

    /// The extension of the converted file.
    pub fn output_ext(&self) -> (r: &'static str)
        ensures
            r@ == self.output_ext_spec(),
    {
        match self {
            ConversionPreset::ToMp4 | ConversionPreset::ToMp4H264 | ConversionPreset::ToMp4H265
            | ConversionPreset::Remux | ConversionPreset::Compress720p | ConversionPreset::Compress480p => "mp4",
            ConversionPreset::ToMkv => "mkv",
            ConversionPreset::ToWebm => "webm",
            ConversionPreset::ToMp3 { .. } => "mp3",
            ConversionPreset::ToM4a { .. } => "m4a",
            ConversionPreset::ToFlac => "flac",
            ConversionPreset::ToWav => "wav",
        }
    }

    /// The name shown for the preset.
    pub open spec fn label_spec(&self) -> Seq<char> {
        match *self {
            ConversionPreset::ToMp4 => "Remux to MP4"@,
            ConversionPreset::ToMp4H264 => "Convert to MP4 (H.264)"@,
            ConversionPreset::ToMp4H265 => "Convert to MP4 (H.265)"@,
            ConversionPreset::ToMkv => "Remux to MKV"@,
            ConversionPreset::ToWebm => "Convert to WebM"@,
            ConversionPreset::ToMp3 { .. } => "Extract MP3"@,
            ConversionPreset::ToM4a { .. } => "Extract M4A"@,
            ConversionPreset::ToFlac => "Extract FLAC"@,
            ConversionPreset::ToWav => "Extract WAV"@,
            ConversionPreset::Remux => "Remux (fix file)"@,
            ConversionPreset::Compress720p => "Compress to 720p"@,
            ConversionPreset::Compress480p => "Compress to 480p"@,
        }
    }

    /// The name shown for the preset.
    pub fn label(&self) -> (r: &'static str)
        ensures
            r@ == self.label_spec(),
    {
        match self {
            ConversionPreset::ToMp4 => "Remux to MP4",
            ConversionPreset::ToMp4H264 => "Convert to MP4 (H.264)",
            ConversionPreset::ToMp4H265 => "Convert to MP4 (H.265)",
            ConversionPreset::ToMkv => "Remux to MKV",
            ConversionPreset::ToWebm => "Convert to WebM",
            ConversionPreset::ToMp3 { .. } => "Extract MP3",
            ConversionPreset::ToM4a { .. } => "Extract M4A",
            ConversionPreset::ToFlac => "Extract FLAC",
            ConversionPreset::ToWav => "Extract WAV",
            ConversionPreset::Remux => "Remux (fix file)",
            ConversionPreset::Compress720p => "Compress to 720p",
            ConversionPreset::Compress480p => "Compress to 480p",
        }
    }
}

/// The full command line of a conversion: progress reporting on stdout, no
/// statistics, then the preset's arguments.
pub fn conversion_args(preset: &ConversionPreset, input: &str, output: &str) -> (r: Vec<String>)
    ensures
        r@.map_values(|s: String| s@) == seq!["-progress"@, "pipe:1"@, "-nostats"@]
            + seq!["-i"@, input@, "-y"@] + preset_options(*preset) + seq![output@],
{
    let mut args: Vec<String> = Vec::new();
    push_literals(&mut args, &["-progress", "pipe:1", "-nostats"]);
    let base = preset.to_ffmpeg_args(input, output);
    let ghost head = args@.map_values(|s: String| s@);
    let mut i: usize = 0;
    while i < base.len()
        invariant
            i <= base@.len(),
            args@.map_values(|s: String| s@) == head + base@.take(i as int).map_values(|s: String| s@),
        decreases base@.len() - i,
    {
        push_string(&mut args, string_of(&chars_of(base[i].as_str())));
        proof {
            assert(base@.take(i + 1).map_values(|s: String| s@) =~= base@.take(i as int).map_values(|s: String| s@).push(base@[i as int]@));
        }
        i = i + 1;
    }
    proof {
        assert(base@.take(base@.len() as int) =~= base@);
        assert(head =~= seq!["-progress"@, "pipe:1"@, "-nostats"@]);
    }
    args
}

/// The command line that muxes a video and an audio file into one MP4.
pub fn mux_args(video_path: &str, audio_path: &str, output_path: &str) -> (r: Vec<String>)
    ensures
        r@.map_values(|s: String| s@) == seq!["-i"@, video_path@, "-i"@, audio_path@, "-c"@, "copy"@,
            "-movflags"@, "+faststart"@, "-y"@, output_path@],
{
    let mut args: Vec<String> = Vec::new();
    push_string(&mut args, String::from_str("-i"));
    push_string(&mut args, string_of(&chars_of(video_path)));
    push_string(&mut args, String::from_str("-i"));
    push_string(&mut args, string_of(&chars_of(audio_path)));
    push_literals(&mut args, &["-c", "copy", "-movflags", "+faststart", "-y"]);
    push_string(&mut args, string_of(&chars_of(output_path)));
    proof {
        assert(args@.map_values(|s: String| s@) =~= seq!["-i"@, video_path@, "-i"@, audio_path@, "-c"@, "copy"@,
            "-movflags"@, "+faststart"@, "-y"@, output_path@]);
    }
    args
}

/// One line of ffmpeg's `-progress` output.
#[derive(Debug, Clone, PartialEq, Eq)]
pub enum ProgressLine {
    /// `out_time_us=<value>`: the microseconds written so far, as text.
    OutTimeUs(String),
    /// `progress=end`: the conversion finished.
    End,
    /// Anything else.
    Other,
}

/// What a progress line says: split at its first `=`, the trimmed key
/// `out_time_us` gives the trimmed value, the key `progress` with the value
/// `end` ends; every other line says nothing.
pub open spec fn progress_line_spec(line: Seq<char>) -> Option<Option<Seq<char>>> {
    match first_occurrence_from(line, seq!['='], 0) {
        Some(k) => {
            let key = trim(line.take(k));
            let value = trim(line.skip(k + 1));
            if key == "out_time_us"@ {
                Some(Some(value))
            } else if key == "progress"@ && value == "end"@ {
                Some(None)
            } else {
                None
            }
        },
        None => None,
    }
}

/// Reads a line of ffmpeg's progress output (see [`progress_line_spec`]:
/// `Some(Some(v))` is `OutTimeUs(v)`, `Some(None)` is `End`, `None` is
/// `Other`).
pub fn parse_progress_line(line: &str) -> (r: ProgressLine)
    ensures
        match r {
            ProgressLine::OutTimeUs(v) => progress_line_spec(line@) == Some(Some(v@)),
            ProgressLine::End => progress_line_spec(line@) == Some(None::<Seq<char>>),
            ProgressLine::Other => progress_line_spec(line@) is None,
        },
{
    let v = chars_of(line);
    let eq = ['='];
    proof {
        assert(eq@ =~= seq!['=']);
    }
    match find_from(&v, &eq, 0) {
        Some(k) => {
            let n = v.len();
            proof {
                assert(occurs_at(v@, eq@, k as int));
                assert(k + 1 <= n);
            }
            let key = trim_chars(&slice_chars(&v, 0, k));
            let value = trim_chars(&slice_chars(&v, k + 1, v.len()));
            proof {
                assert(v@.subrange(0, k as int) =~= line@.take(k as int));
                assert(v@.subrange(k + 1, v@.len() as int) =~= line@.skip(k + 1));
            }
            let out_key = chars_of("out_time_us");
            let progress_key = chars_of("progress");
            let end = chars_of("end");
            if chars_eq(&key, &out_key) {
                ProgressLine::OutTimeUs(string_of(&value))
            } else if chars_eq(&key, &progress_key) && chars_eq(&value, &end) {
                ProgressLine::End
            } else {
                ProgressLine::Other
            }
        },
        None => ProgressLine::Other,
    }
}

/// The hours, minutes and seconds texts of the first `Duration: h:m:s,` that
/// ffmpeg prints about its input: the text after `Duration: ` up to the next
/// comma, which must have exactly three `:`-separated parts.
pub open spec fn duration_fields_spec(out: Seq<char>) -> Option<(Seq<char>, Seq<char>, Seq<char>)> {
    match first_occurrence_from(out, "Duration: "@, 0) {
        Some(p) => {
            let rest = out.skip(p + 10);
            match first_occurrence_from(rest, seq![','], 0) {
                Some(c) => {
                    let parts = split(rest.take(c), seq![':']);
                    if parts.len() == 3 {
                        Some((parts[0], parts[1], parts[2]))
                    } else {
                        None
                    }
                },
                None => None,
            }
        },
        None => None,
    }
}

/// Finds the duration fields in ffmpeg's report on its input (see
/// [`duration_fields_spec`]); the application reads them as numbers.
pub fn duration_fields(out: &str) -> (r: Option<(String, String, String)>)
    ensures
        match r {
            Some((h, m, s)) => duration_fields_spec(out@) == Some((h@, m@, s@)),
            None => duration_fields_spec(out@) is None,
        },
{
    proof {
        reveal_strlit("Duration: ");
    }
    let v = chars_of(out);
    let label = chars_of("Duration: ");
    match find_from(&v, &label, 0) {
        None => None,
        Some(p) => {
            let n = v.len();
            proof {
                assert(label@.len() == 10);
                assert(occurs_at(v@, label@, p as int));
                assert(p + 10 <= n);
            }
            let rest = slice_chars(&v, p + 10, v.len());
            proof {
                assert(rest@ =~= out@.skip(p + 10));
            }
            let comma = [','];
            proof {
                assert(comma@ =~= seq![',']);
            }
            match find_from(&rest, &comma, 0) {
                None => None,
                Some(c) => {
                    let time = slice_chars(&rest, 0, c);
                    proof {
                        assert(time@ =~= rest@.take(c as int));
                    }
                    let colon = [':'];
                    proof {
                        assert(colon@ =~= seq![':']);
                    }
                    let parts = split_chars(&time, &colon);
                    if parts.len() == 3 {
                        Some((string_of(&parts[0]), string_of(&parts[1]), string_of(&parts[2])))
                    } else {
                        None
                    }
                },
            }
        },
    }
}

/// The error of a failed mux: "ffmpeg mux failed: " and the first 200
/// characters of ffmpeg's error output.
pub fn mux_failure(stderr: &str) -> (r: String)
    ensures
        r@ == "ffmpeg mux failed: "@ + if stderr@.len() <= 200 { stderr@ } else { stderr@.take(200) },
{
    let v = chars_of(stderr);
    let n = if v.len() <= 200 { v.len() } else { 200 };
    let head = slice_chars(&v, 0, n);
    let mut r: Vec<char> = Vec::new();
    push_str(&mut r, "ffmpeg mux failed: ");
    push_all(&mut r, &head);
    proof {
        if stderr@.len() <= 200 {
            assert(head@ =~= stderr@);
        } else {
            assert(head@ =~= stderr@.take(200));
        }
    }
    string_of(&r)
}

/// The extensions of the presets that keep only the audio.
pub open spec fn is_audio_ext(e: Seq<char>) -> bool {
    e == "mp3"@ || e == "m4a"@ || e == "flac"@ || e == "wav"@
}

/// The position of a preset's variant in the list of presets; the bitrate of
/// the audio presets plays no part.
pub open spec fn variant_index(p: ConversionPreset) -> nat {
    match p {
        ConversionPreset::ToMp4 => 0,
        ConversionPreset::ToMp4H264 => 1,
        ConversionPreset::ToMp4H265 => 2,
        ConversionPreset::ToMkv => 3,
        ConversionPreset::ToWebm => 4,
        ConversionPreset::ToMp3 { .. } => 5,
        ConversionPreset::ToM4a { .. } => 6,
        ConversionPreset::ToFlac => 7,
        ConversionPreset::ToWav => 8,
        ConversionPreset::Remux => 9,
        ConversionPreset::Compress720p => 10,
        ConversionPreset::Compress480p => 11,
    }
}

/// Whether `-vn` and `+faststart` occur among the first sixteen items of a
/// list: each occurrence is at one of those positions.
proof fn lemma_markers_by_index(o: Seq<Seq<char>>)
    requires
        o.len() <= 16,
    ensures
        o.contains("-vn"@) ==> exists|k: int| 0 <= k < 16 && k < o.len() && o[k] == "-vn"@ && (k == 0 || k == 1
            || k == 2 || k == 3 || k == 4 || k == 5 || k == 6 || k == 7 || k == 8 || k == 9 || k == 10 || k == 11
            || k == 12 || k == 13 || k == 14 || k == 15),
        o.contains("+faststart"@) ==> exists|k: int| 0 <= k < 16 && k < o.len() && o[k] == "+faststart"@ && (k == 0
            || k == 1 || k == 2 || k == 3 || k == 4 || k == 5 || k == 6 || k == 7 || k == 8 || k == 9 || k == 10
            || k == 11 || k == 12 || k == 13 || k == 14 || k == 15),
{
}

/// The last character of a bitrate option is `k`.
proof fn lemma_bitrate_option_ends_in_k(b: u32)
    ensures
        dec_string(b as nat).push('k').last() == 'k',
        dec_string(b as nat).push('k').len() >= 2,
{
    let d = dec_string(b as nat);
    assert(d.len() >= 1) by {
        if (b as nat) < 10 {
        } else {
            assert(d == dec_string((b as nat) / 10).push(digit_char((b as nat) % 10)));
        }
    }
}

/// The audio extensions are the only audio extensions, and none of the
/// extensions but `mp4` is `mp4`.
proof fn lemma_ext_names()
    ensures
        !is_audio_ext("mp4"@),
        !is_audio_ext("mkv"@),
        !is_audio_ext("webm"@),
        "mkv"@ != "mp4"@,
        "webm"@ != "mp4"@,
        "mp3"@ != "mp4"@,
        "m4a"@ != "mp4"@,
        "flac"@ != "mp4"@,
        "wav"@ != "mp4"@,
{
    reveal_strlit("mp4");
    reveal_strlit("mkv");
    reveal_strlit("webm");
    reveal_strlit("mp3");
    reveal_strlit("m4a");
    reveal_strlit("flac");
    reveal_strlit("wav");
    assert("mp4"@[2] != "mp3"@[2]);
    assert("mp4"@[1] != "m4a"@[1]);
    assert("mp4"@.len() != "flac"@.len());
    assert("mp4"@[0] != "wav"@[0]);
    assert("mkv"@[1] != "mp3"@[1]);
    assert("mkv"@[1] != "m4a"@[1]);
    assert("mkv"@.len() != "flac"@.len());
    assert("mkv"@[0] != "wav"@[0]);
    assert("webm"@.len() != "mp3"@.len());
    assert("webm"@.len() != "m4a"@.len());
    assert("webm"@[0] != "flac"@[0]);
    assert("webm"@.len() != "wav"@.len());
    assert("mkv"@[1] != "mp4"@[1]);
    assert("webm"@.len() != "mp4"@.len());
    assert("m4a"@[1] != "mp4"@[1]);
    assert("flac"@.len() != "mp4"@.len());
    assert("wav"@[0] != "mp4"@[0]);
}

/// The flags around the input and the two markers are different strings.
proof fn lemma_flag_names()
    ensures
        "-vn"@ != "-i"@,
        "-vn"@ != "-y"@,
        "+faststart"@ != "-i"@,
        "+faststart"@ != "-y"@,
{
    reveal_strlit("-vn");
    reveal_strlit("-i");
    reveal_strlit("-y");
    reveal_strlit("+faststart");
    assert("-vn"@.len() != "-i"@.len());
    assert("-vn"@.len() != "-y"@.len());
    assert("+faststart"@.len() != "-i"@.len());
    assert("+faststart"@.len() != "-y"@.len());
}

/// `-vn` occurs among a preset's options exactly when it writes an audio
/// file, and `+faststart` exactly when it writes an MP4 file. Each option is
/// told apart from the two markers by its length or by one character.
proof fn lemma_options_markers(p: ConversionPreset)
    ensures
        preset_options(p).contains("-vn"@) <==> is_audio_ext(p.output_ext_spec()),
        preset_options(p).contains("+faststart"@) <==> p.output_ext_spec() == "mp4"@,
{
    reveal_strlit("-vn");
    reveal_strlit("+faststart");
    reveal_strlit("mp4");
    reveal_strlit("mkv");
    reveal_strlit("webm");
    reveal_strlit("mp3");
    reveal_strlit("m4a");
    reveal_strlit("flac");
    reveal_strlit("wav");
    lemma_ext_names();
    let o = preset_options(p);
    let vn = "-vn"@;
    let fs = "+faststart"@;
    match p {
        ConversionPreset::ToMp4 => {
            reveal_strlit("+faststart");
            reveal_strlit("-c");
            reveal_strlit("-movflags");
            reveal_strlit("copy");
            lemma_markers_by_index(o);
            assert(o[0].len() != vn.len());
            assert(o[0].len() != fs.len());
            assert(o[1].len() != vn.len());
            assert(o[1].len() != fs.len());
            assert(o[2].len() != vn.len());
            assert(o[2].len() != fs.len());
            assert(o[3].len() != vn.len());
            assert(o[3] == fs);
        },
        ConversionPreset::Remux => {
            reveal_strlit("+faststart");
            reveal_strlit("-c");
            reveal_strlit("-movflags");
            reveal_strlit("copy");
            lemma_markers_by_index(o);
            assert(o[0].len() != vn.len());
            assert(o[0].len() != fs.len());
            assert(o[1].len() != vn.len());
            assert(o[1].len() != fs.len());
            assert(o[2].len() != vn.len());
            assert(o[2].len() != fs.len());
            assert(o[3].len() != vn.len());
            assert(o[3] == fs);
        },
        ConversionPreset::ToMkv => {
            reveal_strlit("-c");
            reveal_strlit("copy");
            lemma_markers_by_index(o);
            assert(o[0].len() != vn.len());
            assert(o[0].len() != fs.len());
            assert(o[1].len() != vn.len());
            assert(o[1].len() != fs.len());
        },
        ConversionPreset::ToMp4H264 => {
            reveal_strlit("+faststart");
            reveal_strlit("-b:a");
            reveal_strlit("-c:a");
            reveal_strlit("-c:v");
            reveal_strlit("-crf");
            reveal_strlit("-movflags");
            reveal_strlit("-preset");
            reveal_strlit("192k");
            reveal_strlit("23");
            reveal_strlit("aac");
            reveal_strlit("libx264");
            reveal_strlit("medium");
            lemma_markers_by_index(o);
            assert(o[0].len() != vn.len());
            assert(o[0].len() != fs.len());
            assert(o[1].len() != vn.len());
            assert(o[1].len() != fs.len());
            assert(o[2].len() != vn.len());
            assert(o[2].len() != fs.len());
            assert(o[3].len() != vn.len());
            assert(o[3].len() != fs.len());
            assert(o[4].len() != vn.len());
            assert(o[4].len() != fs.len());
            assert(o[5].len() != vn.len());
            assert(o[5].len() != fs.len());
            assert(o[6].len() != vn.len());
            assert(o[6].len() != fs.len());
            assert(o[7][0] != vn[0]);
            assert(o[7].len() != fs.len());
            assert(o[8].len() != vn.len());
            assert(o[8].len() != fs.len());
            assert(o[9].len() != vn.len());
            assert(o[9].len() != fs.len());
            assert(o[10].len() != vn.len());
            assert(o[10].len() != fs.len());
            assert(o[11].len() != vn.len());
            assert(o[11] == fs);
        },
        ConversionPreset::ToMp4H265 => {
            reveal_strlit("+faststart");
            reveal_strlit("-b:a");
            reveal_strlit("-c:a");
            reveal_strlit("-c:v");
            reveal_strlit("-crf");
            reveal_strlit("-movflags");
            reveal_strlit("-preset");
            reveal_strlit("-tag:v");
            reveal_strlit("192k");
            reveal_strlit("28");
            reveal_strlit("aac");
            reveal_strlit("hvc1");
            reveal_strlit("libx265");
            reveal_strlit("medium");
            lemma_markers_by_index(o);
            assert(o[0].len() != vn.len());
            assert(o[0].len() != fs.len());
            assert(o[1].len() != vn.len());
            assert(o[1].len() != fs.len());
            assert(o[2].len() != vn.len());
            assert(o[2].len() != fs.len());
            assert(o[3].len() != vn.len());
            assert(o[3].len() != fs.len());
            assert(o[4].len() != vn.len());
            assert(o[4].len() != fs.len());
            assert(o[5].len() != vn.len());
            assert(o[5].len() != fs.len());
            assert(o[6].len() != vn.len());
            assert(o[6].len() != fs.len());
            assert(o[7][0] != vn[0]);
            assert(o[7].len() != fs.len());
            assert(o[8].len() != vn.len());
            assert(o[8].len() != fs.len());
            assert(o[9].len() != vn.len());
            assert(o[9].len() != fs.len());
            assert(o[10].len() != vn.len());
            assert(o[10].len() != fs.len());
            assert(o[11].len() != vn.len());
            assert(o[11] == fs);
            assert(o[12].len() != vn.len());
            assert(o[12].len() != fs.len());
            assert(o[13].len() != vn.len());
            assert(o[13].len() != fs.len());
        },
        ConversionPreset::ToWebm => {
            reveal_strlit("-b:a");
            reveal_strlit("-b:v");
            reveal_strlit("-c:a");
            reveal_strlit("-c:v");
            reveal_strlit("-crf");
            reveal_strlit("0");
            reveal_strlit("192k");
            reveal_strlit("30");
            reveal_strlit("libopus");
            reveal_strlit("libvpx-vp9");
            lemma_markers_by_index(o);
            assert(o[0].len() != vn.len());
            assert(o[0].len() != fs.len());
            assert(o[1].len() != vn.len());
            assert(o[1][0] != fs[0]);
            assert(o[2].len() != vn.len());
            assert(o[2].len() != fs.len());
            assert(o[3].len() != vn.len());
            assert(o[3].len() != fs.len());
            assert(o[4].len() != vn.len());
            assert(o[4].len() != fs.len());
            assert(o[5].len() != vn.len());
            assert(o[5].len() != fs.len());
            assert(o[6].len() != vn.len());
            assert(o[6].len() != fs.len());
            assert(o[7].len() != vn.len());
            assert(o[7].len() != fs.len());
            assert(o[8].len() != vn.len());
            assert(o[8].len() != fs.len());
            assert(o[9].len() != vn.len());
            assert(o[9].len() != fs.len());
        },
        ConversionPreset::ToMp3 { bitrate } => {
            reveal_strlit("-b:a");
            reveal_strlit("-c:a");
            reveal_strlit("-vn");
            reveal_strlit("libmp3lame");
            lemma_bitrate_option_ends_in_k(bitrate);
            lemma_markers_by_index(o);
            assert(o[0] == vn);
            assert(o[0].len() != fs.len());
            assert(o[1].len() != vn.len());
            assert(o[1].len() != fs.len());
            assert(o[2].len() != vn.len());
            assert(o[2][0] != fs[0]);
            assert(o[3].len() != vn.len());
            assert(o[3].len() != fs.len());
            assert(o[4][o[4].len() - 1] != vn[2]);
            assert(o[4][o[4].len() - 1] != fs[9]);
        },
        ConversionPreset::ToM4a { bitrate } => {
            reveal_strlit("-b:a");
            reveal_strlit("-c:a");
            reveal_strlit("-vn");
            reveal_strlit("aac");
            lemma_bitrate_option_ends_in_k(bitrate);
            lemma_markers_by_index(o);
            assert(o[0] == vn);
            assert(o[0].len() != fs.len());
            assert(o[1].len() != vn.len());
            assert(o[1].len() != fs.len());
            assert(o[2][0] != vn[0]);
            assert(o[2].len() != fs.len());
            assert(o[3].len() != vn.len());
            assert(o[3].len() != fs.len());
            assert(o[4][o[4].len() - 1] != vn[2]);
            assert(o[4][o[4].len() - 1] != fs[9]);
        },
        ConversionPreset::ToFlac => {
            reveal_strlit("-c:a");
            reveal_strlit("-vn");
            reveal_strlit("flac");
            lemma_markers_by_index(o);
            assert(o[0] == vn);
            assert(o[0].len() != fs.len());
            assert(o[1].len() != vn.len());
            assert(o[1].len() != fs.len());
            assert(o[2].len() != vn.len());
            assert(o[2].len() != fs.len());
        },
        ConversionPreset::ToWav => {
            reveal_strlit("-c:a");
            reveal_strlit("-vn");
            reveal_strlit("pcm_s16le");
            lemma_markers_by_index(o);
            assert(o[0] == vn);
            assert(o[0].len() != fs.len());
            assert(o[1].len() != vn.len());
            assert(o[1].len() != fs.len());
            assert(o[2].len() != vn.len());
            assert(o[2].len() != fs.len());
        },
        ConversionPreset::Compress720p => {
            reveal_strlit("+faststart");
            reveal_strlit("-b:a");
            reveal_strlit("-c:a");
            reveal_strlit("-c:v");
            reveal_strlit("-crf");
            reveal_strlit("-movflags");
            reveal_strlit("-preset");
            reveal_strlit("-vf");
            reveal_strlit("128k");
            reveal_strlit("23");
            reveal_strlit("aac");
            reveal_strlit("libx264");
            reveal_strlit("medium");
            reveal_strlit("scale=-2:720");
            lemma_markers_by_index(o);
            assert(o[0].len() != vn.len());
            assert(o[0].len() != fs.len());
            assert(o[1].len() != vn.len());
            assert(o[1].len() != fs.len());
            assert(o[2].len() != vn.len());
            assert(o[2].len() != fs.len());
            assert(o[3].len() != vn.len());
            assert(o[3].len() != fs.len());
            assert(o[4].len() != vn.len());
            assert(o[4].len() != fs.len());
            assert(o[5].len() != vn.len());
            assert(o[5].len() != fs.len());
            assert(o[6][2] != vn[2]);
            assert(o[6].len() != fs.len());
            assert(o[7].len() != vn.len());
            assert(o[7].len() != fs.len());
            assert(o[8].len() != vn.len());
            assert(o[8].len() != fs.len());
            assert(o[9][0] != vn[0]);
            assert(o[9].len() != fs.len());
            assert(o[10].len() != vn.len());
            assert(o[10].len() != fs.len());
            assert(o[11].len() != vn.len());
            assert(o[11].len() != fs.len());
            assert(o[12].len() != vn.len());
            assert(o[12].len() != fs.len());
            assert(o[13].len() != vn.len());
            assert(o[13] == fs);
        },
        ConversionPreset::Compress480p => {
            reveal_strlit("+faststart");
            reveal_strlit("-b:a");
            reveal_strlit("-c:a");
            reveal_strlit("-c:v");
            reveal_strlit("-crf");
            reveal_strlit("-movflags");
            reveal_strlit("-preset");
            reveal_strlit("-vf");
            reveal_strlit("25");
            reveal_strlit("96k");
            reveal_strlit("aac");
            reveal_strlit("libx264");
            reveal_strlit("medium");
            reveal_strlit("scale=-2:480");
            lemma_markers_by_index(o);
            assert(o[0].len() != vn.len());
            assert(o[0].len() != fs.len());
            assert(o[1].len() != vn.len());
            assert(o[1].len() != fs.len());
            assert(o[2].len() != vn.len());
            assert(o[2].len() != fs.len());
            assert(o[3].len() != vn.len());
            assert(o[3].len() != fs.len());
            assert(o[4].len() != vn.len());
            assert(o[4].len() != fs.len());
            assert(o[5].len() != vn.len());
            assert(o[5].len() != fs.len());
            assert(o[6][2] != vn[2]);
            assert(o[6].len() != fs.len());
            assert(o[7].len() != vn.len());
            assert(o[7].len() != fs.len());
            assert(o[8].len() != vn.len());
            assert(o[8].len() != fs.len());
            assert(o[9][0] != vn[0]);
            assert(o[9].len() != fs.len());
            assert(o[10].len() != vn.len());
            assert(o[10].len() != fs.len());
            assert(o[11][0] != vn[0]);
            assert(o[11].len() != fs.len());
            assert(o[12].len() != vn.len());
            assert(o[12].len() != fs.len());
            assert(o[13].len() != vn.len());
            assert(o[13] == fs);
        },
    }
}

/// The arguments that `to_ffmpeg_args` gives for every preset start with the
/// input and the overwrite flag and end with the output; `-vn` (drop the video) occurs exactly for the presets
/// that write an audio file, and `+faststart` exactly for those that write an
/// MP4 file.
pub proof fn law_preset_args_shape(p: ConversionPreset, input: Seq<char>, output: Seq<char>)
    requires
        input != "-vn"@,
        input != "+faststart"@,
        output != "-vn"@,
        output != "+faststart"@,
    ensures
        ({
            let r = ffmpeg_args_spec(p, input, output);
            &&& r.take(3) == seq!["-i"@, input, "-y"@]
            &&& r.last() == output
            &&& (r.contains("-vn"@) <==> is_audio_ext(p.output_ext_spec()))
            &&& (r.contains("+faststart"@) <==> p.output_ext_spec() == "mp4"@)
        }),
{
    reveal_strlit("-i");
    reveal_strlit("-y");
    reveal_strlit("-vn");
    reveal_strlit("+faststart");
    lemma_options_markers(p);
    lemma_flag_names();
    let head = seq!["-i"@, input, "-y"@];
    let o = preset_options(p);
    let r = head + o + seq![output];
    assert(r.take(3) =~= head);
    assert(r.last() == output);
    lemma_framed_contains(input, o, output, "-vn"@);
    lemma_framed_contains(input, o, output, "+faststart"@);
}

/// An item other than the input, the output and the two flags around the input
/// occurs in the argument list exactly when it occurs among the options.
proof fn lemma_framed_contains(input: Seq<char>, o: Seq<Seq<char>>, output: Seq<char>, x: Seq<char>)
    requires
        x != "-i"@,
        x != "-y"@,
        x != input,
        x != output,
    ensures
        (seq!["-i"@, input, "-y"@] + o + seq![output]).contains(x) <==> o.contains(x),
{
    let head = seq!["-i"@, input, "-y"@];
    let r = head + o + seq![output];
    if r.contains(x) {
        let k = choose|k: int| 0 <= k < r.len() && r[k] == x;
        if k < 3 {
            assert(r[k] == head[k]);
        } else if k == r.len() - 1 {
            assert(r[k] == output);
        } else {
            assert(r[k] == o[k - 3]);
        }
    }
    if o.contains(x) {
        let k = choose|k: int| 0 <= k < o.len() && o[k] == x;
        assert(r[k + 3] == o[k]);
    }
}

/// A key of a label: its length and its second and third characters from the
/// end.
pub open spec fn label_key(l: Seq<char>) -> (nat, char, char) {
    (l.len(), l[l.len() - 2], l[l.len() - 3])
}

/// The label key of each kind of preset.
pub open spec fn label_key_of_variant(i: nat) -> (nat, char, char) {
    if i == 0 { (12, 'P', 'M') }
    else if i == 1 { (22, '4', '6') }
    else if i == 2 { (22, '5', '6') }
    else if i == 3 { (12, 'K', 'M') }
    else if i == 4 { (15, 'b', 'e') }
    else if i == 5 { (11, 'P', 'M') }
    else if i == 6 { (11, '4', 'M') }
    else if i == 7 { (12, 'A', 'L') }
    else if i == 8 { (11, 'A', 'W') }
    else if i == 9 { (16, 'e', 'l') }
    else if i == 10 { (16, '0', '2') }
    else { (16, '0', '8') }
}

/// A preset's label has the key of its kind; an audio preset's label begins
/// with "Extract " and no other does.
proof fn lemma_label_facts(p: ConversionPreset)
    ensures
        label_key(p.label_spec()) == label_key_of_variant(variant_index(p)),
        "Extract "@.is_prefix_of(p.label_spec()) <==> is_audio_ext(p.output_ext_spec()),
{
    reveal_strlit("Extract ");
    reveal_strlit("mp3");
    reveal_strlit("m4a");
    reveal_strlit("flac");
    reveal_strlit("wav");
    reveal_strlit("mp4");
    reveal_strlit("mkv");
    reveal_strlit("webm");
    lemma_ext_names();
    let x = "Extract "@;
    let l = p.label_spec();
    if l.len() >= 8 {
        assert(l.subrange(0, 8)[0] == l[0]);
    }
    match p {
        ConversionPreset::ToMp4 => { reveal_strlit("Remux to MP4"); assert(l[0] != x[0]); },
        ConversionPreset::ToMp4H264 => { reveal_strlit("Convert to MP4 (H.264)"); assert(l[0] != x[0]); },
        ConversionPreset::ToMp4H265 => { reveal_strlit("Convert to MP4 (H.265)"); assert(l[0] != x[0]); },
        ConversionPreset::ToMkv => { reveal_strlit("Remux to MKV"); assert(l[0] != x[0]); },
        ConversionPreset::ToWebm => { reveal_strlit("Convert to WebM"); assert(l[0] != x[0]); },
        ConversionPreset::ToMp3 { .. } => { reveal_strlit("Extract MP3"); assert(x =~= l.subrange(0, 8)); },
        ConversionPreset::ToM4a { .. } => { reveal_strlit("Extract M4A"); assert(x =~= l.subrange(0, 8)); },
        ConversionPreset::ToFlac => { reveal_strlit("Extract FLAC"); assert(x =~= l.subrange(0, 8)); },
        ConversionPreset::ToWav => { reveal_strlit("Extract WAV"); assert(x =~= l.subrange(0, 8)); },
        ConversionPreset::Remux => { reveal_strlit("Remux (fix file)"); assert(l[0] != x[0]); },
        ConversionPreset::Compress720p => { reveal_strlit("Compress to 720p"); assert(l[0] != x[0]); },
        ConversionPreset::Compress480p => { reveal_strlit("Compress to 480p"); assert(l[0] != x[0]); },
    }
}

/// A preset's label begins with "Extract " exactly when it writes an audio
/// file; the bitrate changes neither the label nor the extension.
pub proof fn law_preset_label_and_ext(p: ConversionPreset, a: u32, b: u32)
    ensures
        "Extract "@.is_prefix_of(p.label_spec()) <==> is_audio_ext(p.output_ext_spec()),
        (ConversionPreset::ToMp3 { bitrate: a }).label_spec() == (ConversionPreset::ToMp3 { bitrate: b }).label_spec(),
        (ConversionPreset::ToMp3 { bitrate: a }).output_ext_spec() == "mp3"@,
        (ConversionPreset::ToM4a { bitrate: a }).label_spec() == (ConversionPreset::ToM4a { bitrate: b }).label_spec(),
        (ConversionPreset::ToM4a { bitrate: a }).output_ext_spec() == "m4a"@,
{
    lemma_label_facts(p);
}

/// Presets of different kinds have different labels; presets of one kind
/// have one label.
pub proof fn law_preset_labels_distinct(p: ConversionPreset, q: ConversionPreset)
    ensures
        p.label_spec() == q.label_spec() <==> variant_index(p) == variant_index(q),
{
    lemma_label_facts(p);
    lemma_label_facts(q);
}

} // verus!
