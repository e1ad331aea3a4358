//! yt-dlp downloads: the output template, the command line, and the reading
//! of yt-dlp's output lines.
use vstd::prelude::*;
use crate::text::{chars_eq, chars_of, contains, contains_chars, push_all, push_str, replace,
    replace_chars, split, split_chars, str_eq, string_of, trim, trim_chars, trim_end_char,
    trim_end_char_chars, all_ws, is_blank};
use crate::ytdlp::{sanitize_filename, sanitized};
use crate::license::{spec_to_lowercase, to_lowercase};

verus! {

/// Where yt-dlp writes: `<dir>/<safe title>.%(ext)s` with the directory's
/// backslashes turned into slashes and its trailing slashes dropped, or just
/// `<safe title>.%(ext)s` without a directory.
pub open spec fn output_template_spec(title: Seq<char>, output_dir: Seq<char>) -> Seq<char> {
    let safe = sanitized(title);
    if output_dir.len() == 0 {
        safe + ".%(ext)s"@
    } else {
        trim_end_char(replace(output_dir, seq!['\\'], seq!['/']), '/') + seq!['/'] + safe + ".%(ext)s"@
    }
}

/// The output template of a download (see [`output_template_spec`]).
pub fn output_template(title: &str, output_dir: &str) -> (r: String)
    ensures
        r@ == output_template_spec(title@, output_dir@),
{
    let safe = chars_of(sanitize_filename(title).as_str());
    let dir = chars_of(output_dir);
    let mut out: Vec<char> = Vec::new();
    if dir.len() > 0 {
        let bs = ['\\'];
        let fs = ['/'];
        proof {
            assert(bs@ =~= seq!['\\']);
            assert(fs@ =~= seq!['/']);
        }
        let swapped = replace_chars(&dir, &bs, &fs);
        out = trim_end_char_chars(&swapped, '/');
        out.push('/');
    }
    push_all(&mut out, &safe);
    push_str(&mut out, ".%(ext)s");
    proof {
        if dir@.len() == 0 {
            assert(out@ =~= sanitized(title@) + ".%(ext)s"@);
        }
    }
    string_of(&out)
}

/// The strings of a list of literals.
pub open spec fn lit_strs(v: Seq<&'static str>) -> Seq<Seq<char>> {
    v.map_values(|s: &'static str| s@)
}

/// The yt-dlp progress template the application reads back.
pub open spec fn progress_template() -> Seq<char> {
    "download:CYBERPROG|||%(progress._percent_str)s|||%(progress._speed_str)s|||%(progress._eta_str)s"@
}

/// The format selection for a quality: audio extracted as MP3 for "audio";
/// nothing for "" and "best"; else the best video not above the height (the
/// quality without its `p`s) with the best audio, or the best single file
/// not above it.
pub open spec fn quality_args(q: Seq<char>) -> Seq<Seq<char>> {
    if q == "audio"@ {
        seq!["-x"@, "--audio-format"@, "mp3"@]
    } else if q.len() > 0 && q != "best"@ {
        let h = replace(q, seq!['p'], Seq::empty());
        seq!["-f"@, "bestvideo[height<="@ + h + "]+bestaudio/best[height<="@ + h + "]"@]
    } else {
        Seq::empty()
    }
}

/// The yt-dlp command line of a download.
pub open spec fn ytdlp_args_spec(url: Seq<char>, template: Seq<char>, ffmpeg_dir: Option<Seq<char>>,
    format_quality: Seq<char>, format_type: Seq<char>, write_subs: bool) -> Seq<Seq<char>> {
    seq!["--newline"@, "--no-warnings"@, "--no-playlist"@, "--progress-template"@, progress_template(), "-o"@, template]
        + match ffmpeg_dir { Some(d) => seq!["--ffmpeg-location"@, d], None => Seq::empty() }
        + quality_args(format_quality)
        + if format_type.len() > 0 && format_type != "Default"@ && format_quality != "audio"@ {
            seq!["--merge-output-format"@, spec_to_lowercase(format_type)]
        } else {
            Seq::empty()
        }
        + if write_subs {
            seq!["--write-subs"@, "--write-auto-subs"@, "--sub-langs"@, "all"@, "--embed-subs"@]
        } else {
            Seq::empty()
        }
        + seq![url]
}

fn push_lit(args: &mut Vec<String>, s: &str)
    ensures
        final(args)@.map_values(|t: String| t@) == old(args)@.map_values(|t: String| t@).push(s@),
{
    let ghost before = args@.map_values(|t: String| t@);
    args.push(string_of(&chars_of(s)));
    proof {
        assert(args@.map_values(|t: String| t@) =~= before.push(s@));
    }
}

fn push_chars(args: &mut Vec<String>, v: &[char])
    ensures
        final(args)@.map_values(|t: String| t@) == old(args)@.map_values(|t: String| t@).push(v@),
{
    let ghost before = args@.map_values(|t: String| t@);
    args.push(string_of(v));
    proof {
        assert(args@.map_values(|t: String| t@) =~= before.push(v@));
    }
}

/// The yt-dlp command line of a download (see [`ytdlp_args_spec`]).
pub fn ytdlp_args(url: &str, template: &str, ffmpeg_dir: Option<&str>, format_quality: &str,
    format_type: &str, write_subs: bool) -> (r: Vec<String>)
    ensures
        r@.map_values(|s: String| s@) == ytdlp_args_spec(url@, template@, match ffmpeg_dir {
            Some(d) => Some(d@),
            None => None,
        }, format_quality@, format_type@, write_subs),
{
    let mut args: Vec<String> = Vec::new();
    push_lit(&mut args, "--newline");
    push_lit(&mut args, "--no-warnings");
    push_lit(&mut args, "--no-playlist");
    push_lit(&mut args, "--progress-template");
    push_lit(&mut args, "download:CYBERPROG|||%(progress._percent_str)s|||%(progress._speed_str)s|||%(progress._eta_str)s");
    push_lit(&mut args, "-o");
    push_lit(&mut args, template);
    let ghost a0 = args@.map_values(|s: String| s@);
    match ffmpeg_dir {
        Some(d) => {
            push_lit(&mut args, "--ffmpeg-location");
            push_lit(&mut args, d);
        },
        None => {},
    }
    let ghost a1 = args@.map_values(|s: String| s@);
    let is_audio = str_eq(format_quality, "audio");
    if is_audio {
        push_lit(&mut args, "-x");
        push_lit(&mut args, "--audio-format");
        push_lit(&mut args, "mp3");
    } else if !format_quality.is_empty() && !str_eq(format_quality, "best") {
        let p = ['p'];
        let none: [char; 0] = [];
        proof {
            assert(p@ =~= seq!['p']);
            assert(none@ =~= Seq::<char>::empty());
        }
        let h = replace_chars(&chars_of(format_quality), &p, &none);
        push_lit(&mut args, "-f");
        let mut sel = chars_of("bestvideo[height<=");
        push_all(&mut sel, &h);
        push_str(&mut sel, "]+bestaudio/best[height<=");
        push_all(&mut sel, &h);
        push_str(&mut sel, "]");
        push_chars(&mut args, &sel);
    }
    let ghost a2 = args@.map_values(|s: String| s@);
    proof {
        assert(a2 =~= a1 + quality_args(format_quality@));
    }
    if !format_type.is_empty() && !str_eq(format_type, "Default") && !is_audio {
        push_lit(&mut args, "--merge-output-format");
        let low = to_lowercase(format_type);
        push_lit(&mut args, low.as_str());
    }
    let ghost a3 = args@.map_values(|s: String| s@);
    if write_subs {
        push_lit(&mut args, "--write-subs");
        push_lit(&mut args, "--write-auto-subs");
        push_lit(&mut args, "--sub-langs");
        push_lit(&mut args, "all");
        push_lit(&mut args, "--embed-subs");
    }
    let ghost a4 = args@.map_values(|s: String| s@);
    push_lit(&mut args, url);
    proof {
        assert(args@.map_values(|s: String| s@) =~= ytdlp_args_spec(url@, template@, match ffmpeg_dir {
            Some(d) => Some(d@),
            None => None,
        }, format_quality@, format_type@, write_subs));
    }
    args
}

/// What a line of yt-dlp's standard output means.
#[derive(Debug, Clone, PartialEq, Eq)]
pub enum OutputLine {
    /// A progress report: the percentage text (without `%`), speed and ETA.
    Progress { percent: String, speed: String, eta: String },
    /// Merging or post-processing: the line itself.
    Converting(String),
    /// Any other non-blank line.
    Log(String),
    /// A blank line, or a progress line with too few fields.
    Nothing,
}

/// The meaning of a yt-dlp output line: a progress line (marked
/// `CYBERPROG|||`) with at least four `|||`-separated fields gives the
/// trimmed percentage (its `%` removed), speed and ETA; a line mentioning
/// `[Merger]` or `[ffmpeg]` is conversion; another non-blank line is logged.
pub open spec fn output_line_spec(line: Seq<char>) -> Option<Result<(Seq<char>, Seq<char>, Seq<char>), (bool, Seq<char>)>> {
    if contains(line, "CYBERPROG|||"@) {
        let parts = split(line, "|||"@);
        if parts.len() >= 4 {
            Some(Ok((trim(replace(trim(parts[1]), seq!['%'], Seq::empty())), trim(parts[2]), trim(parts[3]))))
        } else {
            None
        }
    } else if contains(line, "[Merger]"@) || contains(line, "[ffmpeg]"@) {
        Some(Err((true, line)))
    } else if !all_ws(line) {
        Some(Err((false, line)))
    } else {
        None
    }
}

/// Reads a yt-dlp output line (see [`output_line_spec`]).
pub fn classify_output_line(line: &str) -> (r: OutputLine)
    ensures
        match r {
            OutputLine::Progress { percent, speed, eta } => output_line_spec(line@) == Some(Ok::<_, (bool, Seq<char>)>((percent@, speed@, eta@))),
            OutputLine::Converting(l) => output_line_spec(line@) == Some(Err::<(Seq<char>, Seq<char>, Seq<char>), _>((true, l@))),
            OutputLine::Log(l) => output_line_spec(line@) == Some(Err::<(Seq<char>, Seq<char>, Seq<char>), _>((false, l@))),
            OutputLine::Nothing => output_line_spec(line@) is None,
        },
{
    proof {
        reveal_strlit("|||");
    }
    let v = chars_of(line);
    if contains_chars(&v, &chars_of("CYBERPROG|||")) {
        let parts = split_chars(&v, &chars_of("|||"));
        if parts.len() >= 4 {
            let pct = ['%'];
            let none: [char; 0] = [];
            proof {
                assert(pct@ =~= seq!['%']);
                assert(none@ =~= Seq::<char>::empty());
            }
            let p1 = trim_chars(&parts[1]);
            let p1r = replace_chars(&p1, &pct, &none);
            let percent = trim_chars(&p1r);
            let speed = trim_chars(&parts[2]);
            let eta = trim_chars(&parts[3]);
            return OutputLine::Progress { percent: string_of(&percent), speed: string_of(&speed), eta: string_of(&eta) };
        }
        return OutputLine::Nothing;
    }
    if contains_chars(&v, &chars_of("[Merger]")) || contains_chars(&v, &chars_of("[ffmpeg]")) {
        return OutputLine::Converting(string_of(&v));
    }
    if !is_blank(&v) {
        return OutputLine::Log(string_of(&v));
    }
    OutputLine::Nothing
}

/// The log line of a yt-dlp error-output line: `[stderr] ` and the line, for
/// a non-blank line.
pub fn stderr_log_line(line: &str) -> (r: Option<String>)
    ensures
        match r {
            Some(l) => !all_ws(line@) && l@ == "[stderr] "@ + line@,
            None => all_ws(line@),
        },
{
    let v = chars_of(line);
    if is_blank(&v) {
        return None;
    }
    let mut out = chars_of("[stderr] ");
    push_all(&mut out, &v);
    Some(string_of(&out))
}

/// The extensions a finished download is looked for under, in order.
pub open spec fn output_exts() -> Seq<Seq<char>> {
    seq!["mp4"@, "mkv"@, "webm"@, "mp3"@, "m4a"@, "opus"@, "flac"@, "wav"@]
}

/// The paths a finished download may have: the template with `%(ext)s`
/// replaced by each extension of [`output_exts`].
pub fn output_candidates(template: &str) -> (r: Vec<String>)
    ensures
        r@.len() == 8,
        forall|i: int| 0 <= i < 8 ==> (#[trigger] r@[i])@ == replace(template@, "%(ext)s"@, output_exts()[i]),
{
    proof {
        reveal_strlit("%(ext)s");
    }
    let t = chars_of(template);
    let key = chars_of("%(ext)s");
    let exts = ["mp4", "mkv", "webm", "mp3", "m4a", "opus", "flac", "wav"];
    let mut out: Vec<String> = Vec::new();
    let mut i: usize = 0;
    while i < 8
        invariant
            i <= 8,
            key@ == "%(ext)s"@,
            key@.len() > 0,
            t@ == template@,
            exts@.map_values(|s: &'static str| s@) == output_exts(),
            out@.len() == i,
            forall|j: int| 0 <= j < i ==> (#[trigger] out@[j])@ == replace(template@, "%(ext)s"@, output_exts()[j]),
        decreases 8 - i,
    {
        proof {
            assert(exts@.map_values(|s: &'static str| s@)[i as int] == exts@[i as int]@);
        }
        let e = chars_of(exts[i]);
        out.push(string_of(&replace_chars(&t, &key, &e)));
        i = i + 1;
    }
    out
}

/// The path of a finished download: the first candidate (see
/// [`output_candidates`]) that exists, else the MP4 one. `exists[i]` says
/// whether candidate `i` exists.
pub fn find_output_file(template: &str, exists: &Vec<bool>) -> (r: String)
    requires
        exists@.len() == 8,
    ensures
        (exists|i: int| 0 <= i < 8 && exists@[i]) ==> {
            let k = choose|k: int| 0 <= k < 8 && exists@[k] && forall|j: int| 0 <= j < k ==> !exists@[j];
            r@ == replace(template@, "%(ext)s"@, output_exts()[k])
        },
        (forall|i: int| 0 <= i < 8 ==> !exists@[i]) ==> r@ == replace(template@, "%(ext)s"@, "mp4"@),
{
    let cands = output_candidates(template);
    let mut i: usize = 0;
    while i < 8
        invariant
            i <= 8,
            exists@.len() == 8,
            cands@.len() == 8,
            forall|j: int| 0 <= j < 8 ==> (#[trigger] cands@[j])@ == replace(template@, "%(ext)s"@, output_exts()[j]),
            forall|j: int| 0 <= j < i ==> !exists@[j],
        decreases 8 - i,
    {
        if exists[i] {
            proof {
                let k = choose|k: int| 0 <= k < 8 && exists@[k] && forall|j: int| 0 <= j < k ==> !exists@[j];
                assert(k == i);
            }
            return string_of(&chars_of(cands[i].as_str()));
        }
        i = i + 1;
    }
    string_of(&chars_of(cands[0].as_str()))
}

/// The log line when a download starts.
pub fn initiating_line(url: &str) -> (r: String)
    ensures
        r@ == "Initiating download: "@ + url@,
{
    let mut v = chars_of("Initiating download: ");
    push_str(&mut v, url);
    string_of(&v)
}

/// The error when yt-dlp cannot be started: "Failed to start yt-dlp: ", the
/// reason, ". Is it installed?".
pub fn start_failure_line(why: &str) -> (r: String)
    ensures
        r@ == "Failed to start yt-dlp: "@ + why@ + ". Is it installed?"@,
{
    let mut v = chars_of("Failed to start yt-dlp: ");
    push_str(&mut v, why);
    push_str(&mut v, ". Is it installed?");
    string_of(&v)
}

} // verus!
