//! URL analysis with yt-dlp: the qualities a video offers, the site name and
//! friendly error messages.
use vstd::prelude::*;
use crate::text::{chars_of, contains, contains_chars, dec_string, number_with_suffix, parse_u64,
    parse_unsigned, replace, replace_chars, split, split_chars, str_eq, string_of, trim_end_char,
    trim_end_char_chars, push_str, push_all};
use crate::types::{QualityOption, detect_site, site_of};
use crate::sorting::{sort_by_key, stable_sort_by_key};
use crate::engine::dash::parser::opt_view;

verus! {

/// What the analysis reads of one format yt-dlp lists.
pub struct FormatInfo {
    pub vcodec: Option<String>,
    pub acodec: Option<String>,
    pub height: Option<u64>,
    pub ext: Option<String>,
    pub format_id: Option<String>,
    pub filesize: Option<u64>,
    pub filesize_approx: Option<u64>,
    /// For a positive bitrate, its label "Audio <kbit/s>kbps" (the
    /// application renders the rounded bitrate); `None` otherwise.
    pub audio_label: Option<String>,
}

/// The view of a quality option.
pub open spec fn option_view(q: QualityOption) -> (Seq<char>, Seq<char>, Option<u64>, Seq<char>) {
    (q.label@, q.format_id@, q.file_size, q.ext@)
}

/// A text field, with a default where it is missing.
pub open spec fn text_or(o: Option<String>, default: Seq<char>) -> Seq<char> {
    match o { Some(s) => s@, None => default }
}

/// The state after considering formats from the last one backwards: the
/// options found, the heights seen, whether an audio option was taken.
pub open spec fn scan_formats(fs: Seq<FormatInfo>) -> (Seq<(Seq<char>, Seq<char>, Option<u64>, Seq<char>)>, Seq<u64>, bool)
    decreases fs.len(),
{
    if fs.len() == 0 {
        (Seq::empty(), Seq::empty(), false)
    } else {
        let p = scan_formats(fs.skip(1));
        let f = fs[0];
        let vcodec = text_or(f.vcodec, "none"@);
        let acodec = text_or(f.acodec, "none"@);
        let height = match f.height { Some(h) => h, None => 0 };
        let size = match f.filesize { Some(s) => Some(s), None => f.filesize_approx };
        let id = text_or(f.format_id, Seq::empty());
        let ext = text_or(f.ext, "mp4"@);
        if vcodec != "none"@ && height > 0 {
            if p.1.contains(height) {
                p
            } else {
                (p.0.push((dec_string(height as nat).push('p'), id, size, ext)), p.1.push(height), p.2)
            }
        } else if vcodec == "none"@ && acodec != "none"@ && !p.2 && f.audio_label is Some {
            (p.0.push((f.audio_label->0@, id, size, ext)), p.1, true)
        } else {
            p
        }
    }
}

/// The height a label names (`<h>p`), 0 for other labels.
pub open spec fn label_height(label: Seq<char>) -> u64 {
    match parse_unsigned(replace(label, seq!['p'], Seq::empty()), u64::MAX as nat) {
        Some(h) => h as u64,
        None => 0,
    }
}

/// The key that orders options by descending height, stably.
pub open spec fn descending_key(o: (Seq<char>, Seq<char>, Option<u64>, Seq<char>)) -> u64 {
    (u64::MAX - label_height(o.0)) as u64
}

/// The options of a video: one per height among the video formats (the one
/// listed last of each height), and one audio option (the last audio-only
/// format with a positive bitrate), highest resolution first.
pub open spec fn qualities_spec(fs: Seq<FormatInfo>) -> Seq<(Seq<char>, Seq<char>, Option<u64>, Seq<char>)> {
    sort_by_key(scan_formats(fs).0, |o: (Seq<char>, Seq<char>, Option<u64>, Seq<char>)| descending_key(o))
}

fn text_of(o: &Option<String>, default: &str) -> (r: Vec<char>)
    ensures
        r@ == text_or(*o, default@),
{
    match o {
        Some(s) => chars_of(s.as_str()),
        None => chars_of(default),
    }
}

fn seen_height(seen: &Vec<u64>, h: u64) -> (r: bool)
    ensures
        r == seen@.contains(h),
{
    let mut i: usize = 0;
    while i < seen.len()
        invariant
            i <= seen@.len(),
            forall|j: int| 0 <= j < i ==> seen@[j] != h,
        decreases seen@.len() - i,
    {
        if seen[i] == h {
            return true;
        }
        i = i + 1;
    }
    false
}

/// The height in a label, 0 if it names none (see [`label_height`]).
fn height_of_label(label: &String) -> (r: u64)
    ensures
        r == label_height(label@),
{
    let p = ['p'];
    let none: [char; 0] = [];
    proof {
        assert(p@ =~= seq!['p']);
        assert(none@ =~= Seq::<char>::empty());
    }
    let digits = replace_chars(&chars_of(label.as_str()), &p, &none);
    match parse_u64(&digits) {
        Some(h) => h,
        None => 0,
    }
}

/// The qualities of a video from yt-dlp's format list (see
/// [`qualities_spec`]).
pub fn extract_qualities(formats: &Vec<FormatInfo>) -> (r: Vec<QualityOption>)
    ensures
        r@.map_values(|q: QualityOption| option_view(q)) == qualities_spec(formats@),
{
    proof {
        reveal_strlit("none");
        reveal_strlit("mp4");
        reveal_strlit("");
    }
    let ghost fv = formats@;
    let mut out: Vec<QualityOption> = Vec::new();
    let mut seen: Vec<u64> = Vec::new();
    let mut has_audio = false;
    let mut i = formats.len();
    proof {
        assert(fv.skip(i as int) =~= Seq::<FormatInfo>::empty());
    }
    while i > 0
        invariant
            i <= fv.len(),
            fv == formats@,
            ({
                let st = scan_formats(fv.skip(i as int));
                &&& out@.map_values(|q: QualityOption| option_view(q)) == st.0
                &&& seen@ == st.1
                &&& has_audio == st.2
            }),
        decreases i,
    {
        i = i - 1;
        let f = &formats[i];
        proof {
            assert(fv.skip(i as int).skip(1) =~= fv.skip(i + 1));
            assert(fv.skip(i as int)[0] == *f);
        }
        let vcodec = text_of(&f.vcodec, "none");
        let acodec = text_of(&f.acodec, "none");
        let height = match f.height {
            Some(h) => h,
            None => 0,
        };
        let size = match f.filesize {
            Some(s) => Some(s),
            None => f.filesize_approx,
        };
        let none_txt = chars_of("none");
        let video = !crate::text::chars_eq(&vcodec, &none_txt);
        proof {
            reveal_strlit("");
            assert(""@ =~= Seq::<char>::empty());
        }
        if video && height > 0 {
            if !seen_height(&seen, height) {
                let ghost before = out@.map_values(|q: QualityOption| option_view(q));
                let q = QualityOption {
                    label: number_with_suffix(height, 'p'),
                    format_id: string_of(&text_of(&f.format_id, "")),
                    file_size: size,
                    ext: string_of(&text_of(&f.ext, "mp4")),
                };
                let ghost qv = option_view(q);
                out.push(q);
                seen.push(height);
                proof {
                    assert(out@.map_values(|q: QualityOption| option_view(q)) =~= before.push(qv));
                }
            }
        } else if !video && !crate::text::chars_eq(&acodec, &none_txt) && !has_audio && f.audio_label.is_some() {
            let label = match &f.audio_label {
                Some(l) => string_of(&chars_of(l.as_str())),
                None => String::new(),
            };
            let ghost before = out@.map_values(|q: QualityOption| option_view(q));
            let q = QualityOption {
                label,
                format_id: string_of(&text_of(&f.format_id, "")),
                file_size: size,
                ext: string_of(&text_of(&f.ext, "mp4")),
            };
            let ghost qv = option_view(q);
            out.push(q);
            has_audio = true;
            proof {
                assert(out@.map_values(|q: QualityOption| option_view(q)) =~= before.push(qv));
            }
        }
    }
    proof {
        assert(fv.skip(0) =~= fv);
    }
    let mut keys: Vec<u64> = Vec::new();
    let mut k: usize = 0;
    while k < out.len()
        invariant
            k <= out@.len(),
            keys@.len() == k,
            forall|j: int| 0 <= j < k ==> keys@[j] == descending_key(#[trigger] option_view(out@[j])),
        decreases out@.len() - k,
    {
        let h = height_of_label(&out[k].label);
        keys.push(u64::MAX - h);
        k = k + 1;
    }
    let ghost key = |o: (Seq<char>, Seq<char>, Option<u64>, Seq<char>)| descending_key(o);
    let ghost ov = out@.map_values(|q: QualityOption| option_view(q));
    let mut tagged: Vec<TaggedOption> = Vec::new();
    let mut t: usize = 0;
    while t < out.len()
        invariant
            t <= out@.len(),
            ov == out@.map_values(|q: QualityOption| option_view(q)),
            tagged@.len() == t,
            forall|j: int| 0 <= j < t ==> (#[trigger] tagged@[j])@ == ov[j],
        decreases out@.len() - t,
    {
        let q = &out[t];
        tagged.push(TaggedOption { q: QualityOption {
            label: string_of(&chars_of(q.label.as_str())),
            format_id: string_of(&chars_of(q.format_id.as_str())),
            file_size: q.file_size,
            ext: string_of(&chars_of(q.ext.as_str())),
        } });
        t = t + 1;
    }
    proof {
        assert(tagged@.map_values(|x: TaggedOption| x@) =~= ov);
        assert forall|j: int| 0 <= j < tagged@.len() implies keys@[j] == key(#[trigger] tagged@[j]@) by {
            assert(tagged@[j]@ == ov[j]);
            assert(ov[j] == option_view(out@[j]));
        }
    }
    let sorted = stable_sort_by_key(tagged, keys, Ghost(key));
    let mut result: Vec<QualityOption> = Vec::new();
    let mut s: usize = 0;
    let ghost sv = sorted@.map_values(|x: TaggedOption| x@);
    while s < sorted.len()
        invariant
            s <= sorted@.len(),
            sv == sorted@.map_values(|x: TaggedOption| x@),
            result@.map_values(|q: QualityOption| option_view(q)) == sv.take(s as int),
        decreases sorted@.len() - s,
    {
        let x = &sorted[s];
        let ghost before = result@.map_values(|q: QualityOption| option_view(q));
        let q = QualityOption {
            label: string_of(&chars_of(x.q.label.as_str())),
            format_id: string_of(&chars_of(x.q.format_id.as_str())),
            file_size: x.q.file_size,
            ext: string_of(&chars_of(x.q.ext.as_str())),
        };
        let ghost qv = option_view(q);
        result.push(q);
        proof {
            assert(sv[s as int] == sorted@[s as int]@);
            assert(result@.map_values(|q: QualityOption| option_view(q)) =~= before.push(qv));
            assert(sv.take(s + 1) =~= sv.take(s as int).push(sv[s as int]));
        }
        s = s + 1;
    }
    proof {
        assert(sv.take(sorted@.len() as int) =~= sv);
    }
    result
}

/// A quality option carried through the sort by its view.
pub struct TaggedOption {
    pub q: QualityOption,
}

impl View for TaggedOption {
    type V = (Seq<char>, Seq<char>, Option<u64>, Seq<char>);

    open spec fn view(&self) -> (Seq<char>, Seq<char>, Option<u64>, Seq<char>) {
        option_view(self.q)
    }
}

/// The site named in an analysis: yt-dlp's extractor where it names one,
/// else the site recognised from the URL.
pub fn site_name(extractor: Option<&str>, url: &str) -> (r: String)
    ensures
        r@ == match extractor {
            Some(e) => if e@.len() > 0 { e@ } else { site_of(url@) },
            None => site_of(url@),
        },
{
    match extractor {
        Some(e) => {
            if !e.is_empty() {
                string_of(&chars_of(e))
            } else {
                detect_site(url)
            }
        },
        None => detect_site(url),
    }
}

/// The lines of a text as `str::lines` gives them: split at `\n`, a final
/// empty piece after a last `\n` dropped, a trailing `\r` removed from each.
pub open spec fn text_lines(s: Seq<char>) -> Seq<Seq<char>> {
    if s.len() == 0 {
        Seq::empty()
    } else {
        let pieces = split(s, seq!['\n']);
        let kept = if s.last() == '\n' { pieces.drop_last() } else { pieces };
        kept.map_values(|l: Seq<char>| if l.len() > 0 && l.last() == '\r' { l.drop_last() } else { l })
    }
}

/// The message shown when analysis fails, by what yt-dlp reported.
pub open spec fn friendly_error_spec(stderr: Seq<char>) -> Seq<char> {
    if contains(stderr, "is not a valid URL"@) || contains(stderr, "Unsupported URL"@) {
        "This URL isn't supported. Try a direct video link from YouTube, Twitter, TikTok, etc."@
    } else if contains(stderr, "HTTP Error 403"@) || contains(stderr, "Forbidden"@) {
        "Access denied \u{2014} the site may require login or have geo-restrictions."@
    } else if contains(stderr, "HTTP Error 404"@) || contains(stderr, "not found"@) {
        "Video not found \u{2014} the link may be broken or the video was deleted."@
    } else if contains(stderr, "urlopen error"@) || contains(stderr, "Connection"@) {
        "Connection failed \u{2014} check your internet connection."@
    } else {
        "yt-dlp error: "@ + if text_lines(stderr).len() > 0 { text_lines(stderr).last() } else { "Unknown error"@ }
    }
}

fn has(v: &[char], lit: &str) -> (r: bool)
    ensures
        r == contains(v@, lit@),
{
    contains_chars(v, &chars_of(lit))
}

/// The last line of a text, if it has one (see [`text_lines`]).
fn last_line(v: &Vec<char>) -> (r: Option<Vec<char>>)
    ensures
        match r {
            Some(l) => text_lines(v@).len() > 0 && l@ == text_lines(v@).last(),
            None => text_lines(v@).len() == 0,
        },
{
    if v.len() == 0 {
        return None;
    }
    let nl = ['\n'];
    proof {
        assert(nl@ =~= seq!['\n']);
    }
    let pieces = split_chars(v, &nl);
    let n = pieces.len();
    let ghost ps = split(v@, seq!['\n']);
    proof {
        assert(pieces@.map_values(|p: Vec<char>| p@) =~= ps);
    }
    let idx: usize = if v[v.len() - 1] == '\n' {
        if n < 2 {
            proof {
                crate::text::lemma_split_acc_nonempty(v@, seq!['\n'], Seq::empty());
            }
            return None;
        }
        n - 2
    } else {
        n - 1
    };
    let line = &pieces[idx];
    let out = if line.len() > 0 && line[line.len() - 1] == '\r' {
        crate::text::slice_chars(line, 0, line.len() - 1)
    } else {
        line.clone()
    };
    proof {
        assert(line@ == ps[idx as int]);
        if out@.len() < line@.len() {
            assert(out@ =~= line@.drop_last());
        }
    }
    Some(out)
}

/// The message shown when analysis fails (see [`friendly_error_spec`]).
pub fn friendly_error(stderr: &str) -> (r: String)
    ensures
        r@ == friendly_error_spec(stderr@),
{
    let v = chars_of(stderr);
    if has(&v, "is not a valid URL") || has(&v, "Unsupported URL") {
        String::from_str("This URL isn't supported. Try a direct video link from YouTube, Twitter, TikTok, etc.")
    } else if has(&v, "HTTP Error 403") || has(&v, "Forbidden") {
        String::from_str("Access denied \u{2014} the site may require login or have geo-restrictions.")
    } else if has(&v, "HTTP Error 404") || has(&v, "not found") {
        String::from_str("Video not found \u{2014} the link may be broken or the video was deleted.")
    } else if has(&v, "urlopen error") || has(&v, "Connection") {
        String::from_str("Connection failed \u{2014} check your internet connection.")
    } else {
        let mut m = chars_of("yt-dlp error: ");
        match last_line(&v) {
            Some(l) => push_all(&mut m, &l),
            None => push_str(&mut m, "Unknown error"),
        }
        string_of(&m)
    }
}

/// The message after `yt-dlp --update`, from its trimmed output (standard
/// output then error output) and whether it succeeded.
pub open spec fn update_message_spec(combined: Seq<char>, success: bool) -> Seq<char> {
    if contains(combined, "Updated yt-dlp to"@) || contains(combined, "Updating to"@) {
        combined
    } else if contains(combined, "up to date"@) || contains(combined, "is up-to-date"@) {
        "Already up to date."@
    } else if !success {
        "Update not available (installed via package manager?)."@
    } else {
        combined
    }
}

/// The message after an update attempt (see [`update_message_spec`]).
pub fn update_message(combined: &str, success: bool) -> (r: String)
    ensures
        r@ == update_message_spec(combined@, success),
{
    let v = chars_of(combined);
    if has(&v, "Updated yt-dlp to") || has(&v, "Updating to") {
        string_of(&v)
    } else if has(&v, "up to date") || has(&v, "is up-to-date") {
        String::from_str("Already up to date.")
    } else if !success {
        String::from_str("Update not available (installed via package manager?).")
    } else {
        string_of(&v)
    }
}

} // verus!
