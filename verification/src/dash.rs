//! DASH manifests as the `dash-mpd` crate reads them: the qualities a
//! manifest offers, the segment URLs of a representation, and the choice of
//! tracks to download.
//!
//! The application converts the crate's manifest into [`MpdModel`]. Where a
//! segment template has a fixed duration, the segment times depend on
//! floating-point durations; the application computes them into
//! [`TemplateModel::fixed_times`].
use vstd::prelude::*;
use crate::text::{chars_of, contains, contains_chars, is_digit, dec_string, find_from, first_occurrence_from,
    occurs_at, parse_unsigned, parse_usize, push_all, push_str, push_usize, replace, replace_chars,
    slice_chars, string_of, u64_to_chars, u64_zero_padded, zero_padded, str_eq, number_with_suffix};
use crate::urls::{is_absolute_http, is_absolute_http_chars, spec_url_join, url_join};
use crate::engine::dash::parser::{opt_view, with_fixed_fields};
use crate::sorting::{sort_by_key, stable_sort_by_key};

verus! {

/// A video quality a manifest offers.
#[derive(Debug, Clone)]
pub struct DashQuality {
    pub rep_id: String,
    pub bandwidth: u64,
    pub height: Option<u64>,
    pub label: String,
    pub codecs: Option<String>,
}

/// The view of a quality.
pub struct DashQualitySpec {
    pub rep_id: Seq<char>,
    pub bandwidth: u64,
    pub height: Option<u64>,
    pub label: Seq<char>,
    pub codecs: Option<Seq<char>>,
}

impl View for DashQuality {
    type V = DashQualitySpec;

    open spec fn view(&self) -> DashQualitySpec {
        DashQualitySpec {
            rep_id: self.rep_id@,
            bandwidth: self.bandwidth,
            height: self.height,
            label: self.label@,
            codecs: opt_view(self.codecs),
        }
    }
}

/// A segment template of the manifest.
pub struct TemplateModel {
    pub media: Option<String>,
    pub initialization: Option<String>,
    pub timescale: Option<u64>,
    pub start_number: Option<u64>,
    /// The `<S>` entries (`t`, `d`, `r`) of a segment timeline, if any.
    pub timeline: Option<Vec<(Option<u64>, u64, Option<i64>)>>,
    /// Without a timeline and with a positive fixed duration: the time of each
    /// segment, as the application computed it from the durations.
    pub fixed_times: Vec<u64>,
}

/// A segment list of the manifest.
pub struct ListModel {
    pub initialization: Option<String>,
    /// The `media` attribute of each segment URL entry.
    pub media: Vec<Option<String>>,
}

/// A representation of the manifest.
pub struct RepresentationModel {
    pub id: Option<String>,
    pub bandwidth: Option<u64>,
    pub height: Option<u64>,
    pub codecs: Option<String>,
    pub segment_template: Option<TemplateModel>,
    pub segment_list: Option<ListModel>,
    pub base_urls: Vec<String>,
}

/// An adaptation set of the manifest.
pub struct AdaptationModel {
    pub mime_type: Option<String>,
    pub content_type: Option<String>,
    pub segment_template: Option<TemplateModel>,
    pub segment_list: Option<ListModel>,
    pub representations: Vec<RepresentationModel>,
}

/// A manifest: its periods, each a list of adaptation sets.
pub struct MpdModel {
    pub periods: Vec<Vec<AdaptationModel>>,
}

/// An adaptation set is video: its MIME type mentions "video" or its content
/// type is "video".
pub open spec fn set_is_video(a: AdaptationModel) -> bool {
    (match a.mime_type { Some(m) => contains(m@, "video"@), None => false })
        || (match a.content_type { Some(c) => c@ == "video"@, None => false })
}

/// An adaptation set is audio (as for video, with "audio").
pub open spec fn set_is_audio(a: AdaptationModel) -> bool {
    (match a.mime_type { Some(m) => contains(m@, "audio"@), None => false })
        || (match a.content_type { Some(c) => c@ == "audio"@, None => false })
}

fn is_video_set(a: &AdaptationModel) -> (r: bool)
    ensures
        r == set_is_video(*a),
{
    let m = match &a.mime_type {
        Some(m) => contains_chars(&chars_of(m.as_str()), &chars_of("video")),
        None => false,
    };
    let c = match &a.content_type {
        Some(c) => str_eq(c.as_str(), "video"),
        None => false,
    };
    m || c
}

fn is_audio_set(a: &AdaptationModel) -> (r: bool)
    ensures
        r == set_is_audio(*a),
{
    let m = match &a.mime_type {
        Some(m) => contains_chars(&chars_of(m.as_str()), &chars_of("audio")),
        None => false,
    };
    let c = match &a.content_type {
        Some(c) => str_eq(c.as_str(), "audio"),
        None => false,
    };
    m || c
}

/// The quality a representation of a video set offers: its id (empty when
/// missing), bandwidth (0 when missing), height and codecs, labelled with the
/// height as `<h>p` or else the bandwidth as `<kbit/s>k`.
pub open spec fn quality_of(r: RepresentationModel) -> DashQualitySpec {
    let bw = match r.bandwidth { Some(b) => b, None => 0 };
    DashQualitySpec {
        rep_id: match r.id { Some(i) => i@, None => Seq::empty() },
        bandwidth: bw,
        height: r.height,
        label: match r.height {
            Some(h) => dec_string(h as nat).push('p'),
            None => dec_string((bw / 1000) as nat).push('k'),
        },
        codecs: opt_view(r.codecs),
    }
}

/// The qualities of the video sets among `sets`, in manifest order.
pub open spec fn qualities_of_sets(sets: Seq<AdaptationModel>) -> Seq<DashQualitySpec>
    decreases sets.len(),
{
    if sets.len() == 0 {
        Seq::empty()
    } else {
        let a = sets.last();
        qualities_of_sets(sets.drop_last()) + if set_is_video(a) {
            a.representations@.map_values(|r: RepresentationModel| quality_of(r))
        } else {
            Seq::empty()
        }
    }
}

/// The qualities of the video sets of every period, in manifest order.
pub open spec fn qualities_of_periods(periods: Seq<Vec<AdaptationModel>>) -> Seq<DashQualitySpec>
    decreases periods.len(),
{
    if periods.len() == 0 {
        Seq::empty()
    } else {
        qualities_of_periods(periods.drop_last()) + qualities_of_sets(periods.last()@)
    }
}

/// Some adaptation set of some period is audio.
pub open spec fn manifest_has_audio(periods: Seq<Vec<AdaptationModel>>) -> bool {
    exists|p: int, a: int| 0 <= p < periods.len() && 0 <= a < periods[p]@.len() && set_is_audio(#[trigger] periods[p]@[a])
}

fn quality_from(r: &RepresentationModel) -> (q: DashQuality)
    ensures
        q@ == quality_of(*r),
{
    let bw = match r.bandwidth {
        Some(b) => b,
        None => 0,
    };
    let label = match r.height {
        Some(h) => number_with_suffix(h, 'p'),
        None => number_with_suffix(bw / 1000, 'k'),
    };
    DashQuality {
        rep_id: match &r.id {
            Some(i) => string_of(&chars_of(i.as_str())),
            None => String::new(),
        },
        bandwidth: bw,
        height: r.height,
        label,
        codecs: match &r.codecs {
            Some(c) => Some(string_of(&chars_of(c.as_str()))),
            None => None,
        },
    }
}

/// The qualities a manifest offers come in ascending order of bandwidth, each
/// video representation once.
pub proof fn law_qualities_ascending(periods: Seq<Vec<AdaptationModel>>)
    ensures
        ({
            let q = sort_by_key(qualities_of_periods(periods), |q: DashQualitySpec| q.bandwidth);
            &&& forall|i: int, j: int| 0 <= i <= j < q.len() ==> (#[trigger] q[i]).bandwidth <= (#[trigger] q[j]).bandwidth
            &&& q.to_multiset() =~= qualities_of_periods(periods).to_multiset()
        }),
{
    crate::sorting::law_sort_by_key_orders(qualities_of_periods(periods), |q: DashQualitySpec| q.bandwidth);
}

/// The video qualities a manifest offers, sorted by ascending bandwidth
/// (stably), and whether it has an audio set.
pub fn extract_qualities(mpd: &MpdModel) -> (r: (Vec<DashQuality>, bool))
    ensures
        r.0@.map_values(|q: DashQuality| q@) == sort_by_key(qualities_of_periods(mpd.periods@), |q: DashQualitySpec| q.bandwidth),
        r.1 == manifest_has_audio(mpd.periods@),
{
    let ghost pv = mpd.periods@;
    let mut out: Vec<DashQuality> = Vec::new();
    let mut keys: Vec<u64> = Vec::new();
    let mut has_audio = false;
    let mut p: usize = 0;
    while p < mpd.periods.len()
        invariant
            p <= pv.len(),
            pv == mpd.periods@,
            out@.map_values(|q: DashQuality| q@) == qualities_of_periods(pv.take(p as int)),
            keys@.len() == out@.len(),
            forall|j: int| 0 <= j < out@.len() ==> keys@[j] == (#[trigger] out@[j])@.bandwidth,
            has_audio == exists|x: int, a: int| 0 <= x < p && 0 <= a < pv[x]@.len() && set_is_audio(#[trigger] pv[x]@[a]),
        decreases pv.len() - p,
    {
        let sets = &mpd.periods[p];
        let ghost sv = sets@;
        let ghost base = out@.map_values(|q: DashQuality| q@);
        let ghost audio_before = has_audio;
        proof {
            assert(pv.take(p + 1).drop_last() =~= pv.take(p as int));
            assert(pv.take(p + 1).last() == sets);
        }
        let mut a: usize = 0;
        while a < sets.len()
            invariant
                a <= sv.len(),
                sv == sets@,
                sets == pv[p as int],
                p < pv.len(),
                out@.map_values(|q: DashQuality| q@) == base + qualities_of_sets(sv.take(a as int)),
                keys@.len() == out@.len(),
                forall|j: int| 0 <= j < out@.len() ==> keys@[j] == (#[trigger] out@[j])@.bandwidth,
                has_audio == (audio_before || exists|y: int| 0 <= y < a && set_is_audio(#[trigger] sv[y])),
            decreases sv.len() - a,
        {
            let set = &sets[a];
            proof {
                assert(sv.take(a + 1).drop_last() =~= sv.take(a as int));
                assert(sv.take(a + 1).last() == *set);
            }
            if is_audio_set(set) {
                has_audio = true;
            }
            if is_video_set(set) {
                let ghost before = out@.map_values(|q: DashQuality| q@);
                let mut k: usize = 0;
                while k < set.representations.len()
                    invariant
                        k <= set.representations@.len(),
                        out@.map_values(|q: DashQuality| q@) == before + set.representations@.take(k as int).map_values(
                            |r: RepresentationModel| quality_of(r)),
                        keys@.len() == out@.len(),
                        forall|j: int| 0 <= j < out@.len() ==> keys@[j] == (#[trigger] out@[j])@.bandwidth,
                    decreases set.representations@.len() - k,
                {
                    let q = quality_from(&set.representations[k]);
                    let ghost o = out@.map_values(|q: DashQuality| q@);
                    let ghost qv = q@;
                    keys.push(q.bandwidth);
                    out.push(q);
                    proof {
                        assert(out@.map_values(|q: DashQuality| q@) =~= o.push(qv));
                        assert(set.representations@.take(k + 1).map_values(|r: RepresentationModel| quality_of(r))
                            =~= set.representations@.take(k as int).map_values(|r: RepresentationModel| quality_of(r)).push(
                                quality_of(set.representations@[k as int])));
                    }
                    k = k + 1;
                }
                proof {
                    assert(set.representations@.take(set.representations@.len() as int) =~= set.representations@);
                }
            }
            a = a + 1;
        }
        proof {
            assert(sv.take(sv.len() as int) =~= sv);
        }
        p = p + 1;
        proof {
            assert forall|x: int, y: int| 0 <= x < p && 0 <= y < pv[x]@.len() && set_is_audio(#[trigger] pv[x]@[y])
                implies has_audio by {
                if x == p - 1 {
                    assert(pv[x]@[y] == sv[y]);
                }
            }
            if has_audio && !audio_before {
                let y = choose|y: int| 0 <= y < sv.len() && set_is_audio(#[trigger] sv[y]);
                assert(pv[p - 1]@[y] == sv[y]);
            }
        }
    }
    proof {
        assert(pv.take(pv.len() as int) =~= pv);
    }
    let ghost key = |q: DashQualitySpec| q.bandwidth;
    let sorted = stable_sort_by_key(out, keys, Ghost(key));
    (sorted, has_audio)
}

/// What the manifest reader gives of a representation: its id, bandwidth,
/// height and codecs.
pub type RepOutline = (Option<Seq<char>>, Option<u64>, Option<u64>, Option<Seq<char>>);

/// What the manifest reader gives of an adaptation set: its MIME type, content
/// type and representations.
pub type SetOutline = (Option<Seq<char>>, Option<Seq<char>>, Seq<RepOutline>);

/// The manifest that `dash_mpd::parse` reads from a text: its length in
/// milliseconds and, for each period, its adaptation sets; or the parser's
/// error message.
pub uninterp spec fn spec_mpd_outline(text: Seq<char>) -> Result<(Option<u128>, Seq<Seq<SetOutline>>), Seq<char>>;

/// The outline of a representation of the model.
pub open spec fn rep_outline(r: RepresentationModel) -> RepOutline {
    (opt_view(r.id), r.bandwidth, r.height, opt_view(r.codecs))
}

/// The outline of an adaptation set of the model.
pub open spec fn set_outline(a: AdaptationModel) -> SetOutline {
    (opt_view(a.mime_type), opt_view(a.content_type), a.representations@.map_values(|r: RepresentationModel| rep_outline(r)))
}

/// The outline of the periods of the model.
pub open spec fn periods_outline(p: Seq<Vec<AdaptationModel>>) -> Seq<Seq<SetOutline>> {
    p.map_values(|v: Vec<AdaptationModel>| v@.map_values(|a: AdaptationModel| set_outline(a)))
}

impl RepresentationModel {
    /// A representation with no segment template, list or base URL of its own.
    pub fn outline(id: Option<String>, bandwidth: Option<u64>, height: Option<u64>, codecs: Option<String>) -> (r: Self)
        ensures
            r.id == id,
            r.bandwidth == bandwidth,
            r.height == height,
            r.codecs == codecs,
            r.segment_template is None,
            r.segment_list is None,
            r.base_urls@.len() == 0,
    {
        RepresentationModel { id, bandwidth, height, codecs, segment_template: None, segment_list: None, base_urls: Vec::new() }
    }
}

impl AdaptationModel {
    /// An adaptation set with no segment template or list of its own.
    pub fn outline(mime_type: Option<String>, content_type: Option<String>, representations: Vec<RepresentationModel>) -> (r: Self)
        ensures
            r.mime_type == mime_type,
            r.content_type == content_type,
            r.representations == representations,
            r.segment_template is None,
            r.segment_list is None,
    {
        AdaptationModel { mime_type, content_type, segment_template: None, segment_list: None, representations }
    }
}

/// Ten ASCII digits in a row start at `i`.
pub open spec fn ten_digits_at(t: Seq<char>, i: int) -> bool {
    forall|k: int| 0 <= k < 10 ==> is_digit(#[trigger] t[i + k])
}

/// No number in the text has more than nine digits, and the text holds no
/// character reference (`&#`) that could spell more digits. `dash_mpd::parse`
/// adds up the parts of each duration attribute in `u64` seconds, with
/// overflow checks where they are on; with every part below 10^9 the sum stays
/// far below `u64::MAX`.
pub open spec fn mpd_numbers_bounded(t: Seq<char>) -> bool {
    &&& forall|i: int| 0 <= i && i + 10 <= t.len() ==> !ten_digits_at(t, i)
    &&& !contains(t, "&#"@)
}

/// Whether [`mpd_numbers_bounded`] holds of `text`.
pub fn mpd_is_panic_free(text: &str) -> (r: bool)
    ensures
        r == mpd_numbers_bounded(text@),
{
    let t = chars_of(text);
    let mut run: usize = 0;
    let mut i: usize = 0;
    while i < t.len()
        invariant
            t@ == text@,
            i <= t@.len(),
            run < 10,
            run <= i,
            forall|k: int| 0 <= k < run ==> is_digit(#[trigger] t@[i - 1 - k]),
            run < i ==> !is_digit(t@[i - 1 - run]),
            forall|w: int| 0 <= w && w + 10 <= i ==> !ten_digits_at(t@, w),
        decreases t@.len() - i,
    {
        let c = t[i];
        if '0' <= c && c <= '9' {
            if run == 9 {
                proof {
                    let w = i - 9;
                    assert forall|k: int| 0 <= k < 10 implies is_digit(#[trigger] t@[w + k]) by {
                        if k < 9 {
                            assert(t@[i - 1 - (8 - k)] == t@[w + k]);
                        }
                    }
                    assert(ten_digits_at(t@, w));
                }
                return false;
            }
            proof {
                assert forall|w: int| 0 <= w && w + 10 <= i + 1 implies !ten_digits_at(t@, w) by {
                    if w + 10 == i + 1 {
                        if run < i {
                            let k = (i - 1 - run) - w;
                            assert(0 <= k < 10);
                            assert(!is_digit(t@[w + k]));
                        }
                    }
                }
            }
            run = run + 1;
            proof {
                assert forall|k: int| 0 <= k < run implies is_digit(#[trigger] t@[i - k]) by {
                    if k > 0 {
                        assert(t@[i - 1 - (k - 1)] == t@[i - k]);
                    }
                }
            }
        } else {
            proof {
                assert forall|w: int| 0 <= w && w + 10 <= i + 1 implies !ten_digits_at(t@, w) by {
                    if w + 10 == i + 1 {
                        assert(!is_digit(t@[w + 9]));
                    }
                }
            }
            run = 0;
        }
        i = i + 1;
    }
    !contains_chars(&t, &chars_of("&#"))
}

/// Reads a manifest with `dash_mpd::parse`. The model holds what the reader
/// gives of each set and representation (no segment information), and the
/// length in milliseconds; the contract says that this is the outline that the
/// parser gives of the text, or its error message.
#[verifier::external_body]
fn read_mpd_model(text: &str) -> (r: Result<(Option<u128>, MpdModel), String>)
    requires
        mpd_numbers_bounded(text@),
    ensures
        match r {
            Ok((d, m)) => spec_mpd_outline(text@) == Ok::<_, Seq<char>>((d, periods_outline(m.periods@))),
            Err(e) => spec_mpd_outline(text@) == Err::<(Option<u128>, Seq<Seq<SetOutline>>), _>(e@),
        },
{
    let m = dash_mpd::parse(text).map_err(|e| e.to_string())?;
    let periods = m.periods.iter().map(|p| p.adaptations.iter().map(|a| AdaptationModel::outline(a.mimeType.clone(),
        a.contentType.clone(), a.representations.iter().map(|r| RepresentationModel::outline(r.id.clone(), r.bandwidth,
        r.height, r.codecs.clone())).collect())).collect()).collect();
    Ok((m.mediaPresentationDuration.map(|d| d.as_millis()), MpdModel { periods }))
}

/// The quality an outlined representation of a video set offers (as
/// [`quality_of`]).
pub open spec fn outline_quality(r: RepOutline) -> DashQualitySpec {
    let bw = match r.1 { Some(b) => b, None => 0 };
    DashQualitySpec {
        rep_id: match r.0 { Some(i) => i, None => Seq::empty() },
        bandwidth: bw,
        height: r.2,
        label: match r.2 {
            Some(h) => dec_string(h as nat).push('p'),
            None => dec_string((bw / 1000) as nat).push('k'),
        },
        codecs: r.3,
    }
}

/// An outlined set is video (as [`set_is_video`]).
pub open spec fn outline_is_video(a: SetOutline) -> bool {
    (match a.0 { Some(m) => contains(m, "video"@), None => false })
        || (match a.1 { Some(c) => c == "video"@, None => false })
}

/// An outlined set is audio (as [`set_is_audio`]).
pub open spec fn outline_is_audio(a: SetOutline) -> bool {
    (match a.0 { Some(m) => contains(m, "audio"@), None => false })
        || (match a.1 { Some(c) => c == "audio"@, None => false })
}

/// The qualities of the video sets among outlined `sets`, in order.
pub open spec fn outline_set_qualities(sets: Seq<SetOutline>) -> Seq<DashQualitySpec>
    decreases sets.len(),
{
    if sets.len() == 0 {
        Seq::empty()
    } else {
        let a = sets.last();
        outline_set_qualities(sets.drop_last()) + if outline_is_video(a) {
            a.2.map_values(|r: RepOutline| outline_quality(r))
        } else {
            Seq::empty()
        }
    }
}

/// The qualities of the video sets of every outlined period, in order.
pub open spec fn outline_qualities(periods: Seq<Seq<SetOutline>>) -> Seq<DashQualitySpec>
    decreases periods.len(),
{
    if periods.len() == 0 {
        Seq::empty()
    } else {
        outline_qualities(periods.drop_last()) + outline_set_qualities(periods.last())
    }
}

/// Some outlined set of some period is audio.
pub open spec fn outline_has_audio(periods: Seq<Seq<SetOutline>>) -> bool {
    exists|p: int, a: int| 0 <= p < periods.len() && 0 <= a < periods[p].len() && outline_is_audio(#[trigger] periods[p][a])
}

proof fn lemma_sets_by_outline(sets: Seq<AdaptationModel>)
    ensures
        qualities_of_sets(sets) == outline_set_qualities(sets.map_values(|a: AdaptationModel| set_outline(a))),
    decreases sets.len(),
{
    let o = sets.map_values(|a: AdaptationModel| set_outline(a));
    if sets.len() > 0 {
        lemma_sets_by_outline(sets.drop_last());
        assert(sets.drop_last().map_values(|a: AdaptationModel| set_outline(a)) =~= o.drop_last());
        let a = sets.last();
        assert(o.last() == set_outline(a));
        assert(a.representations@.map_values(|r: RepresentationModel| quality_of(r))
            =~= set_outline(a).2.map_values(|r: RepOutline| outline_quality(r)));
    }
}

/// The qualities and the audio of a model depend on its outline alone.
proof fn lemma_qualities_by_outline(periods: Seq<Vec<AdaptationModel>>)
    ensures
        qualities_of_periods(periods) == outline_qualities(periods_outline(periods)),
        manifest_has_audio(periods) == outline_has_audio(periods_outline(periods)),
    decreases periods.len(),
{
    let o = periods_outline(periods);
    if periods.len() > 0 {
        lemma_qualities_by_outline(periods.drop_last());
        assert(periods_outline(periods.drop_last()) =~= o.drop_last());
        lemma_sets_by_outline(periods.last()@);
        assert(o.last() == periods.last()@.map_values(|a: AdaptationModel| set_outline(a)));
    }
    if manifest_has_audio(periods) {
        let (p, a) = choose|p: int, a: int| 0 <= p < periods.len() && 0 <= a < periods[p]@.len() && set_is_audio(#[trigger] periods[p]@[a]);
        assert(o[p][a] == set_outline(periods[p]@[a]));
    }
    if outline_has_audio(o) {
        let (p, a) = choose|p: int, a: int| 0 <= p < o.len() && 0 <= a < o[p].len() && outline_is_audio(#[trigger] o[p][a]);
        assert(o[p][a] == set_outline(periods[p]@[a]));
        assert(set_is_audio(periods[p]@[a]));
    }
}

/// The error for a manifest that [`mpd_numbers_bounded`] refuses.
pub open spec fn unbounded_mpd_message() -> Seq<char> {
    "MPD parse error: a number in the manifest has more than nine digits or is written as a character reference"@
}

/// Reads a DASH manifest's text with `dash_mpd::parse`: its video qualities
/// in ascending order of bandwidth, whether it has an audio set, and its
/// length in milliseconds; a text the parser refuses gives its message after
/// "MPD parse error: ". A text with a number of more than nine digits or a
/// character reference is refused before the parser sees it (the parser's
/// duration arithmetic can overflow on it).
pub fn parse_dash_text(text: &str) -> (r: Result<(Vec<DashQuality>, bool, Option<u128>), String>)
    ensures
        !mpd_numbers_bounded(text@) ==> (r matches Err(e) && e@ == unbounded_mpd_message()),
        mpd_numbers_bounded(text@) ==> match (r, spec_mpd_outline(text@)) {
            (Ok((q, audio, d)), Ok((d2, o))) => q@.map_values(|x: DashQuality| x@)
                == sort_by_key(outline_qualities(o), |x: DashQualitySpec| x.bandwidth)
                && audio == outline_has_audio(o) && d == d2,
            (Err(e), Err(m)) => e@ == "MPD parse error: "@ + m,
            _ => false,
        },
{
    if !mpd_is_panic_free(text) {
        return Err(String::from_str(
            "MPD parse error: a number in the manifest has more than nine digits or is written as a character reference"));
    }
    match read_mpd_model(text) {
        Ok((d, m)) => {
            let (q, audio) = extract_qualities(&m);
            proof {
                lemma_qualities_by_outline(m.periods@);
            }
            Ok((q, audio, d))
        },
        Err(e) => {
            let mut msg = chars_of("MPD parse error: ");
            push_str(&mut msg, e.as_str());
            proof {
                reveal_strlit("MPD parse error: ");
            }
            Err(string_of(&msg))
        },
    }
}

/// `$Number%<w>d$` replaced by the number zero-padded to `w` (where the text
/// between `$Number%` and the next `d$` reads as a width), every occurrence.
pub open spec fn with_padded(r: Seq<char>, num: u64) -> Seq<char> {
    match first_occurrence_from(r, "$Number%"@, 0) {
        Some(start) => match first_occurrence_from(r.skip(start + 8), "d$"@, 0) {
            Some(e) => {
                let ws = r.subrange(start + 8, start + 8 + e);
                match parse_unsigned(ws, usize::MAX as nat) {
                    Some(w) => replace(r, "$Number%"@ + ws + "d$"@, zero_padded(num as nat, w)),
                    None => r,
                }
            },
            None => r,
        },
        None => r,
    }
}

/// A segment URL from a template: representation id, bandwidth and time
/// filled in, then, where `$Number` occurs, the zero-padded `$Number%<w>d$`
/// form and `$Number$`.
pub open spec fn seg_url_spec(tpl: Seq<char>, rep_id: Seq<char>, bandwidth: u64, num: u64, time: u64) -> Seq<char> {
    let r = with_fixed_fields(tpl, rep_id, bandwidth, time);
    if contains(r, "$Number"@) {
        replace(with_padded(r, num), "$Number$"@, dec_string(num as nat))
    } else {
        r
    }
}

fn replace_lit(v: &Vec<char>, pat: &str, rep: &[char]) -> (r: Vec<char>)
    requires
        pat@.len() > 0,
    ensures
        r@ == replace(v@, pat@, rep@),
{
    replace_chars(v, &chars_of(pat), rep)
}

fn pad_numbers(r: &Vec<char>, num: u64) -> (out: Vec<char>)
    ensures
        out@ == with_padded(r@, num),
{
    proof {
        reveal_strlit("$Number%");
        reveal_strlit("d$");
    }
    let key = chars_of("$Number%");
    match find_from(r, &key, 0) {
        None => r.clone(),
        Some(start) => {
            let n = r.len();
            proof {
                assert(occurs_at(r@, key@, start as int));
            }
            let rest = slice_chars(r, start + 8, n);
            proof {
                assert(rest@ =~= r@.skip(start + 8));
            }
            let dd = chars_of("d$");
            match find_from(&rest, &dd, 0) {
                None => r.clone(),
                Some(e) => {
                    proof {
                        assert(occurs_at(rest@, dd@, e as int));
                    }
                    let ws = slice_chars(r, start + 8, start + 8 + e);
                    match parse_usize(&ws) {
                        Some(w) => {
                            let mut pat = chars_of("$Number%");
                            push_all(&mut pat, &ws);
                            pat.push('d');
                            pat.push('$');
                            proof {
                                assert(pat@ =~= "$Number%"@ + ws@ + "d$"@);
                            }
                            let padded = u64_zero_padded(num, w);
                            replace_chars(r, &pat, &padded)
                        },
                        None => r.clone(),
                    }
                },
            }
        },
    }
}

/// Fills in a segment template (see [`seg_url_spec`]).
pub fn build_seg_url(tpl: &str, rep_id: &str, bandwidth: u64, num: u64, time: u64) -> (r: String)
    ensures
        r@ == seg_url_spec(tpl@, rep_id@, bandwidth, num, time),
{
    proof {
        reveal_strlit("$RepresentationID$");
        reveal_strlit("$Bandwidth$");
        reveal_strlit("$Time$");
        reveal_strlit("$Number");
        reveal_strlit("$Number$");
    }
    let t = chars_of(tpl);
    let r1 = replace_lit(&t, "$RepresentationID$", &chars_of(rep_id));
    let r2 = replace_lit(&r1, "$Bandwidth$", &u64_to_chars(bandwidth));
    let r3 = replace_lit(&r2, "$Time$", &u64_to_chars(time));
    if contains_chars(&r3, &chars_of("$Number")) {
        let r4 = pad_numbers(&r3, num);
        let r5 = replace_lit(&r4, "$Number$", &u64_to_chars(num));
        string_of(&r5)
    } else {
        string_of(&r3)
    }
}

/// A manifest URL resolved against the manifest's address: kept when it is
/// absolute http(s), joined by the `url` crate where that works, else kept
/// as it is.
pub open spec fn dash_resolved(base: Seq<char>, relative: Seq<char>) -> Seq<char> {
    if is_absolute_http(relative) {
        relative
    } else {
        match spec_url_join(base, relative) {
            Some(j) => j,
            None => relative,
        }
    }
}

/// Resolves a manifest URL (see [`dash_resolved`]).
pub fn resolve_url(base: &str, relative: &str) -> (r: String)
    ensures
        r@ == dash_resolved(base@, relative@),
{
    if is_absolute_http_chars(&chars_of(relative)) {
        return string_of(&chars_of(relative));
    }
    match url_join(base, relative) {
        Some(j) => j,
        None => string_of(&chars_of(relative)),
    }
}

/// The init URL and segment URLs of a representation.
pub struct SegmentUrls {
    pub init_url: String,
    pub segment_urls: Vec<String>,
}

/// The URLs of `k` timeline segments from `time` and `num`, `d` apart, with
/// the time and number after them.
pub open spec fn timeline_run(k: nat, time: u64, num: u64, d: u64, mpd_url: Seq<char>, media: Seq<char>, rep_id: Seq<char>, bandwidth: u64) -> (Seq<Seq<char>>, u64, u64)
    decreases k,
{
    if k == 0 {
        (Seq::empty(), time, num)
    } else {
        let p = timeline_run((k - 1) as nat, time, num, d, mpd_url, media, rep_id, bandwidth);
        (
            p.0.push(dash_resolved(mpd_url, seg_url_spec(media, rep_id, bandwidth, p.2, p.1))),
            vstd::wrapping::u64_specs::wrapping_add(p.1, d),
            vstd::wrapping::u64_specs::wrapping_add(p.2, 1),
        )
    }
}

/// The URLs a timeline gives: each entry `r + 1` times (none for a negative
/// `r`), with the time and number after it.
pub open spec fn timeline_segments(s: Seq<(Option<u64>, u64, Option<i64>)>, start: u64, mpd_url: Seq<char>, media: Seq<char>, rep_id: Seq<char>, bandwidth: u64) -> (Seq<Seq<char>>, u64, u64)
    decreases s.len(),
{
    if s.len() == 0 {
        (Seq::empty(), 0, start)
    } else {
        let p = timeline_segments(s.drop_last(), start, mpd_url, media, rep_id, bandwidth);
        let (t, d, r) = s.last();
        let time = match t { Some(v) => v, None => p.1 };
        let rr = match r { Some(v) => v, None => 0 };
        let k: nat = if rr < 0 { 0 } else { (rr + 1) as nat };
        let q = timeline_run(k, time, p.2, d, mpd_url, media, rep_id, bandwidth);
        (p.0 + q.0, q.1, q.2)
    }
}

/// The view of a template's media text (empty when missing).
pub open spec fn media_of(t: TemplateModel) -> Seq<char> {
    match t.media { Some(m) => m@, None => Seq::empty() }
}

/// The URLs of a template: the initialization template filled in with number
/// and time 0, and the timeline's segments, or else one segment per fixed
/// time, numbered from the start number.
pub open spec fn template_segments(t: TemplateModel, rep_id: Seq<char>, bandwidth: u64, mpd_url: Seq<char>) -> (Seq<char>, Seq<Seq<char>>) {
    let start = match t.start_number { Some(n) => n, None => 1 };
    let init = match t.initialization { Some(i) => i@, None => Seq::empty() };
    (
        dash_resolved(mpd_url, seg_url_spec(init, rep_id, bandwidth, 0, 0)),
        match t.timeline {
            Some(tl) => timeline_segments(tl@, start, mpd_url, media_of(t), rep_id, bandwidth).0,
            None => Seq::new(t.fixed_times@.len(), |i: int| dash_resolved(mpd_url, seg_url_spec(media_of(t), rep_id,
                bandwidth, vstd::wrapping::u64_specs::wrapping_add(start, i as u64), t.fixed_times@[i]))),
        },
    )
}

fn push_timeline_run(out: &mut Vec<String>, k: u64, time: u64, num: u64, d: u64, mpd_url: &str, media: &str, rep_id: &str, bandwidth: u64) -> (r: (u64, u64))
    ensures
        ({
            let q = timeline_run(k as nat, time, num, d, mpd_url@, media@, rep_id@, bandwidth);
            &&& final(out)@.map_values(|s: String| s@) == old(out)@.map_values(|s: String| s@) + q.0
            &&& r == (q.1, q.2)
        }),
{
    let ghost start = out@.map_values(|s: String| s@);
    let mut t = time;
    let mut n = num;
    let mut j: u64 = 0;
    while j < k
        invariant
            j <= k,
            ({
                let q = timeline_run(j as nat, time, num, d, mpd_url@, media@, rep_id@, bandwidth);
                &&& out@.map_values(|s: String| s@) == start + q.0
                &&& t == q.1
                &&& n == q.2
            }),
        decreases k - j,
    {
        let u = resolve_url(mpd_url, build_seg_url(media, rep_id, bandwidth, n, t).as_str());
        let ghost before = out@.map_values(|s: String| s@);
        let ghost uv = u@;
        out.push(u);
        proof {
            assert(out@.map_values(|s: String| s@) =~= before.push(uv));
        }
        t = t.wrapping_add(d);
        n = n.wrapping_add(1);
        j = j + 1;
    }
    (t, n)
}

/// Resolves the URLs of a segment template (see [`template_segments`]).
pub fn resolve_segment_template(tpl: &TemplateModel, rep_id: &str, bandwidth: u64, mpd_url: &str) -> (r: SegmentUrls)
    ensures
        (r.init_url@, r.segment_urls@.map_values(|s: String| s@)) == template_segments(*tpl, rep_id@, bandwidth, mpd_url@),
{
    proof {
        reveal_strlit("");
    }
    let media = match &tpl.media {
        Some(m) => string_of(&chars_of(m.as_str())),
        None => String::new(),
    };
    let init_tpl = match &tpl.initialization {
        Some(i) => string_of(&chars_of(i.as_str())),
        None => String::new(),
    };
    let start = match tpl.start_number {
        Some(n) => n,
        None => 1,
    };
    let init_url = resolve_url(mpd_url, build_seg_url(init_tpl.as_str(), rep_id, bandwidth, 0, 0).as_str());
    let mut urls: Vec<String> = Vec::new();
    match &tpl.timeline {
        Some(tl) => {
            let ghost sv = tl@;
            let mut time: u64 = 0;
            let mut num: u64 = start;
            let mut i: usize = 0;
            while i < tl.len()
                invariant
                    i <= sv.len(),
                    sv == tl@,
                    media@ == media_of(*tpl),
                    ({
                        let p = timeline_segments(sv.take(i as int), start, mpd_url@, media@, rep_id@, bandwidth);
                        &&& urls@.map_values(|s: String| s@) == p.0
                        &&& time == p.1
                        &&& num == p.2
                    }),
                decreases sv.len() - i,
            {
                let (t, d, r) = tl[i];
                proof {
                    assert(sv.take(i + 1).drop_last() =~= sv.take(i as int));
                    assert(sv.take(i + 1).last() == (t, d, r));
                }
                let begin = match t {
                    Some(v) => v,
                    None => time,
                };
                let rr: i64 = match r {
                    Some(v) => v,
                    None => 0,
                };
                let k: u64 = if rr < 0 { 0 } else { rr as u64 + 1 };
                let (t2, n2) = push_timeline_run(&mut urls, k, begin, num, d, mpd_url, media.as_str(), rep_id, bandwidth);
                time = t2;
                num = n2;
                i = i + 1;
            }
            proof {
                assert(sv.take(sv.len() as int) =~= sv);
            }
        },
        None => {
            let mut i: usize = 0;
            while i < tpl.fixed_times.len()
                invariant
                    i <= tpl.fixed_times@.len(),
                    media@ == media_of(*tpl),
                    urls@.len() == i,
                    forall|j: int| 0 <= j < i ==> (#[trigger] urls@[j])@ == dash_resolved(mpd_url@, seg_url_spec(media@, rep_id@,
                        bandwidth, vstd::wrapping::u64_specs::wrapping_add(start, j as u64), tpl.fixed_times@[j])),
                decreases tpl.fixed_times@.len() - i,
            {
                let num = start.wrapping_add(i as u64);
                let u = resolve_url(mpd_url, build_seg_url(media.as_str(), rep_id, bandwidth, num, tpl.fixed_times[i]).as_str());
                urls.push(u);
                i = i + 1;
            }
            proof {
                assert(urls@.map_values(|s: String| s@) =~= template_segments(*tpl, rep_id@, bandwidth, mpd_url@).1);
            }
        },
    }
    SegmentUrls { init_url, segment_urls: urls }
}

/// The URLs of a segment list: the initialization's URL (empty when missing)
/// and every entry that names its media, resolved.
pub open spec fn list_segments(l: ListModel, mpd_url: Seq<char>) -> (Seq<char>, Seq<Seq<char>>) {
    (
        match l.initialization { Some(i) => dash_resolved(mpd_url, i@), None => Seq::empty() },
        media_urls(l.media@, mpd_url),
    )
}

/// The resolved media URLs of the entries that have one.
pub open spec fn media_urls(m: Seq<Option<String>>, mpd_url: Seq<char>) -> Seq<Seq<char>>
    decreases m.len(),
{
    if m.len() == 0 {
        Seq::empty()
    } else {
        let prev = media_urls(m.drop_last(), mpd_url);
        match m.last() {
            Some(u) => prev.push(dash_resolved(mpd_url, u@)),
            None => prev,
        }
    }
}

/// Resolves the URLs of a segment list (see [`list_segments`]).
pub fn resolve_segment_list(list: &ListModel, mpd_url: &str) -> (r: SegmentUrls)
    ensures
        (r.init_url@, r.segment_urls@.map_values(|s: String| s@)) == list_segments(*list, mpd_url@),
{
    let init_url = match &list.initialization {
        Some(i) => resolve_url(mpd_url, i.as_str()),
        None => String::new(),
    };
    let ghost mv = list.media@;
    let mut urls: Vec<String> = Vec::new();
    let mut i: usize = 0;
    while i < list.media.len()
        invariant
            i <= mv.len(),
            mv == list.media@,
            urls@.map_values(|s: String| s@) == media_urls(mv.take(i as int), mpd_url@),
        decreases mv.len() - i,
    {
        proof {
            assert(mv.take(i + 1).drop_last() =~= mv.take(i as int));
        }
        match &list.media[i] {
            Some(u) => {
                let full = resolve_url(mpd_url, u.as_str());
                let ghost before = urls@.map_values(|s: String| s@);
                let ghost fv = full@;
                urls.push(full);
                proof {
                    assert(urls@.map_values(|s: String| s@) =~= before.push(fv));
                }
            },
            None => {},
        }
        i = i + 1;
    }
    proof {
        assert(mv.take(mv.len() as int) =~= mv);
    }
    SegmentUrls { init_url, segment_urls: urls }
}

/// The URLs of a representation: from its own template or its set's; else
/// from its own segment list or its set's; else its first base URL (empty
/// when it has none), resolved, as both the init URL and the one segment.
pub open spec fn rep_segments(a: AdaptationModel, r: RepresentationModel, mpd_url: Seq<char>) -> (Seq<char>, Seq<Seq<char>>) {
    let rep_id = match r.id { Some(i) => i@, None => Seq::empty() };
    let bw = match r.bandwidth { Some(b) => b, None => 0 };
    match (r.segment_template, a.segment_template) {
        (Some(t), _) => template_segments(t, rep_id, bw, mpd_url),
        (None, Some(t)) => template_segments(t, rep_id, bw, mpd_url),
        (None, None) => match (r.segment_list, a.segment_list) {
            (Some(l), _) => list_segments(l, mpd_url),
            (None, Some(l)) => list_segments(l, mpd_url),
            (None, None) => {
                let base = if r.base_urls@.len() > 0 { r.base_urls@[0]@ } else { Seq::empty() };
                let u = dash_resolved(mpd_url, base);
                (u, seq![u])
            },
        },
    }
}

/// Resolves the URLs of a representation (see [`rep_segments`]).
pub fn resolve_segments(adapt: &AdaptationModel, rep: &RepresentationModel, mpd_url: &str) -> (r: SegmentUrls)
    ensures
        (r.init_url@, r.segment_urls@.map_values(|s: String| s@)) == rep_segments(*adapt, *rep, mpd_url@),
{
    proof {
        reveal_strlit("");
    }
    let rep_id = match &rep.id {
        Some(i) => string_of(&chars_of(i.as_str())),
        None => String::new(),
    };
    let bw = match rep.bandwidth {
        Some(b) => b,
        None => 0,
    };
    match &rep.segment_template {
        Some(t) => return resolve_segment_template(t, rep_id.as_str(), bw, mpd_url),
        None => {},
    }
    match &adapt.segment_template {
        Some(t) => return resolve_segment_template(t, rep_id.as_str(), bw, mpd_url),
        None => {},
    }
    match &rep.segment_list {
        Some(l) => return resolve_segment_list(l, mpd_url),
        None => {},
    }
    match &adapt.segment_list {
        Some(l) => return resolve_segment_list(l, mpd_url),
        None => {},
    }
    let base = if rep.base_urls.len() > 0 {
        string_of(&chars_of(rep.base_urls[0].as_str()))
    } else {
        String::new()
    };
    let u = resolve_url(mpd_url, base.as_str());
    let mut segs: Vec<String> = Vec::new();
    segs.push(string_of(&chars_of(u.as_str())));
    proof {
        assert(segs@.map_values(|s: String| s@) =~= seq![u@]);
    }
    SegmentUrls { init_url: u, segment_urls: segs }
}

/// The bandwidth of a representation (0 when missing).
pub open spec fn rep_bandwidth(r: RepresentationModel) -> u64 {
    match r.bandwidth { Some(b) => b, None => 0 }
}

/// The position of the representation with the greatest bandwidth, the last
/// of several equal ones (`Iterator::max_by_key`).
pub open spec fn last_max(reps: Seq<RepresentationModel>) -> int
    decreases reps.len(),
{
    if reps.len() <= 1 {
        0
    } else {
        let j = last_max(reps.drop_last());
        if rep_bandwidth(reps.last()) >= rep_bandwidth(reps[j]) { reps.len() - 1 } else { j }
    }
}

/// The position of the first representation with id `rid`.
pub open spec fn first_with_id(reps: Seq<RepresentationModel>, rid: Seq<char>) -> Option<int>
    decreases reps.len(),
{
    if reps.len() == 0 {
        None
    } else {
        match first_with_id(reps.drop_last(), rid) {
            Some(i) => Some(i),
            None => if (match reps.last().id { Some(i) => i@ == rid, None => false }) {
                Some(reps.len() - 1)
            } else {
                None
            },
        }
    }
}

/// The video representation chosen in a set: the requested one where it is
/// there, else the one with the greatest bandwidth; none in an empty set.
pub open spec fn video_pick(reps: Seq<RepresentationModel>, rep_id: Option<Seq<char>>) -> Option<int> {
    match rep_id {
        Some(rid) => match first_with_id(reps, rid) {
            Some(i) => Some(i),
            None => if reps.len() > 0 { Some(last_max(reps)) } else { None },
        },
        None => if reps.len() > 0 { Some(last_max(reps)) } else { None },
    }
}

/// One adaptation set considered (at period `p`, position `a`): the first
/// video set gives the video choice, the first audio set the audio choice
/// (its greatest bandwidth); a set without representations where a choice
/// is made refuses the download.
pub open spec fn pick_step(st: Result<(Option<(int, int, int)>, Option<(int, int, int)>), Seq<char>>, set: AdaptationModel, p: int, a: int, rep_id: Option<Seq<char>>)
    -> Result<(Option<(int, int, int)>, Option<(int, int, int)>), Seq<char>> {
    match st {
        Err(e) => Err(e),
        Ok((v, au)) => {
            let reps = set.representations@;
            let r1: Result<Option<(int, int, int)>, Seq<char>> = if set_is_video(set) && v is None {
                match video_pick(reps, rep_id) {
                    Some(i) => Ok(Some((p, a, i))),
                    None => Err("No video representation found"@),
                }
            } else {
                Ok(v)
            };
            match r1 {
                Err(e) => Err(e),
                Ok(v2) => if set_is_audio(set) && au is None {
                    if reps.len() > 0 {
                        Ok((v2, Some((p, a, last_max(reps)))))
                    } else {
                        Err("No audio representation found"@)
                    }
                } else {
                    Ok((v2, au))
                },
            }
        },
    }
}

/// The choices after the sets of period `p`.
pub open spec fn pick_sets(st: Result<(Option<(int, int, int)>, Option<(int, int, int)>), Seq<char>>, sets: Seq<AdaptationModel>, p: int, rep_id: Option<Seq<char>>)
    -> Result<(Option<(int, int, int)>, Option<(int, int, int)>), Seq<char>>
    decreases sets.len(),
{
    if sets.len() == 0 {
        st
    } else {
        pick_step(pick_sets(st, sets.drop_last(), p, rep_id), sets.last(), p, sets.len() - 1, rep_id)
    }
}

/// The choices after all the periods.
pub open spec fn pick_periods(periods: Seq<Vec<AdaptationModel>>, rep_id: Option<Seq<char>>)
    -> Result<(Option<(int, int, int)>, Option<(int, int, int)>), Seq<char>>
    decreases periods.len(),
{
    if periods.len() == 0 {
        Ok((None, None))
    } else {
        pick_sets(pick_periods(periods.drop_last(), rep_id), periods.last()@, periods.len() - 1, rep_id)
    }
}

fn max_rep(reps: &Vec<RepresentationModel>) -> (r: usize)
    requires
        reps@.len() > 0,
    ensures
        r as int == last_max(reps@),
        r < reps@.len(),
{
    let mut best: usize = 0;
    let mut best_bw: u64 = match reps[0].bandwidth {
        Some(b) => b,
        None => 0,
    };
    let mut i: usize = 1;
    while i < reps.len()
        invariant
            1 <= i <= reps@.len(),
            best as int == last_max(reps@.take(i as int)),
            best < i,
            best_bw == rep_bandwidth(reps@[best as int]),
        decreases reps@.len() - i,
    {
        proof {
            assert(reps@.take(i + 1).drop_last() =~= reps@.take(i as int));
            assert(reps@.take(i as int)[best as int] == reps@[best as int]);
        }
        let b = match reps[i].bandwidth {
            Some(b) => b,
            None => 0,
        };
        if b >= best_bw {
            best = i;
            best_bw = b;
        }
        i = i + 1;
    }
    proof {
        assert(reps@.take(reps@.len() as int) =~= reps@);
    }
    best
}

fn find_rep(reps: &Vec<RepresentationModel>, rid: &str) -> (r: Option<usize>)
    ensures
        match r {
            Some(i) => first_with_id(reps@, rid@) == Some(i as int) && i < reps@.len(),
            None => first_with_id(reps@, rid@) is None,
        },
{
    let mut i: usize = 0;
    while i < reps.len()
        invariant
            i <= reps@.len(),
            first_with_id(reps@.take(i as int), rid@) is None,
        decreases reps@.len() - i,
    {
        proof {
            assert(reps@.take(i + 1).drop_last() =~= reps@.take(i as int));
        }
        let hit = match &reps[i].id {
            Some(x) => str_eq(x.as_str(), rid),
            None => false,
        };
        if hit {
            proof {
                lemma_first_with_id_prefix(reps@, rid@, i as int + 1);
            }
            return Some(i);
        }
        i = i + 1;
    }
    proof {
        assert(reps@.take(reps@.len() as int) =~= reps@);
    }
    None
}

/// A match found in a prefix stays the first match of the whole sequence.
proof fn lemma_first_with_id_prefix(reps: Seq<RepresentationModel>, rid: Seq<char>, n: int)
    requires
        0 <= n <= reps.len(),
        first_with_id(reps.take(n), rid) is Some,
    ensures
        first_with_id(reps, rid) == first_with_id(reps.take(n), rid),
    decreases reps.len() - n,
{
    if n < reps.len() {
        assert(reps.take(n + 1).drop_last() =~= reps.take(n));
        lemma_first_with_id_prefix(reps, rid, n + 1);
    } else {
        assert(reps.take(n) =~= reps);
    }
}

/// The representations a DASH download fetches: the video choice and the
/// audio choice (if any) as (period, adaptation set, representation)
/// positions. Refused, in the order met, where a chosen set has no
/// representation, and when no set is video ("No video track in MPD").
pub fn choose_representations(mpd: &MpdModel, rep_id: Option<&str>) -> (r: Result<((usize, usize, usize), Option<(usize, usize, usize)>), String>)
    ensures
        ({
            let rid = match rep_id { Some(x) => Some(x@), None => None };
            match pick_periods(mpd.periods@, rid) {
                Err(e) => r matches Err(m) && m@ == e,
                Ok((None, _)) => r matches Err(m) && m@ == "No video track in MPD"@,
                Ok((Some(v), au)) => r matches Ok((rv, ra)) && (rv.0 as int, rv.1 as int, rv.2 as int) == v
                    && match (ra, au) {
                        (Some(x), Some(y)) => (x.0 as int, x.1 as int, x.2 as int) == y,
                        (None, None) => true,
                        _ => false,
                    },
            }
        }),
{
    let ghost rid = match rep_id { Some(x) => Some(x@), None => None };
    let ghost pv = mpd.periods@;
    let mut video: Option<(usize, usize, usize)> = None;
    let mut audio: Option<(usize, usize, usize)> = None;
    let mut p: usize = 0;
    while p < mpd.periods.len()
        invariant
            p <= pv.len(),
            pv == mpd.periods@,
            rid == match rep_id { Some(x) => Some(x@), None => None },
            pick_periods(pv.take(p as int), rid) == Ok::<_, Seq<char>>((
                match video { Some(x) => Some((x.0 as int, x.1 as int, x.2 as int)), None => None },
                match audio { Some(x) => Some((x.0 as int, x.1 as int, x.2 as int)), None => None })),
        decreases pv.len() - p,
    {
        let sets = &mpd.periods[p];
        let ghost sv = sets@;
        let ghost before = pick_periods(pv.take(p as int), rid);
        proof {
            assert(pv.take(p + 1).drop_last() =~= pv.take(p as int));
            assert(pv.take(p + 1).last() == *sets);
        }
        let mut a: usize = 0;
        while a < sets.len()
            invariant
                a <= sv.len(),
                sv == sets@,
                p < pv.len(),
                pv == mpd.periods@,
                *sets == pv[p as int],
                before == pick_periods(pv.take(p as int), rid),
                rid == match rep_id { Some(x) => Some(x@), None => None },
                pick_sets(before, sv.take(a as int), p as int, rid) == Ok::<_, Seq<char>>((
                    match video { Some(x) => Some((x.0 as int, x.1 as int, x.2 as int)), None => None },
                    match audio { Some(x) => Some((x.0 as int, x.1 as int, x.2 as int)), None => None })),
            decreases sv.len() - a,
        {
            let set = &sets[a];
            proof {
                assert(sv.take(a + 1).drop_last() =~= sv.take(a as int));
                assert(sv.take(a + 1).last() == *set);
            }
            if video.is_none() && is_video_set(set) {
                let chosen = match rep_id {
                    Some(rid_s) => match find_rep(&set.representations, rid_s) {
                        Some(i) => Some(i),
                        None => if set.representations.len() > 0 { Some(max_rep(&set.representations)) } else { None },
                    },
                    None => if set.representations.len() > 0 { Some(max_rep(&set.representations)) } else { None },
                };
                match chosen {
                    Some(i) => {
                        video = Some((p, a, i));
                    },
                    None => {
                        proof {
                            lemma_pick_error_sticks_sets(before, sv, a as int + 1, p as int, rid);
                            assert(pv.take(p + 1).drop_last() =~= pv.take(p as int));
                            assert(pv.take(p + 1).last() == pv[p as int]);
                            assert(pick_periods(pv.take(p + 1), rid) == pick_sets(before, sv, p as int, rid));
                            lemma_pick_error_sticks_periods(pv, p as int + 1, rid);
                        }
                        return Err(String::from_str("No video representation found"));
                    },
                }
            }
            if audio.is_none() && is_audio_set(set) {
                if set.representations.len() > 0 {
                    audio = Some((p, a, max_rep(&set.representations)));
                } else {
                    proof {
                        lemma_pick_error_sticks_sets(before, sv, a as int + 1, p as int, rid);
                        assert(pv.take(p + 1).drop_last() =~= pv.take(p as int));
                        assert(pv.take(p + 1).last() == pv[p as int]);
                        assert(pick_periods(pv.take(p + 1), rid) == pick_sets(before, sv, p as int, rid));
                        lemma_pick_error_sticks_periods(pv, p as int + 1, rid);
                    }
                    return Err(String::from_str("No audio representation found"));
                }
            }
            a = a + 1;
        }
        proof {
            assert(sv.take(sv.len() as int) =~= sv);
        }
        p = p + 1;
    }
    proof {
        assert(pv.take(pv.len() as int) =~= pv);
    }
    match video {
        Some(v) => Ok((v, audio)),
        None => Err(String::from_str("No video track in MPD")),
    }
}

/// Once an error is reached, further sets leave it.
proof fn lemma_sets_keep_error(st: Result<(Option<(int, int, int)>, Option<(int, int, int)>), Seq<char>>, sets: Seq<AdaptationModel>, p: int, rid: Option<Seq<char>>)
    requires
        st is Err,
    ensures
        pick_sets(st, sets, p, rid) == st,
    decreases sets.len(),
{
    if sets.len() > 0 {
        lemma_sets_keep_error(st, sets.drop_last(), p, rid);
    }
}

/// An error reached after the first `k` sets is the outcome of all of them.
proof fn lemma_pick_error_sticks_sets(st: Result<(Option<(int, int, int)>, Option<(int, int, int)>), Seq<char>>, sets: Seq<AdaptationModel>, k: int, p: int, rid: Option<Seq<char>>)
    requires
        0 <= k <= sets.len(),
        pick_sets(st, sets.take(k), p, rid) is Err,
    ensures
        pick_sets(st, sets, p, rid) == pick_sets(st, sets.take(k), p, rid),
    decreases sets.len() - k,
{
    if k < sets.len() {
        assert(sets.take(k + 1).drop_last() =~= sets.take(k));
        lemma_pick_error_sticks_sets(st, sets, k + 1, p, rid);
    } else {
        assert(sets.take(k) =~= sets);
    }
}

/// An error reached after the first `k` periods is the outcome of all.
proof fn lemma_pick_error_sticks_periods(periods: Seq<Vec<AdaptationModel>>, k: int, rid: Option<Seq<char>>)
    requires
        0 <= k <= periods.len(),
        pick_periods(periods.take(k), rid) is Err,
    ensures
        pick_periods(periods, rid) == pick_periods(periods.take(k), rid),
    decreases periods.len() - k,
{
    if k < periods.len() {
        assert(periods.take(k + 1).drop_last() =~= periods.take(k));
        lemma_sets_keep_error(pick_periods(periods.take(k), rid), periods[k]@, k, rid);
        assert(periods.take(k + 1).last() == periods[k]);
        lemma_pick_error_sticks_periods(periods, k + 1, rid);
    } else {
        assert(periods.take(k) =~= periods);
    }
}

} // verus!
