//! HLS playlist handling for the concurrent stream downloader: quality lists,
//! media playlists with key rotation, IV choice and AES-128 decryption.
//!
//! The fetching of playlists, keys and segments is done by the caller; this
//! module decides what to fetch and how to put the results together.
use vstd::prelude::*;
use crate::engine::hls::crypto::{
    aes128_cbc_decrypt_pkcs7, aes128_cbc_decrypt_raw, pkcs7_unpad, sequence_iv_bytes,
    sequence_to_iv, spec_aes128_cbc_decrypt,
};
use crate::engine::hls::parser::{
    any_line_contains, any_line_contains_exec, copy_bytes, hex_iv, hex_iv_is_safe, hex_iv_safe,
    is_comment, line_contains, line_starts_with, opt_text, parse_hex_iv, playlist_lines,
    playlist_lines_of,
};
use crate::sorting::{sort_by_key, stable_sort_by_key};
use crate::text::{
    chars_of, contains, dec_string, occurs_at, find_from, first_occurrence_from, parse_u64, parse_unsigned,
    push_all, slice_chars, split, split_at_char, starts_with, string_of, trim, trim_chars,
    u64_to_chars, find_item_start, item_start, lemma_item_start_occurs,
};
use crate::urls::{is_absolute_http, is_absolute_http_chars, spec_url_join, url_join};

verus! {

// ---------------------------------------------------------------------------
// Types
// ---------------------------------------------------------------------------

/// One selectable quality of a stream.
#[derive(Debug, Clone)]
pub struct HlsQuality {
    pub url: String,
    pub bandwidth: u64,
    pub label: String,
    pub resolution: Option<String>,
}

/// What a playlist URL offers.
#[derive(Debug, Clone)]
pub struct HlsParseResult {
    pub is_master: bool,
    pub qualities: Vec<HlsQuality>,
    /// For a media playlist: its segment information.
    pub media_info: Option<HlsMediaInfo>,
}

/// Summary of a media playlist.
#[derive(Debug, Clone)]
pub struct HlsMediaInfo {
    pub segments: usize,
    /// The duration text of every `#EXTINF` line; the playlist's duration is
    /// the sum of their values.
    pub durations: Vec<String>,
    pub is_live: bool,
    pub encrypted: bool,
}

/// A segment to download.
#[derive(Debug, Clone)]
pub struct HlsSegment {
    pub url: String,
    pub seq: u64,
    /// The duration text of the preceding `#EXTINF` line (empty when none).
    pub duration: String,
    pub key: Option<HlsKey>,
}

/// An AES-128 key reference.
#[derive(Debug, Clone)]
pub struct HlsKey {
    pub uri: String,
    pub iv: Option<[u8; 16]>,
}

/// A media playlist.
#[derive(Debug, Clone)]
pub struct HlsMediaPlaylist {
    pub segments: Vec<HlsSegment>,
    pub durations: Vec<String>,
    pub is_live: bool,
    pub init_map_url: Option<String>,
    pub encryption: Option<HlsKey>,
}

pub struct QualityView {
    pub url: Seq<char>,
    pub bandwidth: u64,
    pub label: Seq<char>,
    pub resolution: Option<Seq<char>>,
}

impl View for HlsQuality {
    type V = QualityView;

    open spec fn view(&self) -> QualityView {
        QualityView {
            url: self.url@,
            bandwidth: self.bandwidth,
            label: self.label@,
            resolution: opt_text(self.resolution),
        }
    }
}

pub struct KeyView {
    pub uri: Seq<char>,
    pub iv: Option<Seq<u8>>,
}

impl View for HlsKey {
    type V = KeyView;

    open spec fn view(&self) -> KeyView {
        KeyView {
            uri: self.uri@,
            iv: match self.iv {
                Some(a) => Some(a@),
                None => None,
            },
        }
    }
}

pub open spec fn opt_key(k: Option<HlsKey>) -> Option<KeyView> {
    match k {
        Some(k) => Some(k@),
        None => None,
    }
}

pub struct SegmentView {
    pub url: Seq<char>,
    pub seq: u64,
    pub duration: Seq<char>,
    pub key: Option<KeyView>,
}

impl View for HlsSegment {
    type V = SegmentView;

    open spec fn view(&self) -> SegmentView {
        SegmentView { url: self.url@, seq: self.seq, duration: self.duration@, key: opt_key(self.key) }
    }
}

pub struct MediaView {
    pub segments: Seq<SegmentView>,
    pub durations: Seq<Seq<char>>,
    pub is_live: bool,
    pub init_map_url: Option<Seq<char>>,
    pub encryption: Option<KeyView>,
}

impl View for HlsMediaPlaylist {
    type V = MediaView;

    open spec fn view(&self) -> MediaView {
        MediaView {
            segments: self.segments@.map_values(|s: HlsSegment| s@),
            durations: self.durations@.map_values(|d: String| d@),
            is_live: self.is_live,
            init_map_url: opt_text(self.init_map_url),
            encryption: opt_key(self.encryption),
        }
    }
}

// ---------------------------------------------------------------------------
// Attributes and URLs
// ---------------------------------------------------------------------------

/// The text after the first `NAME=` of `line` that starts an item of the
/// attribute list (at the line's start, or right after the tag's colon or a
/// comma; see [`item_start`]).
pub open spec fn attr_rest(line: Seq<char>, name: Seq<char>) -> Option<Seq<char>> {
    let search = name.push('=');
    match item_start(line, search, 0) {
        Some(p) => Some(line.skip(p + search.len())),
        None => None,
    }
}

/// `s` up to its first `c`, or all of it.
pub open spec fn up_to(s: Seq<char>, c: char) -> Seq<char> {
    match first_occurrence_from(s, seq![c], 0) {
        Some(e) => s.take(e),
        None => s,
    }
}

/// An attribute value read from the text after `NAME=`: a quoted value runs to
/// the next quote (or the end), an unquoted one to the first comma, else the
/// first space, else the end.
#[verifier::opaque]
pub open spec fn attr_text(rest: Seq<char>) -> Seq<char> {
    if rest.len() > 0 && rest[0] == '"' {
        up_to(rest.skip(1), '"')
    } else if first_occurrence_from(rest, seq![','], 0) is Some {
        up_to(rest, ',')
    } else {
        up_to(rest, ' ')
    }
}

/// The value of attribute `name` as `extract_attr` reads it.
pub open spec fn extract_attr_value(line: Seq<char>, name: Seq<char>) -> Option<Seq<char>> {
    match attr_rest(line, name) {
        Some(rest) => Some(attr_text(rest)),
        None => None,
    }
}

/// `v` up to its first `c`, or all of it.
fn up_to_char(v: &[char], c: char) -> (r: Vec<char>)
    ensures
        r@ == up_to(v@, c),
{
    let p = [c];
    proof {
        assert(p@ =~= seq![c]);
    }
    match find_from(v, &p, 0) {
        Some(e) => {
            let r = slice_chars(v, 0, e);
            proof {
                assert(r@ =~= v@.take(e as int));
            }
            r
        },
        None => {
            let r = slice_chars(v, 0, v.len());
            proof {
                assert(r@ =~= v@);
            }
            r
        },
    }
}

fn attr_text_of(rest: &[char]) -> (r: Vec<char>)
    ensures
        r@ == attr_text(rest@),
{
    proof {
        reveal(attr_text);
    }
    if rest.len() > 0 && rest[0] == '"' {
        let inner = slice_chars(rest, 1, rest.len());
        proof {
            assert(inner@ =~= rest@.skip(1));
        }
        up_to_char(&inner, '"')
    } else {
        let comma = [','];
        proof {
            assert(comma@ =~= seq![',']);
        }
        if find_from(rest, &comma, 0).is_some() {
            up_to_char(rest, ',')
        } else {
            up_to_char(rest, ' ')
        }
    }
}

/// The value of attribute `name` on `line`.
pub fn extract_attr(line: &[char], name: &str) -> (r: Option<Vec<char>>)
    ensures
        match r {
            Some(v) => extract_attr_value(line@, name@) == Some(v@),
            None => extract_attr_value(line@, name@) is None,
        },
{
    let mut search = chars_of(name);
    search.push('=');
    let p = match find_item_start(line, &search) {
        Some(p) => p,
        None => {
            return None;
        },
    };
    let line_len = line.len();
    let search_len = search.len();
    proof {
        lemma_item_start_occurs(line@, search@, 0);
        assert(occurs_at(line@, search@, p as int));
    }
    let start = p + search_len;
    let rest = slice_chars(line, start, line.len());
    proof {
        assert(rest@ =~= line@.skip(start as int));
    }
    Some(attr_text_of(&rest))
}

/// The value of a quoted attribute `name="..."` (first occurrence, anywhere on
/// the line), up to the next quote or the end of the line.
pub open spec fn quoted_attr_value(line: Seq<char>, name: Seq<char>) -> Option<Seq<char>> {
    let search = name + seq!['=', '"'];
    match first_occurrence_from(line, search, 0) {
        Some(p) => Some(up_to(line.skip(p + search.len()), '"')),
        None => None,
    }
}

/// The value of the quoted attribute `name` on `line`.
pub fn extract_quoted_attr(line: &[char], name: &str) -> (r: Option<Vec<char>>)
    ensures
        match r {
            Some(v) => quoted_attr_value(line@, name@) == Some(v@),
            None => quoted_attr_value(line@, name@) is None,
        },
{
    let mut search = chars_of(name);
    search.push('=');
    search.push('"');
    proof {
        assert(search@ =~= name@ + seq!['=', '"']);
    }
    let pos = match find_from(line, &search, 0) {
        Some(pos) => pos,
        None => {
            return None;
        },
    };
    let n = line.len();
    proof {
        assert(occurs_at(line@, search@, pos as int));
        assert(n == line@.len());
    }
    let start = pos + search.len();
    let rest = slice_chars(line, start, line.len());
    proof {
        assert(rest@ =~= line@.skip(start as int));
    }
    Some(up_to_char(&rest, '"'))
}

/// `relative` resolved against `base`: kept when absolute `http(s)`, joined
/// with the `url` crate otherwise, and kept as it is when that fails.
pub open spec fn resolved_or_relative(base: Seq<char>, relative: Seq<char>) -> Seq<char> {
    if is_absolute_http(relative) {
        relative
    } else {
        match spec_url_join(base, relative) {
            Some(u) => u,
            None => relative,
        }
    }
}

/// Resolves `relative` against `base`.
pub fn resolve_url(base: &str, relative: &[char]) -> (r: String)
    ensures
        r@ == resolved_or_relative(base@, relative@),
{
    if is_absolute_http_chars(relative) {
        return string_of(relative);
    }
    let rel = string_of(relative);
    match url_join(base, rel.as_str()) {
        Some(u) => u,
        None => rel,
    }
}

/// The 16 bytes big-endian form of a sequence number.
pub fn sequence_iv(seq: u64) -> (iv: [u8; 16])
    ensures
        iv@ == sequence_iv_bytes(seq),
{
    sequence_to_iv(seq)
}

/// Reads a 16-byte IV from its hexadecimal text (with an optional `0x`).
pub fn parse_iv_hex(s: &[char]) -> (r: Option<[u8; 16]>)
    requires
        hex_iv_safe(s@),
    ensures
        match r {
            Some(a) => hex_iv(s@) == Some(a@),
            None => hex_iv(s@) is None,
        },
{
    match parse_hex_iv(s) {
        Some(v) => {
            if v.len() != 16 {
                proof {
                    lemma_hex_iv_len(s@);
                }
                return None;
            }
            let mut a = [0u8; 16];
            let mut j: usize = 0;
            while j < 16
                invariant
                    v@.len() == 16,
                    j <= 16,
                    a@.len() == 16,
                    forall|i: int| 0 <= i < j ==> a@[i] == v@[i],
                decreases 16 - j,
            {
                a[j] = v[j];
                j = j + 1;
            }
            proof {
                assert(a@ =~= v@);
            }
            Some(a)
        },
        None => None,
    }
}

proof fn lemma_hex_pairs_len(p: Seq<char>)
    ensures
        crate::engine::hls::parser::hex_pairs(p) matches Some(b) ==> b.len() == p.len() / 2,
    decreases p.len(),
{
    if p.len() >= 2 {
        lemma_hex_pairs_len(p.skip(2));
    }
}

proof fn lemma_hex_iv_len(s: Seq<char>)
    ensures
        hex_iv(s) matches Some(b) ==> b.len() == 16,
{
    let p = crate::engine::hls::parser::pad32(crate::engine::hls::parser::iv_hex_digits(s));
    lemma_hex_pairs_len(p.take(32));
}

// ---------------------------------------------------------------------------
// Master playlists
// ---------------------------------------------------------------------------

/// The index of the first line at or after `j` that is not a comment.
pub open spec fn next_uri(lines: Seq<Seq<char>>, j: int) -> Option<int>
    decreases lines.len() - j,
{
    if j < 0 || j >= lines.len() {
        None
    } else if !starts_with(lines[j], seq!['#']) {
        Some(j)
    } else {
        next_uri(lines, j + 1)
    }
}

/// The quality described by the stream tag `tag` with URI line `uri`: the label
/// is the text after the `x` of a `WxH` resolution followed by `p`, or the
/// bandwidth in kbit/s followed by `k`.
#[verifier::opaque]
pub open spec fn quality_of(tag: Seq<char>, uri: Seq<char>, base: Seq<char>) -> QualityView {
    let bandwidth = match extract_attr_value(tag, "BANDWIDTH"@) {
        Some(v) => match parse_unsigned(v, u64::MAX as nat) {
            Some(n) => n as u64,
            None => 0,
        },
        None => 0,
    };
    let resolution = extract_attr_value(tag, "RESOLUTION"@);
    let kbps = dec_string((bandwidth / 1000) as nat).push('k');
    let label = match resolution {
        Some(r) => if split(r, seq!['x']).len() == 2 {
            split(r, seq!['x'])[1].push('p')
        } else {
            kbps
        },
        None => kbps,
    };
    QualityView { url: resolved_or_relative(base, uri), bandwidth, label, resolution }
}

/// The qualities listed from line `i` on: every stream tag, paired with the
/// first later line that is not a comment.
pub open spec fn qualities_scan(lines: Seq<Seq<char>>, i: int, base: Seq<char>) -> Seq<QualityView>
    decreases lines.len() - i,
{
    if i < 0 || i >= lines.len() {
        Seq::empty()
    } else if contains(lines[i], "#EXT-X-STREAM-INF"@) {
        match next_uri(lines, i + 1) {
            Some(j) => seq![quality_of(lines[i], lines[j], base)] + qualities_scan(lines, i + 1, base),
            None => qualities_scan(lines, i + 1, base),
        }
    } else {
        qualities_scan(lines, i + 1, base)
    }
}

/// The bandwidth of a quality, its sort key.
pub open spec fn quality_bandwidth(q: QualityView) -> u64 {
    q.bandwidth
}

/// The qualities of a master playlist, lowest bandwidth first (stable).
pub open spec fn master_qualities(lines: Seq<Seq<char>>, base: Seq<char>) -> Seq<QualityView> {
    sort_by_key(qualities_scan(lines, 0, base), |q: QualityView| quality_bandwidth(q))
}

/// The qualities of a master playlist come in ascending order of bandwidth,
/// each listed stream as often as it is listed.
pub proof fn law_qualities_ascending(lines: Seq<Seq<char>>, base: Seq<char>)
    ensures
        forall|i: int, j: int| 0 <= i <= j < master_qualities(lines, base).len()
            ==> (#[trigger] master_qualities(lines, base)[i]).bandwidth <= (#[trigger] master_qualities(lines, base)[j]).bandwidth,
        master_qualities(lines, base).to_multiset() =~= qualities_scan(lines, 0, base).to_multiset(),
{
    crate::sorting::law_sort_by_key_orders(qualities_scan(lines, 0, base), |q: QualityView| quality_bandwidth(q));
}

fn quality_from(tag: &[char], uri: &[char], base: &str) -> (r: HlsQuality)
    ensures
        r@ == quality_of(tag@, uri@, base@),
{
    proof {
        reveal(quality_of);
    }
    let bandwidth = match extract_attr(tag, "BANDWIDTH") {
        Some(v) => match parse_u64(&v) {
            Some(n) => n,
            None => 0,
        },
        None => 0,
    };
    let resolution = extract_attr(tag, "RESOLUTION");
    let label = match &resolution {
        Some(r) => {
            let parts = split_at_char(r, 'x');
            if parts.len() == 2 {
                let mut l = parts[1].clone();
                proof {
                    assert(l@ == parts@[1]@);
                }
                l.push('p');
                string_of(&l)
            } else {
                crate::text::number_with_suffix(bandwidth / 1000, 'k')
            }
        },
        None => crate::text::number_with_suffix(bandwidth / 1000, 'k'),
    };
    let url = resolve_url(base, uri);
    let res = match resolution {
        Some(r) => Some(string_of(&r)),
        None => None,
    };
    HlsQuality { url, bandwidth, label, resolution: res }
}

fn next_uri_exec(lines: &Vec<Vec<char>>, j: usize) -> (r: Option<usize>)
    ensures
        match r {
            Some(k) => next_uri(lines@.map_values(|l: Vec<char>| l@), j as int) == Some(k as int)
                && k < lines@.len(),
            None => next_uri(lines@.map_values(|l: Vec<char>| l@), j as int) is None,
        },
{
    let ghost ls = lines@.map_values(|l: Vec<char>| l@);
    let mut k = j;
    while k < lines.len()
        invariant
            j <= k,
            ls == lines@.map_values(|l: Vec<char>| l@),
            next_uri(ls, j as int) == next_uri(ls, k as int),
        decreases lines@.len() - k,
    {
        if !is_comment(&lines[k]) {
            return Some(k);
        }
        k = k + 1;
    }
    None
}

/// The qualities of a master playlist.
pub fn parse_master_playlist(lines: &Vec<Vec<char>>, base_url: &str) -> (r: Vec<HlsQuality>)
    ensures
        r@.map_values(|q: HlsQuality| q@) == master_qualities(
            lines@.map_values(|l: Vec<char>| l@),
            base_url@,
        ),
{
    let ghost ls = lines@.map_values(|l: Vec<char>| l@);
    let ghost whole = qualities_scan(ls, 0, base_url@);
    let ghost mut acc: Seq<QualityView> = Seq::empty();
    let mut qualities: Vec<HlsQuality> = Vec::new();
    let mut keys: Vec<u64> = Vec::new();
    let mut i: usize = 0;
    while i < lines.len()
        invariant
            i <= lines@.len(),
            ls == lines@.map_values(|l: Vec<char>| l@),
            whole == qualities_scan(ls, 0, base_url@),
            qualities@.len() == keys@.len(),
            forall|j: int| 0 <= j < qualities@.len() ==> keys@[j] == (#[trigger] qualities@[j]).bandwidth,
            qualities@.map_values(|q: HlsQuality| q@) == acc,
            whole == acc + qualities_scan(ls, i as int, base_url@),
        decreases lines@.len() - i,
    {
        if line_contains(&lines[i], "#EXT-X-STREAM-INF") {
            match next_uri_exec(lines, i + 1) {
                Some(j) => {
                    let q = quality_from(&lines[i], &lines[j], base_url);
                    let k = q.bandwidth;
                    let ghost qv = q@;
                    qualities.push(q);
                    keys.push(k);
                    proof {
                        acc = acc.push(qv);
                        assert(qualities@.map_values(|q: HlsQuality| q@) =~= acc);
                        assert(acc + qualities_scan(ls, i + 1, base_url@) =~= acc.drop_last() + (
                        seq![qv] + qualities_scan(ls, i + 1, base_url@)));
                    }
                },
                None => {},
            }
        }
        i = i + 1;
    }
    proof {
        assert(whole =~= acc);
    }
    stable_sort_by_key(qualities, keys, Ghost(|q: QualityView| quality_bandwidth(q)))
}

// ---------------------------------------------------------------------------
// Media playlists
// ---------------------------------------------------------------------------

/// The media sequence number: set by each `#EXT-X-MEDIA-SEQUENCE` line that has a
/// `:` to the number between its first and second `:` (or `0` when that does
/// not read as a number); `0` when no line sets it.
pub open spec fn hls_media_sequence(lines: Seq<Seq<char>>) -> u64
    decreases lines.len(),
{
    if lines.len() == 0 {
        0
    } else if contains(lines.last(), "#EXT-X-MEDIA-SEQUENCE"@) && split(lines.last(), seq![':']).len() > 1 {
        match parse_unsigned(trim(split(lines.last(), seq![':'])[1]), u64::MAX as nat) {
            Some(n) => n as u64,
            None => 0,
        }
    } else {
        hls_media_sequence(lines.drop_last())
    }
}

/// What the media playlist scan has gathered so far.
pub struct HState {
    pub segments: Seq<SegmentView>,
    pub current_key: Option<KeyView>,
    pub first_encryption: Option<KeyView>,
    pub seg_idx: u64,
    pub durations: Seq<Seq<char>>,
    pub init_map_url: Option<Seq<char>>,
    pub current_duration: Seq<char>,
}

pub open spec fn hstate_start() -> HState {
    HState {
        segments: Seq::empty(),
        current_key: None,
        first_encryption: None,
        seg_idx: 0,
        durations: Seq::empty(),
        init_map_url: None,
        current_duration: Seq::empty(),
    }
}

/// The method of a key line (empty when absent).
pub open spec fn hls_key_method(line: Seq<char>) -> Seq<char> {
    match extract_attr_value(line, "METHOD"@) {
        Some(m) => m,
        None => Seq::empty(),
    }
}

/// The AES-128 key described by a key line.
#[verifier::opaque]
pub open spec fn hls_key_of(line: Seq<char>, base: Seq<char>) -> KeyView {
    KeyView {
        uri: resolved_or_relative(
            base,
            match quoted_attr_value(line, "URI"@) {
                Some(u) => u,
                None => Seq::empty(),
            },
        ),
        iv: match extract_attr_value(line, "IV"@) {
            Some(v) => hex_iv(v),
            None => None,
        },
    }
}

/// The duration text of an `#EXTINF:` line: the text after the tag up to the
/// first comma.
pub open spec fn extinf_text(line: Seq<char>) -> Seq<char> {
    split(line.skip(8), seq![','])[0]
}

/// The effect of one line: `#EXT-X-MAP` sets the init segment, `#EXT-X-KEY`
/// sets (AES-128) or clears (`NONE`) the current key, `#EXTINF:` the duration of
/// the next segment; other comments are ignored and any other line is a
/// segment (numbered with wrapping `u64` arithmetic).
#[verifier::opaque]
pub open spec fn hls_step(st: HState, line: Seq<char>, base: Seq<char>, media_seq: u64) -> HState {
    if contains(line, "#EXT-X-MAP"@) {
        match quoted_attr_value(line, "URI"@) {
            Some(u) => HState { init_map_url: Some(resolved_or_relative(base, u)), ..st },
            None => st,
        }
    } else if contains(line, "#EXT-X-KEY"@) {
        let method = hls_key_method(line);
        if method == "NONE"@ {
            HState { current_key: None, ..st }
        } else if method == "AES-128"@ {
            let key = hls_key_of(line, base);
            HState {
                first_encryption: if st.first_encryption is None { Some(key) } else { st.first_encryption },
                current_key: Some(key),
                ..st
            }
        } else {
            st
        }
    } else if starts_with(line, "#EXTINF:"@) {
        let d = extinf_text(line);
        HState { current_duration: d, durations: st.durations.push(d), ..st }
    } else if starts_with(line, seq!['#']) {
        st
    } else {
        let seg = SegmentView {
            url: resolved_or_relative(base, line),
            seq: ((media_seq + st.seg_idx) % 0x1_0000_0000_0000_0000) as u64,
            duration: st.current_duration,
            key: st.current_key,
        };
        HState {
            segments: st.segments.push(seg),
            seg_idx: ((st.seg_idx + 1) % 0x1_0000_0000_0000_0000) as u64,
            current_duration: Seq::empty(),
            ..st
        }
    }
}

pub open spec fn hls_scan(lines: Seq<Seq<char>>, base: Seq<char>, media_seq: u64) -> HState
    decreases lines.len(),
{
    if lines.len() == 0 {
        hstate_start()
    } else {
        hls_step(hls_scan(lines.drop_last(), base, media_seq), lines.last(), base, media_seq)
    }
}

/// Reading this line would read an IV that slices inside a character.
#[verifier::opaque]
pub open spec fn hls_line_unsafe(line: Seq<char>) -> bool {
    !contains(line, "#EXT-X-MAP"@) && contains(line, "#EXT-X-KEY"@) && hls_key_method(line) == "AES-128"@
        && match extract_attr_value(line, "IV"@) {
        Some(v) => !hex_iv_safe(v),
        None => false,
    }
}

/// No line has an IV that cannot be read.
pub open spec fn hls_lines_safe(lines: Seq<Seq<char>>) -> bool {
    forall|i: int| 0 <= i < lines.len() ==> !hls_line_unsafe(#[trigger] lines[i])
}

/// The media playlist of `lines`: live unless some line holds `#EXT-X-ENDLIST`
/// or `#EXT-X-PLAYLIST-TYPE:VOD`.
pub open spec fn hls_media_playlist(lines: Seq<Seq<char>>, base: Seq<char>) -> MediaView {
    let st = hls_scan(lines, base, hls_media_sequence(lines));
    MediaView {
        segments: st.segments,
        durations: st.durations,
        is_live: !any_line_contains(lines, "#EXT-X-ENDLIST"@) && !any_line_contains(
            lines,
            "#EXT-X-PLAYLIST-TYPE:VOD"@,
        ),
        init_map_url: st.init_map_url,
        encryption: st.first_encryption,
    }
}

struct HAcc {
    segments: Vec<HlsSegment>,
    current_key: Option<HlsKey>,
    first_encryption: Option<HlsKey>,
    seg_idx: u64,
    durations: Vec<String>,
    init_map_url: Option<String>,
    current_duration: Vec<char>,
}

impl View for HAcc {
    type V = HState;

    closed spec fn view(&self) -> HState {
        HState {
            segments: self.segments@.map_values(|s: HlsSegment| s@),
            current_key: opt_key(self.current_key),
            first_encryption: opt_key(self.first_encryption),
            seg_idx: self.seg_idx,
            durations: self.durations@.map_values(|d: String| d@),
            init_map_url: opt_text(self.init_map_url),
            current_duration: self.current_duration@,
        }
    }
}

fn copy_key(k: &HlsKey) -> (r: HlsKey)
    ensures
        r@ == k@,
{
    HlsKey { uri: k.uri.clone(), iv: k.iv }
}

fn copy_opt_key(k: &Option<HlsKey>) -> (r: Option<HlsKey>)
    ensures
        opt_key(r) == opt_key(*k),
{
    match k {
        Some(k) => Some(copy_key(k)),
        None => None,
    }
}

fn hls_key_method_of(line: &[char]) -> (r: Vec<char>)
    ensures
        r@ == hls_key_method(line@),
{
    match extract_attr(line, "METHOD") {
        Some(m) => m,
        None => Vec::new(),
    }
}

fn hls_line_is_safe(line: &[char]) -> (r: bool)
    ensures
        r == !hls_line_unsafe(line@),
{
    proof {
        reveal(hls_line_unsafe);
    }
    if line_contains(line, "#EXT-X-MAP") || !line_contains(line, "#EXT-X-KEY") {
        return true;
    }
    let m = hls_key_method_of(line);
    if !crate::engine::hls::parser::chars_equal_str(&m, "AES-128") {
        return true;
    }
    match extract_attr(line, "IV") {
        Some(v) => hex_iv_is_safe(&v),
        None => true,
    }
}

fn hls_key_from(line: &[char], base: &str) -> (r: HlsKey)
    requires
        !hls_line_unsafe(line@),
        !contains(line@, "#EXT-X-MAP"@),
        contains(line@, "#EXT-X-KEY"@),
        hls_key_method(line@) == "AES-128"@,
    ensures
        r@ == hls_key_of(line@, base@),
{
    proof {
        reveal(hls_line_unsafe);
        reveal(hls_key_of);
    }
    let uri = match extract_quoted_attr(line, "URI") {
        Some(u) => u,
        None => Vec::new(),
    };
    let iv = match extract_attr(line, "IV") {
        Some(v) => parse_iv_hex(&v),
        None => None,
    };
    HlsKey { uri: resolve_url(base, &uri), iv }
}

fn hls_step_exec(acc: &mut HAcc, line: &[char], base: &str, media_seq: u64)
    requires
        !hls_line_unsafe(line@),
    ensures
        final(acc)@ == hls_step(old(acc)@, line@, base@, media_seq),
{
    proof {
        reveal(hls_step);
    }
    if line_contains(line, "#EXT-X-MAP") {
        match extract_quoted_attr(line, "URI") {
            Some(u) => {
                acc.init_map_url = Some(resolve_url(base, &u));
            },
            None => {},
        }
        return;
    }
    if line_contains(line, "#EXT-X-KEY") {
        let method = hls_key_method_of(line);
        if crate::engine::hls::parser::chars_equal_str(&method, "NONE") {
            acc.current_key = None;
        } else if crate::engine::hls::parser::chars_equal_str(&method, "AES-128") {
            let key = hls_key_from(line, base);
            if acc.first_encryption.is_none() {
                acc.first_encryption = Some(copy_key(&key));
            }
            acc.current_key = Some(key);
        }
        return;
    }
    if line_starts_with(line, "#EXTINF:") {
        let tag = chars_of("#EXTINF:");
        proof {
            reveal_strlit("#EXTINF:");
            assert(tag@ == "#EXTINF:"@);
            assert(tag@.len() == 8);
        }
        let after = slice_chars(line, tag.len(), line.len());
        let parts = split_at_char(&after, ',');
        let d = parts[0].clone();
        proof {
            assert(after@ =~= line@.skip(8));
            assert(d@ == parts@[0]@);
        }
        let ds = string_of(&d);
        acc.current_duration = d;
        acc.durations.push(ds);
        proof {
            assert(acc.durations@.map_values(|d: String| d@) =~= old(acc)@.durations.push(acc.current_duration@));
        }
        return;
    }
    if is_comment(line) {
        return;
    }
    let seg = HlsSegment {
        url: resolve_url(base, line),
        seq: media_seq.wrapping_add(acc.seg_idx),
        duration: string_of(&acc.current_duration),
        key: copy_opt_key(&acc.current_key),
    };
    let ghost sv = seg@;
    acc.segments.push(seg);
    acc.seg_idx = acc.seg_idx.wrapping_add(1);
    acc.current_duration = Vec::new();
    proof {
        assert(acc.segments@.map_values(|s: HlsSegment| s@) =~= old(acc)@.segments.push(sv));
        assert(acc.current_duration@ =~= Seq::<char>::empty());
    }
}

fn hls_media_sequence_exec(lines: &Vec<Vec<char>>) -> (r: u64)
    ensures
        r == hls_media_sequence(lines@.map_values(|l: Vec<char>| l@)),
{
    let ghost ls = lines@.map_values(|l: Vec<char>| l@);
    let mut r: u64 = 0;
    let mut i: usize = 0;
    while i < lines.len()
        invariant
            i <= lines@.len(),
            ls == lines@.map_values(|l: Vec<char>| l@),
            r == hls_media_sequence(ls.take(i as int)),
        decreases lines@.len() - i,
    {
        proof {
            assert(ls.take(i + 1).drop_last() =~= ls.take(i as int));
            assert(ls.take(i + 1).last() == lines@[i as int]@);
        }
        if line_contains(&lines[i], "#EXT-X-MEDIA-SEQUENCE") {
            let parts = split_at_char(&lines[i], ':');
            if parts.len() > 1 {
                let t = trim_chars(&parts[1]);
                r = match parse_u64(&t) {
                    Some(n) => n,
                    None => 0,
                };
            }
        }
        i = i + 1;
    }
    proof {
        assert(ls.take(lines@.len() as int) =~= ls);
    }
    r
}

/// The media playlist described by `lines`.
pub fn parse_media_playlist(lines: &Vec<Vec<char>>, base_url: &str) -> (r: HlsMediaPlaylist)
    requires
        hls_lines_safe(lines@.map_values(|l: Vec<char>| l@)),
    ensures
        r@ == hls_media_playlist(lines@.map_values(|l: Vec<char>| l@), base_url@),
{
    let ghost ls = lines@.map_values(|l: Vec<char>| l@);
    let media_seq = hls_media_sequence_exec(lines);
    let mut acc = HAcc {
        segments: Vec::new(),
        current_key: None,
        first_encryption: None,
        seg_idx: 0,
        durations: Vec::new(),
        init_map_url: None,
        current_duration: Vec::new(),
    };
    proof {
        assert(acc@.segments =~= Seq::<SegmentView>::empty());
        assert(acc@.durations =~= Seq::<Seq<char>>::empty());
        assert(acc@.current_duration =~= Seq::<char>::empty());
        assert(acc@ == hstate_start());
        assert(ls.take(0) =~= Seq::<Seq<char>>::empty());
    }
    let mut i: usize = 0;
    while i < lines.len()
        invariant
            i <= lines@.len(),
            ls == lines@.map_values(|l: Vec<char>| l@),
            hls_lines_safe(ls),
            acc@ == hls_scan(ls.take(i as int), base_url@, media_seq),
        decreases lines@.len() - i,
    {
        proof {
            assert(ls.take(i + 1).drop_last() =~= ls.take(i as int));
            assert(ls.take(i + 1).last() == lines@[i as int]@);
            assert(!hls_line_unsafe(ls[i as int]));
        }
        hls_step_exec(&mut acc, &lines[i], base_url, media_seq);
        i = i + 1;
    }
    proof {
        assert(ls.take(lines@.len() as int) =~= ls);
    }
    let has_endlist = any_line_contains_exec(lines, "#EXT-X-ENDLIST");
    let has_vod = any_line_contains_exec(lines, "#EXT-X-PLAYLIST-TYPE:VOD");
    let HAcc { segments, first_encryption, durations, init_map_url, .. } = acc;
    HlsMediaPlaylist {
        segments,
        durations,
        is_live: !has_endlist && !has_vod,
        init_map_url,
        encryption: first_encryption,
    }
}

fn hls_lines_safe_exec(lines: &Vec<Vec<char>>) -> (r: bool)
    ensures
        r == hls_lines_safe(lines@.map_values(|l: Vec<char>| l@)),
{
    let ghost ls = lines@.map_values(|l: Vec<char>| l@);
    let mut i: usize = 0;
    while i < lines.len()
        invariant
            i <= lines@.len(),
            ls == lines@.map_values(|l: Vec<char>| l@),
            forall|j: int| 0 <= j < i ==> !hls_line_unsafe(#[trigger] ls[j]),
        decreases lines@.len() - i,
    {
        if !hls_line_is_safe(&lines[i]) {
            proof {
                assert(hls_line_unsafe(ls[i as int]));
            }
            return false;
        }
        i = i + 1;
    }
    true
}

// ---------------------------------------------------------------------------
// Parse results
// ---------------------------------------------------------------------------

pub struct MediaInfoView {
    pub segments: nat,
    pub durations: Seq<Seq<char>>,
    pub is_live: bool,
    pub encrypted: bool,
}

pub struct ParseResultView {
    pub is_master: bool,
    pub qualities: Seq<QualityView>,
    pub media_info: Option<MediaInfoView>,
}

impl View for HlsParseResult {
    type V = ParseResultView;

    open spec fn view(&self) -> ParseResultView {
        ParseResultView {
            is_master: self.is_master,
            qualities: self.qualities@.map_values(|q: HlsQuality| q@),
            media_info: match self.media_info {
                Some(m) => Some(
                    MediaInfoView {
                        segments: m.segments as nat,
                        durations: m.durations@.map_values(|d: String| d@),
                        is_live: m.is_live,
                        encrypted: m.encrypted,
                    },
                ),
                None => None,
            },
        }
    }
}

/// Reading `text` as a playlist reads no IV that slices inside a character.
pub open spec fn hls_text_panic_free(text: Seq<char>) -> bool {
    let lines = playlist_lines(text);
    !any_line_contains(lines, "#EXT-X-STREAM-INF"@) ==> hls_lines_safe(lines)
}

/// What a playlist `text` fetched from `url` offers: the qualities of a master
/// playlist; or for a media playlist, one `Default` quality (the URL itself, of
/// bandwidth 0) and the playlist's summary.
pub open spec fn hls_parse_result(url: Seq<char>, text: Seq<char>) -> ParseResultView {
    let lines = playlist_lines(text);
    if any_line_contains(lines, "#EXT-X-STREAM-INF"@) {
        ParseResultView { is_master: true, qualities: master_qualities(lines, url), media_info: None }
    } else {
        let media = hls_media_playlist(lines, url);
        ParseResultView {
            is_master: false,
            qualities: seq![QualityView { url, bandwidth: 0, label: "Default"@, resolution: None }],
            media_info: Some(
                MediaInfoView {
                    segments: media.segments.len(),
                    durations: media.durations,
                    is_live: media.is_live,
                    encrypted: media.encryption is Some,
                },
            ),
        }
    }
}

/// Is `text` free of IV texts that reading it would slice inside a character?
pub fn hls_text_is_panic_free(text: &str) -> (r: bool)
    ensures
        r == hls_text_panic_free(text@),
{
    let lines = playlist_lines_of(text);
    if any_line_contains_exec(&lines, "#EXT-X-STREAM-INF") {
        true
    } else {
        hls_lines_safe_exec(&lines)
    }
}

/// Reads the playlist `text` fetched from `url`.
pub fn parse_hls_url(url: &str, text: &str) -> (r: HlsParseResult)
    requires
        hls_text_panic_free(text@),
    ensures
        r@ == hls_parse_result(url@, text@),
{
    let lines = playlist_lines_of(text);
    if any_line_contains_exec(&lines, "#EXT-X-STREAM-INF") {
        let qualities = parse_master_playlist(&lines, url);
        HlsParseResult { is_master: true, qualities, media_info: None }
    } else {
        let media = parse_media_playlist(&lines, url);
        let ghost mv = media@;
        let q = HlsQuality {
            url: string_of(&chars_of(url)),
            bandwidth: 0,
            label: string_of(&chars_of("Default")),
            resolution: None,
        };
        let mut qualities: Vec<HlsQuality> = Vec::new();
        qualities.push(q);
        let info = HlsMediaInfo {
            segments: media.segments.len(),
            durations: media.durations,
            is_live: media.is_live,
            encrypted: media.encryption.is_some(),
        };
        let r = HlsParseResult { is_master: false, qualities, media_info: Some(info) };
        proof {
            assert(r@.qualities =~= seq![QualityView { url: url@, bandwidth: 0, label: "Default"@, resolution: None }]);
        }
        r
    }
}

// ---------------------------------------------------------------------------
// Download decisions
// ---------------------------------------------------------------------------

/// The quality to download among `count` (lowest bandwidth first): the one
/// asked for, capped at the best, or the best when none is asked for; none
/// when there is no quality.
pub open spec fn chosen_quality(quality_idx: Option<usize>, count: usize) -> Option<usize> {
    if count == 0 {
        None
    } else {
        let want = match quality_idx {
            Some(i) => i,
            None => (count - 1) as usize,
        };
        Some(if want < count - 1 { want } else { (count - 1) as usize })
    }
}

/// Picks the quality to download.
pub fn select_quality_index(quality_idx: Option<usize>, count: usize) -> (r: Option<usize>)
    ensures
        r == chosen_quality(quality_idx, count),
        r matches Some(i) ==> i < count,
{
    if count == 0 {
        return None;
    }
    let want = match quality_idx {
        Some(i) => i,
        None => count - 1,
    };
    Some(if want < count - 1 { want } else { count - 1 })
}

/// The IV of a segment: its key's IV, else the playlist's, else its sequence
/// number.
pub open spec fn segment_iv(key_iv: Option<Seq<u8>>, default_iv: Option<Seq<u8>>, seq: u64) -> Seq<u8> {
    match key_iv {
        Some(v) => v,
        None => match default_iv {
            Some(d) => d,
            None => sequence_iv_bytes(seq),
        },
    }
}

/// Chooses the IV to decrypt a segment with.
pub fn choose_segment_iv(key_iv: Option<[u8; 16]>, default_iv: Option<[u8; 16]>, seq: u64) -> (r: [u8; 16])
    ensures
        r@ == segment_iv(
            match key_iv {
                Some(a) => Some(a@),
                None => None,
            },
            match default_iv {
                Some(a) => Some(a@),
                None => None,
            },
            seq,
        ),
{
    match key_iv {
        Some(v) => v,
        None => match default_iv {
            Some(d) => d,
            None => sequence_iv(seq),
        },
    }
}

/// A fetched key must be 16 bytes.
pub fn check_key_size(key_bytes: &[u8]) -> (r: Result<(), String>)
    ensures
        r is Ok <==> key_bytes@.len() == 16,
        r matches Err(e) ==> e@ == "Key size "@ + dec_string(key_bytes@.len()) + " != 16"@,
{
    if key_bytes.len() == 16 {
        return Ok(());
    }
    let mut m = chars_of("Key size ");
    let n = u64_to_chars(key_bytes.len() as u64);
    push_all(&mut m, &n);
    let tail = chars_of(" != 16");
    push_all(&mut m, &tail);
    Err(string_of(&m))
}

/// The bytes of the downloaded parts, in order, skipping the missing ones.
pub open spec fn concat_present(parts: Seq<Option<Seq<u8>>>) -> Seq<u8>
    decreases parts.len(),
{
    if parts.len() == 0 {
        Seq::empty()
    } else {
        concat_present(parts.drop_last()) + match parts.last() {
            Some(p) => p,
            None => Seq::empty(),
        }
    }
}

pub open spec fn opt_bytes_seq(parts: Seq<Option<Vec<u8>>>) -> Seq<Option<Seq<u8>>> {
    parts.map_values(|p: Option<Vec<u8>>| match p {
        Some(v) => Some(v@),
        None => None,
    })
}

/// The stream file: the init segment (if any) followed by every downloaded
/// segment in playlist order; failed segments are left out.
pub fn assemble_segments(init: &Option<Vec<u8>>, parts: &Vec<Option<Vec<u8>>>) -> (r: Vec<u8>)
    ensures
        r@ == match init {
            Some(i) => i@,
            None => Seq::empty(),
        } + concat_present(opt_bytes_seq(parts@)),
{
    let ghost ps = opt_bytes_seq(parts@);
    let mut out: Vec<u8> = Vec::new();
    match init {
        Some(i) => {
            append_bytes(&mut out, i);
        },
        None => {},
    }
    let ghost head = out@;
    let mut k: usize = 0;
    while k < parts.len()
        invariant
            k <= parts@.len(),
            ps == opt_bytes_seq(parts@),
            out@ == head + concat_present(ps.take(k as int)),
        decreases parts@.len() - k,
    {
        proof {
            assert(ps.take(k + 1).drop_last() =~= ps.take(k as int));
        }
        match &parts[k] {
            Some(d) => {
                append_bytes(&mut out, d);
            },
            None => {},
        }
        proof {
            assert(out@ =~= head + concat_present(ps.take(k + 1)));
        }
        k = k + 1;
    }
    proof {
        assert(ps.take(parts@.len() as int) =~= ps);
    }
    out
}

/// Appends `b` to `out`.
pub fn append_bytes(out: &mut Vec<u8>, b: &[u8])
    ensures
        final(out)@ == old(out)@ + b@,
{
    let mut i: usize = 0;
    while i < b.len()
        invariant
            i <= b@.len(),
            out@ == old(out)@ + b@.take(i as int),
        decreases b@.len() - i,
    {
        out.push(b[i]);
        i = i + 1;
        proof {
            assert(out@ =~= old(out)@ + b@.take(i as int));
        }
    }
    proof {
        assert(b@.take(b@.len() as int) =~= b@);
    }
}

/// Sequence numbers of the live segments already recorded.
pub struct SeenSequences {
    seqs: std::collections::HashSet<u64>,
}

impl View for SeenSequences {
    type V = Set<u64>;

    closed spec fn view(&self) -> Set<u64> {
        self.seqs@
    }
}

impl SeenSequences {
    /// No segment recorded yet.
    pub fn new() -> (r: Self)
        ensures
            r@ == Set::<u64>::empty(),
    {
        SeenSequences { seqs: std::collections::HashSet::new() }
    }

    /// Has segment `seq` been recorded?
    pub fn contains(&self, seq: u64) -> (r: bool)
        ensures
            r == self@.contains(seq),
    {
        broadcast use vstd::std_specs::hash::group_hash_axioms;
        self.seqs.contains(&seq)
    }

    /// Records segment `seq`.
    pub fn insert(&mut self, seq: u64)
        ensures
            final(self)@ == old(self)@.insert(seq),
    {
        broadcast use vstd::std_specs::hash::group_hash_axioms;
        self.seqs.insert(seq);
    }
}

/// What `decrypt_aes128` gives: a key of the wrong length is refused; empty
/// data decrypts to nothing; otherwise PKCS#7 decryption, and when that fails,
/// the data padded with zero bytes to whole blocks decrypted without unpadding.
pub open spec fn aes128_lenient(key: Seq<u8>, iv: Seq<u8>, data: Seq<u8>) -> Result<Seq<u8>, Seq<char>> {
    if key.len() != 16 {
        Err("Key length "@ + dec_string(key.len()) + " != 16"@)
    } else if data.len() == 0 {
        Ok(Seq::empty())
    } else if data.len() % 16 == 0 && pkcs7_unpad(spec_aes128_cbc_decrypt(key, iv, data)) is Some {
        Ok(pkcs7_unpad(spec_aes128_cbc_decrypt(key, iv, data)).unwrap())
    } else {
        Ok(spec_aes128_cbc_decrypt(key, iv, zero_padded_blocks(data)))
    }
}

/// `data` followed by zero bytes up to a multiple of 16 bytes.
pub open spec fn zero_padded_blocks(data: Seq<u8>) -> Seq<u8> {
    data + Seq::new(((16 - data.len() % 16) % 16) as nat, |i: int| 0u8)
}

/// Decrypts an HLS segment with `key`, tolerating streams without PKCS#7
/// padding.
pub fn decrypt_aes128(data: &[u8], key: &[u8], iv: &[u8; 16]) -> (r: Result<Vec<u8>, String>)
    ensures
        match (r, aes128_lenient(key@, iv@, data@)) {
            (Ok(v), Ok(p)) => v@ == p,
            (Err(e), Err(m)) => e@ == m,
            _ => false,
        },
{
    if key.len() != 16 {
        let mut m = chars_of("Key length ");
        let n = u64_to_chars(key.len() as u64);
        push_all(&mut m, &n);
        let tail = chars_of(" != 16");
        push_all(&mut m, &tail);
        return Err(string_of(&m));
    }
    if data.len() == 0 {
        return Ok(Vec::new());
    }
    let mut key_arr = [0u8; 16];
    let mut j: usize = 0;
    while j < 16
        invariant
            key@.len() == 16,
            j <= 16,
            key_arr@.len() == 16,
            forall|i: int| 0 <= i < j ==> key_arr@[i] == key@[i],
        decreases 16 - j,
    {
        key_arr[j] = key[j];
        j = j + 1;
    }
    proof {
        assert(key_arr@ =~= key@);
    }
    match aes128_cbc_decrypt_pkcs7(&key_arr, iv, data) {
        Ok(p) => Ok(p),
        Err(_) => {
            let mut buf: Vec<u8> = Vec::new();
            let mut i: usize = 0;
            while i < data.len()
                invariant
                    i <= data@.len(),
                    buf@ == data@.take(i as int),
                decreases data@.len() - i,
            {
                buf.push(data[i]);
                i = i + 1;
                proof {
                    assert(buf@ =~= data@.take(i as int));
                }
            }
            let pad_len = (16 - data.len() % 16) % 16;
            let mut k: usize = 0;
            while k < pad_len
                invariant
                    k <= pad_len,
                    buf@ == data@ + Seq::new(k as nat, |i: int| 0u8),
                decreases pad_len - k,
            {
                buf.push(0u8);
                k = k + 1;
                proof {
                    assert(buf@ =~= data@ + Seq::new(k as nat, |i: int| 0u8));
                }
            }
            proof {
                assert(data@.take(data@.len() as int) =~= data@);
                assert(buf@ =~= zero_padded_blocks(data@));
                assert(buf@.len() % 16 == 0);
            }
            match aes128_cbc_decrypt_raw(&key_arr, iv, &buf) {
                Ok(p) => Ok(p),
                Err(_) => Err(string_of(&chars_of("Decryption failed"))),
            }
        },
    }
}


} // verus!
