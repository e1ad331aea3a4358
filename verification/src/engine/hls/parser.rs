//! M3U8 playlist parser (master and media playlists).
//!
//! A playlist is read as its non-empty trimmed lines. A playlist whose first
//! line holds `#EXTM3U` is a master playlist when any line holds
//! `#EXT-X-STREAM-INF`, and a media playlist otherwise.
//!
//! Segment durations are kept as the text written after `#EXTINF:` (with the
//! trailing commas removed); reading that text as a floating-point number is
//! left to the caller.
use vstd::prelude::*;
use crate::text::{
    after_last, after_last_char, find_item_start, item_start, lemma_item_start_occurs, occurs_at, chars_of, contains, contains_chars, dec_string, find_from,
    first_occurrence_from, is_blank, join, join_chars, number_with_suffix, parse_u32, parse_u64,
    parse_unsigned, push_all, slice_chars, split, split_acc, split_at_char, split_chars, starts_with,
    starts_with_chars, string_of, trim, trim_chars, trim_end_char, trim_end_char_chars,
};
use crate::urls::{is_absolute_http, is_absolute_http_chars, spec_url_join, url_join};
use crate::sorting::{sort_by_key, stable_sort_by_key};

verus! {

// ---------------------------------------------------------------------------
// Types
// ---------------------------------------------------------------------------

/// A master playlist: the variant streams, lowest bandwidth first.
#[derive(Debug, Clone)]
pub struct HlsMasterPlaylist {
    pub variants: Vec<HlsVariant>,
}

/// One variant stream of a master playlist.
#[derive(Debug, Clone)]
pub struct HlsVariant {
    pub url: String,
    pub bandwidth: u64,
    pub height: Option<u32>,
    pub label: String,
}

/// A media playlist.
#[derive(Debug, Clone)]
pub struct HlsMediaPlaylist {
    pub segments: Vec<HlsSegment>,
    pub encryption: Option<HlsEncryption>,
    pub init_map_url: Option<String>,
    pub init_map_byterange: Option<ByteRange>,
    /// The duration text of every `#EXTINF` line, in order; the playlist's total
    /// duration is the sum of their values.
    pub durations: Vec<String>,
    pub is_live: bool,
    pub media_sequence: u64,
    pub has_discontinuity: bool,
}

/// One media segment.
#[derive(Debug, Clone)]
pub struct HlsSegment {
    pub url: String,
    /// The duration text of the `#EXTINF` line that precedes the segment, or
    /// the empty text when there is none (a duration of zero).
    pub duration: String,
    pub sequence: u64,
    pub iv: Option<Vec<u8>>,
    pub byterange: Option<ByteRange>,
    pub is_discontinuity: bool,
}

/// A byte range `length[@offset]`.
#[derive(Debug, Clone, Copy, PartialEq, Eq)]
pub struct ByteRange {
    pub length: u64,
    pub offset: Option<u64>,
}

/// An `#EXT-X-KEY` encryption description.
#[derive(Debug, Clone)]
pub struct HlsEncryption {
    pub method: String,
    pub key_uri: String,
    pub iv: Option<Vec<u8>>,
}

/// Either kind of playlist.
pub enum M3u8Result {
    Master(HlsMasterPlaylist),
    Media(HlsMediaPlaylist),
}

// ---------------------------------------------------------------------------
// Views
// ---------------------------------------------------------------------------

pub open spec fn opt_bytes(o: Option<Vec<u8>>) -> Option<Seq<u8>> {
    match o {
        Some(v) => Some(v@),
        None => None,
    }
}

pub open spec fn opt_text(o: Option<String>) -> Option<Seq<char>> {
    match o {
        Some(s) => Some(s@),
        None => None,
    }
}

pub struct VariantView {
    pub url: Seq<char>,
    pub bandwidth: u64,
    pub height: Option<u32>,
    pub label: Seq<char>,
}

impl View for HlsVariant {
    type V = VariantView;

    open spec fn view(&self) -> VariantView {
        VariantView { url: self.url@, bandwidth: self.bandwidth, height: self.height, label: self.label@ }
    }
}

pub struct EncryptionView {
    pub method: Seq<char>,
    pub key_uri: Seq<char>,
    pub iv: Option<Seq<u8>>,
}

impl View for HlsEncryption {
    type V = EncryptionView;

    open spec fn view(&self) -> EncryptionView {
        EncryptionView { method: self.method@, key_uri: self.key_uri@, iv: opt_bytes(self.iv) }
    }
}

pub open spec fn opt_enc(o: Option<HlsEncryption>) -> Option<EncryptionView> {
    match o {
        Some(e) => Some(e@),
        None => None,
    }
}

pub struct SegmentView {
    pub url: Seq<char>,
    pub duration: Seq<char>,
    pub sequence: u64,
    pub iv: Option<Seq<u8>>,
    pub byterange: Option<ByteRange>,
    pub is_discontinuity: bool,
}

impl View for HlsSegment {
    type V = SegmentView;

    open spec fn view(&self) -> SegmentView {
        SegmentView {
            url: self.url@,
            duration: self.duration@,
            sequence: self.sequence,
            iv: opt_bytes(self.iv),
            byterange: self.byterange,
            is_discontinuity: self.is_discontinuity,
        }
    }
}

pub struct MediaView {
    pub segments: Seq<SegmentView>,
    pub encryption: Option<EncryptionView>,
    pub init_map_url: Option<Seq<char>>,
    pub init_map_byterange: Option<ByteRange>,
    pub durations: Seq<Seq<char>>,
    pub is_live: bool,
    pub media_sequence: u64,
    pub has_discontinuity: bool,
}

impl View for HlsMediaPlaylist {
    type V = MediaView;

    open spec fn view(&self) -> MediaView {
        MediaView {
            segments: self.segments@.map_values(|s: HlsSegment| s@),
            encryption: opt_enc(self.encryption),
            init_map_url: opt_text(self.init_map_url),
            init_map_byterange: self.init_map_byterange,
            durations: self.durations@.map_values(|d: String| d@),
            is_live: self.is_live,
            media_sequence: self.media_sequence,
            has_discontinuity: self.has_discontinuity,
        }
    }
}

// ---------------------------------------------------------------------------
// Lines
// ---------------------------------------------------------------------------

/// The trimmed, non-empty lines among `pieces`.
pub open spec fn nonempty_trimmed(pieces: Seq<Seq<char>>) -> Seq<Seq<char>>
    decreases pieces.len(),
{
    if pieces.len() == 0 {
        Seq::empty()
    } else {
        let rest = nonempty_trimmed(pieces.drop_last());
        let t = trim(pieces.last());
        if t.len() == 0 {
            rest
        } else {
            rest.push(t)
        }
    }
}

/// The lines of a playlist: `content.lines()`, trimmed, without empty lines.
pub open spec fn playlist_lines(content: Seq<char>) -> Seq<Seq<char>> {
    nonempty_trimmed(split(content, seq!['\n']))
}

/// The trimmed, non-empty lines of `content`.
pub fn playlist_lines_of(content: &str) -> (r: Vec<Vec<char>>)
    ensures
        r@.map_values(|l: Vec<char>| l@) == playlist_lines(content@),
{
    let v = chars_of(content);
    let pieces = split_at_char(&v, '\n');
    let ghost ps = split(v@, seq!['\n']);
    let mut out: Vec<Vec<char>> = Vec::new();
    let mut i: usize = 0;
    while i < pieces.len()
        invariant
            i <= pieces@.len(),
            ps == split(v@, seq!['\n']),
            pieces@.len() == ps.len(),
            forall|j: int| 0 <= j < pieces@.len() ==> #[trigger] pieces@[j]@ == ps[j],
            out@.map_values(|l: Vec<char>| l@) == nonempty_trimmed(ps.take(i as int)),
        decreases pieces@.len() - i,
    {
        let t = trim_chars(&pieces[i]);
        proof {
            assert(ps.take(i + 1).drop_last() =~= ps.take(i as int));
            assert(ps.take(i + 1).last() == pieces@[i as int]@);
        }
        if t.len() > 0 {
            out.push(t);
        }
        proof {
            assert(out@.map_values(|l: Vec<char>| l@) =~= nonempty_trimmed(ps.take(i + 1)));
        }
        i = i + 1;
    }
    proof {
        assert(ps.take(pieces@.len() as int) =~= ps);
    }
    out
}

/// Does any line contain `needle`?
pub open spec fn any_line_contains(lines: Seq<Seq<char>>, needle: Seq<char>) -> bool {
    exists|i: int| 0 <= i < lines.len() && contains(#[trigger] lines[i], needle)
}

pub fn any_line_contains_exec(lines: &Vec<Vec<char>>, needle: &str) -> (r: bool)
    ensures
        r == any_line_contains(lines@.map_values(|l: Vec<char>| l@), needle@),
{
    let n = chars_of(needle);
    let ghost ls = lines@.map_values(|l: Vec<char>| l@);
    let mut i: usize = 0;
    while i < lines.len()
        invariant
            i <= lines@.len(),
            ls == lines@.map_values(|l: Vec<char>| l@),
            n@ == needle@,
            forall|j: int| 0 <= j < i ==> !contains(#[trigger] ls[j], needle@),
        decreases lines@.len() - i,
    {
        if contains_chars(&lines[i], &n) {
            assert(contains(ls[i as int], needle@));
            return true;
        }
        i = i + 1;
    }
    false
}

// ---------------------------------------------------------------------------
// Attribute lists, byte ranges, IVs and URLs
// ---------------------------------------------------------------------------

/// The value of attribute `name` in a tag line, as `parse_attr` reads it: the
/// first `NAME=` that starts an item (the line, or right after the tag's colon
/// or a comma; see [`item_start`]) is taken; a quoted value runs to
/// the next quote (and there must be one), an unquoted one to the next comma.
pub open spec fn attr_value(tag: Seq<char>, name: Seq<char>) -> Option<Seq<char>> {
    let search = name.push('=');
    match item_start(tag, search, 0) {
        Some(p) => {
            let rest = tag.skip(p + search.len());
            if rest.len() > 0 && rest[0] == '"' {
                let inner = rest.skip(1);
                match first_occurrence_from(inner, seq!['"'], 0) {
                    Some(e) => Some(inner.take(e)),
                    None => None,
                }
            } else {
                match first_occurrence_from(rest, seq![','], 0) {
                    Some(e) => Some(rest.take(e)),
                    None => Some(rest),
                }
            }
        },
        None => None,
    }
}

/// The value of attribute `name` in the tag line `tag`.
pub fn parse_attr(tag: &[char], name: &str) -> (r: Option<Vec<char>>)
    ensures
        match r {
            Some(v) => attr_value(tag@, name@) == Some(v@),
            None => attr_value(tag@, name@) is None,
        },
{
    let mut search = chars_of(name);
    search.push('=');
    let p = match find_item_start(tag, &search) {
        Some(p) => p,
        None => {
            return None;
        },
    };
    let tag_len = tag.len();
    let search_len = search.len();
    proof {
        lemma_item_start_occurs(tag@, search@, 0);
        assert(occurs_at(tag@, search@, p as int));
    }
    let start = p + search_len;
    let rest = slice_chars(tag, start, tag.len());
    proof {
        assert(rest@ =~= tag@.skip(start as int));
    }
    if rest.len() > 0 && rest[0] == '"' {
        let inner = slice_chars(&rest, 1, rest.len());
        proof {
            assert(inner@ =~= rest@.skip(1));
        }
        let q = ['"'];
        proof {
            assert(q@ =~= seq!['"']);
        }
        match find_from(&inner, &q, 0) {
            Some(e) => {
                let v = slice_chars(&inner, 0, e);
                proof {
                    assert(v@ =~= inner@.take(e as int));
                }
                Some(v)
            },
            None => None,
        }
    } else {
        let c = [','];
        proof {
            assert(c@ =~= seq![',']);
        }
        match find_from(&rest, &c, 0) {
            Some(e) => {
                let v = slice_chars(&rest, 0, e);
                proof {
                    assert(v@ =~= rest@.take(e as int));
                }
                Some(v)
            },
            None => Some(rest),
        }
    }
}

/// A byte range `length[@offset]`: the length must parse; the offset is read
/// from the second `@`-piece when there is one (and may fail to parse), and is
/// `default_offset` otherwise.
pub open spec fn byterange_value(val: Seq<char>, default_offset: u64) -> Option<ByteRange> {
    let parts = split(val, seq!['@']);
    match parse_unsigned(parts[0], u64::MAX as nat) {
        Some(length) => Some(
            ByteRange {
                length: length as u64,
                offset: if parts.len() > 1 {
                    match parse_unsigned(parts[1], u64::MAX as nat) {
                        Some(o) => Some(o as u64),
                        None => None,
                    }
                } else {
                    Some(default_offset)
                },
            },
        ),
        None => None,
    }
}

/// Parses a byte range like `1024@0` or `1024`.
pub fn parse_byterange_value(val: &[char], default_offset: u64) -> (r: Option<ByteRange>)
    ensures
        r == byterange_value(val@, default_offset),
{
    let parts = split_at_char(val, '@');
    let length = match parse_u64(&parts[0]) {
        Some(l) => l,
        None => {
            return None;
        },
    };
    let offset = if parts.len() > 1 {
        parse_u64(&parts[1])
    } else {
        Some(default_offset)
    };
    Some(ByteRange { length, offset })
}

/// An ASCII hexadecimal digit.
pub open spec fn is_hex(c: char) -> bool {
    ('0' <= c && c <= '9') || ('a' <= c && c <= 'f') || ('A' <= c && c <= 'F')
}

/// The value of a hexadecimal digit.
pub open spec fn hex_value(c: char) -> nat {
    if '0' <= c && c <= '9' {
        (c as u32 - '0' as u32) as nat
    } else if 'a' <= c && c <= 'f' {
        (c as u32 - 'a' as u32 + 10) as nat
    } else {
        (c as u32 - 'A' as u32 + 10) as nat
    }
}

/// `u8::from_str_radix(pair, 16)` for a two-character ASCII text: either two
/// hexadecimal digits, or `+` and one digit.
pub open spec fn hex_byte(a: char, b: char) -> Option<u8> {
    if a == '+' && is_hex(b) {
        Some(hex_value(b) as u8)
    } else if is_hex(a) && is_hex(b) {
        Some((hex_value(a) * 16 + hex_value(b)) as u8)
    } else {
        None
    }
}

/// The number of bytes of `c` in UTF-8.
pub open spec fn utf8_len(c: char) -> nat {
    let n = c as u32;
    if n < 0x80 {
        1
    } else if n < 0x800 {
        2
    } else if n < 0x1_0000 {
        3
    } else {
        4
    }
}

/// Slicing the first 32 bytes of `p` (whose first character starts at byte `b`)
/// into two-byte pieces never cuts a character: no character before byte 32 is
/// three or four bytes long, or two bytes long and starting at an odd byte.
pub open spec fn pair_slicing_ok(p: Seq<char>, b: nat) -> bool
    decreases p.len(),
{
    if b >= 32 || p.len() == 0 {
        true
    } else {
        let l = utf8_len(p[0]);
        !(l >= 3 || (l == 2 && b % 2 == 1)) && pair_slicing_ok(p.skip(1), b + l)
    }
}

/// The hexadecimal text of an IV without its `0x`/`0X` prefix.
pub open spec fn iv_hex_digits(hex: Seq<char>) -> Seq<char> {
    if starts_with(hex, seq!['0', 'x']) {
        hex.skip(2)
    } else if starts_with(hex, seq!['0', 'X']) {
        hex.skip(2)
    } else {
        hex
    }
}

/// `s` left-padded with `0` to at least 32 characters.
pub open spec fn pad32(s: Seq<char>) -> Seq<char> {
    if s.len() < 32 {
        Seq::new((32 - s.len()) as nat, |i: int| '0') + s
    } else {
        s
    }
}

/// The 16 bytes read from the 32 ASCII characters `p`, two at a time.
pub open spec fn hex_pairs(p: Seq<char>) -> Option<Seq<u8>>
    decreases p.len(),
{
    if p.len() < 2 {
        Some(Seq::empty())
    } else {
        match (hex_byte(p[0], p[1]), hex_pairs(p.skip(2))) {
            (Some(b), Some(rest)) => Some(seq![b] + rest),
            _ => None,
        }
    }
}

/// Reading an IV never slices its padded text inside a character.
pub open spec fn hex_iv_safe(hex: Seq<char>) -> bool {
    pair_slicing_ok(pad32(iv_hex_digits(hex)), 0)
}

/// The IV that `parse_hex_iv` reads from `hex`: drop a `0x`/`0X` prefix, pad
/// on the left with `0` to 32 characters, and read the first 32 bytes as 16
/// two-character hexadecimal numbers.
pub open spec fn hex_iv(hex: Seq<char>) -> Option<Seq<u8>> {
    let p = pad32(iv_hex_digits(hex));
    if forall|i: int| 0 <= i < 32 ==> ((#[trigger] p[i]) as u32) < 0x80 {
        hex_pairs(p.take(32))
    } else {
        None
    }
}

/// Is `c` an ASCII hexadecimal digit?
fn is_hex_char(c: char) -> (r: bool)
    ensures
        r == is_hex(c),
{
    ('0' <= c && c <= '9') || ('a' <= c && c <= 'f') || ('A' <= c && c <= 'F')
}

fn hex_value_of(c: char) -> (r: u32)
    requires
        is_hex(c),
    ensures
        r == hex_value(c),
        r < 16,
{
    if '0' <= c && c <= '9' {
        c as u32 - '0' as u32
    } else if 'a' <= c && c <= 'f' {
        c as u32 - 'a' as u32 + 10
    } else {
        c as u32 - 'A' as u32 + 10
    }
}

fn hex_byte_of(a: char, b: char) -> (r: Option<u8>)
    ensures
        r == hex_byte(a, b),
{
    if a == '+' && is_hex_char(b) {
        Some(hex_value_of(b) as u8)
    } else if is_hex_char(a) && is_hex_char(b) {
        Some((hex_value_of(a) * 16 + hex_value_of(b)) as u8)
    } else {
        None
    }
}

fn utf8_len_of(c: char) -> (r: usize)
    ensures
        r == utf8_len(c),
{
    let n = c as u32;
    if n < 0x80 {
        1
    } else if n < 0x800 {
        2
    } else if n < 0x1_0000 {
        3
    } else {
        4
    }
}

/// The IV text with its `0x` prefix removed and padded to 32 characters.
pub fn padded_iv_digits(hex: &[char]) -> (r: Vec<char>)
    ensures
        r@ == pad32(iv_hex_digits(hex@)),
        r@.len() >= 32,
{
    let a = ['0', 'x'];
    let b = ['0', 'X'];
    proof {
        assert(a@ =~= seq!['0', 'x']);
        assert(b@ =~= seq!['0', 'X']);
    }
    let digits = if starts_with_chars(hex, &a) || starts_with_chars(hex, &b) {
        let d = slice_chars(hex, 2, hex.len());
        proof {
            assert(d@ =~= hex@.skip(2));
        }
        d
    } else {
        slice_chars(hex, 0, hex.len())
    };
    proof {
        assert(hex@.subrange(0, hex@.len() as int) =~= hex@);
    }
    if digits.len() < 32 {
        let mut r: Vec<char> = Vec::new();
        let k = 32 - digits.len();
        let mut i: usize = 0;
        while i < k
            invariant
                i <= k,
                r@ == Seq::new(i as nat, |j: int| '0'),
            decreases k - i,
        {
            r.push('0');
            i = i + 1;
            proof {
                assert(r@ =~= Seq::new(i as nat, |j: int| '0'));
            }
        }
        push_all(&mut r, &digits);
        r
    } else {
        digits
    }
}

/// Does reading the IV `hex` stay clear of slicing inside a character?
pub fn hex_iv_is_safe(hex: &[char]) -> (r: bool)
    ensures
        r == hex_iv_safe(hex@),
{
    let p = padded_iv_digits(hex);
    let mut i: usize = 0;
    let mut b: usize = 0;
    let ghost whole = p@;
    proof {
        assert(p@.skip(0) =~= p@);
    }
    while i < p.len() && b < 32
        invariant
            i <= p@.len(),
            whole == p@,
            p@ == pad32(iv_hex_digits(hex@)),
            b <= 32 + 4,
            pair_slicing_ok(whole, 0) == pair_slicing_ok(whole.skip(i as int), b as nat),
        decreases p@.len() - i,
    {
        let l = utf8_len_of(p[i]);
        proof {
            assert(whole.skip(i as int)[0] == p@[i as int]);
            assert(whole.skip(i as int).skip(1) =~= whole.skip(i + 1));
        }
        if l >= 3 || (l == 2 && b % 2 == 1) {
            proof {
                assert(!pair_slicing_ok(whole.skip(i as int), b as nat));
            }
            return false;
        }
        b = b + l;
        i = i + 1;
    }
    proof {
        if i == p@.len() {
            assert(whole.skip(i as int).len() == 0);
        }
    }
    true
}

/// Reads a 16-byte IV from its hexadecimal text.
pub fn parse_hex_iv(hex: &[char]) -> (r: Option<Vec<u8>>)
    requires
        hex_iv_safe(hex@),
    ensures
        opt_bytes(r) == hex_iv(hex@),
{
    let p = padded_iv_digits(hex);
    let mut k: usize = 0;
    while k < 32
        invariant
            k <= 32,
            p@.len() >= 32,
            p@ == pad32(iv_hex_digits(hex@)),
            forall|j: int| 0 <= j < k ==> ((#[trigger] p@[j]) as u32) < 0x80,
        decreases 32 - k,
    {
        if p[k] as u32 >= 0x80 {
            proof {
                assert(!((p@[k as int] as u32) < 0x80));
            }
            return None;
        }
        k = k + 1;
    }
    let ghost q = p@.take(32);
    let mut out: Vec<u8> = Vec::new();
    let mut i: usize = 0;
    proof {
        assert(q.skip(0) =~= q);
    }
    while i < 16
        invariant
            i <= 16,
            p@.len() >= 32,
            p@ == pad32(iv_hex_digits(hex@)),
            forall|j: int| 0 <= j < 32 ==> ((#[trigger] p@[j]) as u32) < 0x80,
            q == p@.take(32),
            hex_pairs(q) == match hex_pairs(q.skip(2 * i)) {
                Some(rest) => Some(out@ + rest),
                None => None,
            },
        decreases 16 - i,
    {
        let ghost rest = q.skip(2 * i);
        proof {
            assert(rest[0] == p@[2 * i as int]);
            assert(rest[1] == p@[2 * i + 1]);
            assert(rest.skip(2) =~= q.skip(2 * i + 2));
        }
        match hex_byte_of(p[2 * i], p[2 * i + 1]) {
            Some(b) => {
                out.push(b);
                proof {
                    assert forall|t: Seq<u8>| true implies (out@.drop_last() + (seq![b] + t)) =~= (out@ + t) by {}
                }
            },
            None => {
                proof {
                    assert(hex_pairs(rest) is None);
                }
                return None;
            },
        }
        i = i + 1;
    }
    proof {
        assert(q.skip(32).len() == 0);
        assert(out@ + Seq::<u8>::empty() =~= out@);
    }
    Some(out)
}

/// `relative` resolved against `base`: kept when it is absolute `http(s)`,
/// otherwise joined with the `url` crate, and when that fails, appended to
/// `base` (without its trailing slashes) after a slash.
pub open spec fn resolved_url(base: Seq<char>, relative: Seq<char>) -> Seq<char> {
    if is_absolute_http(relative) {
        relative
    } else {
        match spec_url_join(base, relative) {
            Some(u) => u,
            None => trim_end_char(base, '/').push('/') + relative,
        }
    }
}

/// Resolves a playlist URI against the playlist's URL.
pub fn resolve_url(base: &str, relative: &[char]) -> (r: String)
    ensures
        r@ == resolved_url(base@, relative@),
{
    if is_absolute_http_chars(relative) {
        return string_of(relative);
    }
    let rel = string_of(relative);
    match url_join(base, rel.as_str()) {
        Some(u) => u,
        None => {
            let b = chars_of(base);
            let mut t = trim_end_char_chars(&b, '/');
            t.push('/');
            push_all(&mut t, relative);
            string_of(&t)
        },
    }
}


// ---------------------------------------------------------------------------
// Master playlists
// ---------------------------------------------------------------------------

/// A number attribute of a tag, `0` when absent or unreadable.
pub open spec fn attr_u64_or_zero(tag: Seq<char>, name: Seq<char>) -> u64 {
    match attr_value(tag, name) {
        Some(v) => match parse_unsigned(v, u64::MAX as nat) {
            Some(n) => n as u64,
            None => 0,
        },
        None => 0,
    }
}

/// The height in a `RESOLUTION=WxH` attribute: the part after the last `x`.
pub open spec fn resolution_height(tag: Seq<char>) -> Option<u32> {
    match attr_value(tag, "RESOLUTION"@) {
        Some(r) => match parse_unsigned(after_last(r, 'x'), u32::MAX as nat) {
            Some(h) => Some(h as u32),
            None => None,
        },
        None => None,
    }
}

/// A quality label: `<height>p`, or `<kbps>k` when the height is unknown.
pub open spec fn quality_label(height: Option<u32>, bandwidth: u64) -> Seq<char> {
    match height {
        Some(h) => dec_string(h as nat).push('p'),
        None => dec_string((bandwidth / 1000) as nat).push('k'),
    }
}

/// The variant described by the `#EXT-X-STREAM-INF` line `tag` and its URI line.
#[verifier::opaque]
pub open spec fn variant_of(tag: Seq<char>, uri: Seq<char>, base: Seq<char>) -> VariantView {
    let bandwidth = attr_u64_or_zero(tag, "BANDWIDTH"@);
    let height = resolution_height(tag);
    VariantView {
        url: resolved_url(base, uri),
        bandwidth,
        height,
        label: quality_label(height, bandwidth),
    }
}

/// The variants listed from line `i` on; `pending` is the stream tag whose URI
/// line is still awaited (comment lines in between are skipped).
pub open spec fn master_scan(
    lines: Seq<Seq<char>>,
    i: int,
    pending: Option<Seq<char>>,
    base: Seq<char>,
) -> Seq<VariantView>
    decreases lines.len() - i,
{
    if i < 0 || i >= lines.len() {
        Seq::empty()
    } else {
        match pending {
            None => if contains(lines[i], "#EXT-X-STREAM-INF"@) {
                master_scan(lines, i + 1, Some(lines[i]), base)
            } else {
                master_scan(lines, i + 1, None, base)
            },
            Some(tag) => if starts_with(lines[i], seq!['#']) {
                master_scan(lines, i + 1, Some(tag), base)
            } else {
                seq![variant_of(tag, lines[i], base)] + master_scan(lines, i + 1, None, base)
            },
        }
    }
}

/// The bandwidth of a variant, its sort key.
pub open spec fn variant_bandwidth(v: VariantView) -> u64 {
    v.bandwidth
}

/// The variants of a master playlist, sorted by bandwidth (stable).
pub open spec fn master_variants(lines: Seq<Seq<char>>, base: Seq<char>) -> Seq<VariantView> {
    sort_by_key(master_scan(lines, 0, None, base), |v: VariantView| variant_bandwidth(v))
}

/// The variants of a master playlist are in ascending order of bandwidth,
/// each variant the playlist lists appearing as often as it is listed.
pub proof fn law_variants_ascending(lines: Seq<Seq<char>>, base: Seq<char>)
    ensures
        forall|i: int, j: int| 0 <= i <= j < master_variants(lines, base).len()
            ==> (#[trigger] master_variants(lines, base)[i]).bandwidth <= (#[trigger] master_variants(lines, base)[j]).bandwidth,
        master_variants(lines, base).to_multiset() =~= master_scan(lines, 0, None, base).to_multiset(),
{
    crate::sorting::law_sort_by_key_orders(master_scan(lines, 0, None, base), |v: VariantView| variant_bandwidth(v));
}

fn variant_from(tag: &[char], uri: &[char], base: &str) -> (r: HlsVariant)
    ensures
        r@ == variant_of(tag@, uri@, base@),
{
    let bandwidth = match parse_attr(tag, "BANDWIDTH") {
        Some(v) => match parse_u64(&v) {
            Some(n) => n,
            None => 0,
        },
        None => 0,
    };
    let height = match parse_attr(tag, "RESOLUTION") {
        Some(r) => {
            let h = after_last_char(&r, 'x');
            parse_u32(&h)
        },
        None => None,
    };
    let label = match height {
        Some(h) => number_with_suffix(h as u64, 'p'),
        None => number_with_suffix(bandwidth / 1000, 'k'),
    };
    let url = resolve_url(base, uri);
    proof {
        reveal(variant_of);
    }
    HlsVariant { url, bandwidth, height, label }
}

/// One step of the master scan.
proof fn lemma_master_scan_step(
    lines: Seq<Seq<char>>,
    i: int,
    pending: Option<Seq<char>>,
    base: Seq<char>,
)
    requires
        0 <= i < lines.len(),
    ensures
        master_scan(lines, i, pending, base) == match pending {
            None => if contains(lines[i], "#EXT-X-STREAM-INF"@) {
                master_scan(lines, i + 1, Some(lines[i]), base)
            } else {
                master_scan(lines, i + 1, None, base)
            },
            Some(tag) => if starts_with(lines[i], seq!['#']) {
                master_scan(lines, i + 1, Some(tag), base)
            } else {
                seq![variant_of(tag, lines[i], base)] + master_scan(lines, i + 1, None, base)
            },
        },
{
}

/// Does the line begin with `#`?
pub fn is_comment(line: &[char]) -> (r: bool)
    ensures
        r == starts_with(line@, seq!['#']),
{
    let h = ['#'];
    proof {
        assert(h@ =~= seq!['#']);
    }
    starts_with_chars(line, &h)
}

fn parse_master(lines: &Vec<Vec<char>>, base_url: &str) -> (r: HlsMasterPlaylist)
    ensures
        r.variants@.map_values(|v: HlsVariant| v@) == master_variants(
            lines@.map_values(|l: Vec<char>| l@),
            base_url@,
        ),
{
    let ghost ls = lines@.map_values(|l: Vec<char>| l@);
    let ghost whole = master_scan(ls, 0, None, base_url@);
    let mut variants: Vec<HlsVariant> = Vec::new();
    let mut keys: Vec<u64> = Vec::new();
    let mut pending: Option<usize> = None;
    let ghost mut pend: Option<Seq<char>> = None;
    let ghost mut acc: Seq<VariantView> = Seq::empty();
    let mut i: usize = 0;
    let stream_inf = chars_of("#EXT-X-STREAM-INF");
    while i < lines.len()
        invariant
            i <= lines@.len(),
            ls == lines@.map_values(|l: Vec<char>| l@),
            whole == master_scan(ls, 0, None, base_url@),
            stream_inf@ == "#EXT-X-STREAM-INF"@,
            match pending {
                Some(t) => t < i && pend == Some(ls[t as int]),
                None => pend is None,
            },
            variants@.len() == keys@.len(),
            forall|j: int| 0 <= j < variants@.len() ==> keys@[j] == (#[trigger] variants@[j]).bandwidth,
            variants@.map_values(|v: HlsVariant| v@) == acc,
            whole == acc + master_scan(ls, i as int, pend, base_url@),
        decreases lines@.len() - i,
    {
        proof {
            lemma_master_scan_step(ls, i as int, pend, base_url@);
        }
        let line = &lines[i];
        match pending {
            None => {
                if contains_chars(line, &stream_inf) {
                    pending = Some(i);
                    proof {
                        pend = Some(ls[i as int]);
                    }
                }
            },
            Some(t) => {
                if !is_comment(line) {
                    let v = variant_from(&lines[t], line, base_url);
                    let k = v.bandwidth;
                    let ghost vv = v@;
                    variants.push(v);
                    keys.push(k);
                    pending = None;
                    proof {
                        acc = acc.push(vv);
                        pend = None;
                        assert(variants@.map_values(|v: HlsVariant| v@) =~= acc);
                        assert(acc + master_scan(ls, i + 1, pend, base_url@) =~= acc.drop_last() + (
                        seq![vv] + master_scan(ls, i + 1, pend, base_url@)));
                    }
                }
            },
        }
        i = i + 1;
    }
    proof {
        assert(master_scan(ls, i as int, pend, base_url@) =~= Seq::<VariantView>::empty());
        assert(whole =~= acc);
        assert forall|j: int| 0 <= j < variants@.len() implies keys@[j] == variant_bandwidth(
            #[trigger] variants@[j]@,
        ) by {}
    }
    let sorted = stable_sort_by_key(variants, keys, Ghost(|v: VariantView| variant_bandwidth(v)));
    HlsMasterPlaylist { variants: sorted }
}


// ---------------------------------------------------------------------------
// Media playlists
// ---------------------------------------------------------------------------

/// The media sequence number set by the `#EXT-X-MEDIA-SEQUENCE` lines: each such
/// line sets it to the number after its last `:` (or `0` when that does not
/// read as a number); it is `0` when there is no such line.
pub open spec fn media_sequence_of(lines: Seq<Seq<char>>) -> u64
    decreases lines.len(),
{
    if lines.len() == 0 {
        0
    } else if contains(lines.last(), "#EXT-X-MEDIA-SEQUENCE"@) {
        match parse_unsigned(trim(after_last(lines.last(), ':')), u64::MAX as nat) {
            Some(n) => n as u64,
            None => 0,
        }
    } else {
        media_sequence_of(lines.drop_last())
    }
}

/// What the media playlist scan has gathered so far.
pub struct MediaState {
    pub segments: Seq<SegmentView>,
    pub encryption: Option<EncryptionView>,
    pub current_key: Option<EncryptionView>,
    pub init_map_url: Option<Seq<char>>,
    pub init_map_byterange: Option<ByteRange>,
    pub seg_idx: u64,
    pub current_duration: Seq<char>,
    pub durations: Seq<Seq<char>>,
    pub current_byterange: Option<ByteRange>,
    pub has_discontinuity: bool,
    pub next_is_discontinuity: bool,
    pub last_byterange_offset: u64,
}

/// The scan state before the first line.
pub open spec fn media_start() -> MediaState {
    MediaState {
        segments: Seq::empty(),
        encryption: None,
        current_key: None,
        init_map_url: None,
        init_map_byterange: None,
        seg_idx: 0,
        current_duration: Seq::empty(),
        durations: Seq::empty(),
        current_byterange: None,
        has_discontinuity: false,
        next_is_discontinuity: false,
        last_byterange_offset: 0,
    }
}

/// The key methods that describe encrypted segments.
pub open spec fn is_key_method(m: Seq<char>) -> bool {
    m == "AES-128"@ || m == "SAMPLE-AES"@ || m == "SAMPLE-AES-CTR"@
}

/// The key described by an `#EXT-X-KEY` line with method `method`.
pub open spec fn key_of(line: Seq<char>, method: Seq<char>, base: Seq<char>) -> EncryptionView {
    EncryptionView {
        method,
        key_uri: resolved_url(
            base,
            match attr_value(line, "URI"@) {
                Some(u) => u,
                None => Seq::empty(),
            },
        ),
        iv: match attr_value(line, "IV"@) {
            Some(h) => hex_iv(h),
            None => None,
        },
    }
}

/// The method of an `#EXT-X-KEY` line (empty when absent).
pub open spec fn key_method(line: Seq<char>) -> Seq<char> {
    match attr_value(line, "METHOD"@) {
        Some(m) => m,
        None => Seq::empty(),
    }
}

/// An `#EXT-X-MAP` line: the init segment URI and byte range.
#[verifier::opaque]
pub open spec fn step_map(st: MediaState, line: Seq<char>, base: Seq<char>) -> MediaState {
    let st1 = match attr_value(line, "URI"@) {
        Some(u) => MediaState { init_map_url: Some(resolved_url(base, u)), ..st },
        None => st,
    };
    match attr_value(line, "BYTERANGE"@) {
        Some(br) => MediaState { init_map_byterange: byterange_value(br, 0), ..st1 },
        None => st1,
    }
}

/// An `#EXT-X-KEY` line: `NONE` clears the current key, a supported method sets
/// it (and the first one becomes the playlist's encryption); others are ignored.
#[verifier::opaque]
pub open spec fn step_key(st: MediaState, line: Seq<char>, base: Seq<char>) -> MediaState {
    let method = key_method(line);
    if method == "NONE"@ {
        MediaState { current_key: None, ..st }
    } else if is_key_method(method) {
        let key = key_of(line, method, base);
        MediaState {
            encryption: if st.encryption is None { Some(key) } else { st.encryption },
            current_key: Some(key),
            ..st
        }
    } else {
        st
    }
}

/// An `#EXT-X-BYTERANGE` line: the range of the next segment, its offset
/// defaulting to the end of the previous range.
#[verifier::opaque]
pub open spec fn step_byterange(st: MediaState, line: Seq<char>) -> MediaState {
    MediaState {
        current_byterange: byterange_value(trim(after_last(line, ':')), st.last_byterange_offset),
        ..st
    }
}

/// An `#EXTINF` line: the duration text of the next segment.
#[verifier::opaque]
pub open spec fn step_extinf(st: MediaState, line: Seq<char>) -> MediaState {
    let d = trim_end_char(after_last(line, ':'), ',');
    MediaState { current_duration: d, durations: st.durations.push(d), ..st }
}

/// A URI line: one more segment, numbered from the media sequence (with
/// wrapping `u64` arithmetic, as release builds compute it).
#[verifier::opaque]
pub open spec fn step_segment(st: MediaState, line: Seq<char>, base: Seq<char>, media_sequence: u64) -> MediaState {
    let seg = SegmentView {
        url: resolved_url(base, line),
        duration: st.current_duration,
        sequence: ((media_sequence + st.seg_idx) % 0x1_0000_0000_0000_0000) as u64,
        iv: match st.current_key {
            Some(k) => k.iv,
            None => None,
        },
        byterange: st.current_byterange,
        is_discontinuity: st.next_is_discontinuity,
    };
    MediaState {
        segments: st.segments.push(seg),
        seg_idx: ((st.seg_idx + 1) % 0x1_0000_0000_0000_0000) as u64,
        current_duration: Seq::empty(),
        current_byterange: None,
        next_is_discontinuity: false,
        last_byterange_offset: match st.current_byterange {
            Some(br) => ((match br.offset {
                Some(o) => o,
                None => 0,
            } + br.length) % 0x1_0000_0000_0000_0000) as u64,
            None => st.last_byterange_offset,
        },
        ..st
    }
}

/// The effect of one playlist line on the scan (tags are tried in the order
/// `#EXT-X-MAP`, `#EXT-X-KEY`, `#EXT-X-DISCONTINUITY`, `#EXT-X-BYTERANGE`,
/// `#EXTINF`; other `#` lines are ignored; any other line is a segment URI).
pub open spec fn media_step(st: MediaState, line: Seq<char>, base: Seq<char>, media_sequence: u64) -> MediaState {
    if contains(line, "#EXT-X-MAP"@) {
        step_map(st, line, base)
    } else if contains(line, "#EXT-X-KEY"@) {
        step_key(st, line, base)
    } else if contains(line, "#EXT-X-DISCONTINUITY"@) {
        MediaState { has_discontinuity: true, next_is_discontinuity: true, ..st }
    } else if starts_with(line, "#EXT-X-BYTERANGE"@) {
        step_byterange(st, line)
    } else if starts_with(line, "#EXTINF"@) {
        step_extinf(st, line)
    } else if starts_with(line, seq!['#']) {
        st
    } else {
        step_segment(st, line, base, media_sequence)
    }
}

/// The scan state after `lines`.
pub open spec fn media_scan(lines: Seq<Seq<char>>, base: Seq<char>, media_sequence: u64) -> MediaState
    decreases lines.len(),
{
    if lines.len() == 0 {
        media_start()
    } else {
        media_step(media_scan(lines.drop_last(), base, media_sequence), lines.last(), base, media_sequence)
    }
}

/// Reading this line would read an IV whose text slices inside a character.
#[verifier::opaque]
pub open spec fn line_iv_unsafe(line: Seq<char>) -> bool {
    !contains(line, "#EXT-X-MAP"@) && contains(line, "#EXT-X-KEY"@) && is_key_method(key_method(line))
        && match attr_value(line, "IV"@) {
        Some(h) => !hex_iv_safe(h),
        None => false,
    }
}

/// No line of a media playlist has an IV that cannot be read.
pub open spec fn media_lines_safe(lines: Seq<Seq<char>>) -> bool {
    forall|i: int| 0 <= i < lines.len() ==> !line_iv_unsafe(#[trigger] lines[i])
}

/// The media playlist described by `lines`: segments, keys and init map from the
/// scan; live unless the lines (joined by newlines) hold `#EXT-X-ENDLIST` or
/// `#EXT-X-PLAYLIST-TYPE:VOD`.
pub open spec fn media_playlist(lines: Seq<Seq<char>>, base: Seq<char>) -> MediaView {
    let seq_no = media_sequence_of(lines);
    let st = media_scan(lines, base, seq_no);
    let text = join(lines, seq!['\n']);
    MediaView {
        segments: st.segments,
        encryption: st.encryption,
        init_map_url: st.init_map_url,
        init_map_byterange: st.init_map_byterange,
        durations: st.durations,
        is_live: !contains(text, "#EXT-X-ENDLIST"@) && !contains(text, "#EXT-X-PLAYLIST-TYPE:VOD"@),
        media_sequence: seq_no,
        has_discontinuity: st.has_discontinuity,
    }
}

/// A line that is not a segment URI leaves the segments and their count alone.
proof fn lemma_step_segments(st: MediaState, line: Seq<char>, base: Seq<char>, ms: u64)
    ensures
        ({
            let s2 = media_step(st, line, base, ms);
            (s2.segments == st.segments && s2.seg_idx == st.seg_idx) || s2 == step_segment(st, line, base, ms)
        }),
{
    if contains(line, "#EXT-X-MAP"@) {
        reveal(step_map);
    } else if contains(line, "#EXT-X-KEY"@) {
        reveal(step_key);
    } else if contains(line, "#EXT-X-DISCONTINUITY"@) {
    } else if starts_with(line, "#EXT-X-BYTERANGE"@) {
        reveal(step_byterange);
    } else if starts_with(line, "#EXTINF"@) {
        reveal(step_extinf);
    }
}

/// A segment URI appends one segment numbered from the media sequence and
/// counts it.
proof fn lemma_segment_numbered(st: MediaState, line: Seq<char>, base: Seq<char>, ms: u64)
    ensures
        step_segment(st, line, base, ms).segments.len() == st.segments.len() + 1,
        step_segment(st, line, base, ms).segments.drop_last() == st.segments,
        step_segment(st, line, base, ms).segments.last().sequence as int
            == (ms + st.seg_idx) % 0x1_0000_0000_0000_0000,
        step_segment(st, line, base, ms).seg_idx as int == (st.seg_idx + 1) % 0x1_0000_0000_0000_0000,
{
    reveal(step_segment);
    let s2 = step_segment(st, line, base, ms);
    assert(s2.segments.drop_last() =~= st.segments);
}

/// The scan numbers its segments one after another from the media sequence.
proof fn lemma_scan_numbering(lines: Seq<Seq<char>>, base: Seq<char>, ms: u64)
    ensures
        ({
            let st = media_scan(lines, base, ms);
            &&& st.seg_idx as int == st.segments.len() % 0x1_0000_0000_0000_0000
            &&& forall|i: int| 0 <= i < st.segments.len()
                ==> (#[trigger] st.segments[i]).sequence as int == (ms + i) % 0x1_0000_0000_0000_0000
        }),
    decreases lines.len(),
{
    if lines.len() > 0 {
        lemma_scan_numbering(lines.drop_last(), base, ms);
        let p = media_scan(lines.drop_last(), base, ms);
        let line = lines.last();
        let st = media_scan(lines, base, ms);
        assert(st == media_step(p, line, base, ms));
        lemma_step_segments(p, line, base, ms);
        let n = p.segments.len();
        let m: int = 0x1_0000_0000_0000_0000;
        if !(st.segments == p.segments && st.seg_idx == p.seg_idx) {
            lemma_segment_numbered(p, line, base, ms);
            vstd::arithmetic::div_mod::lemma_add_mod_noop_right(1, n as int, m);
            vstd::arithmetic::div_mod::lemma_add_mod_noop_right(ms as int, n as int, m);
            assert forall|i: int| 0 <= i < st.segments.len()
                implies (#[trigger] st.segments[i]).sequence as int == (ms + i) % m by {
                if i < n {
                    assert(st.segments[i] == st.segments.drop_last()[i]);
                    assert(st.segments[i] == p.segments[i]);
                } else {
                    assert(st.segments[i] == st.segments.last());
                }
            }
        }
    }
}

/// Segments are numbered one after another from the playlist's media
/// sequence (wrapping at 2^64).
pub proof fn law_segments_numbered_from_media_sequence(lines: Seq<Seq<char>>, base: Seq<char>)
    ensures
        forall|i: int| 0 <= i < media_playlist(lines, base).segments.len()
            ==> (#[trigger] media_playlist(lines, base).segments[i]).sequence as int
                == (media_playlist(lines, base).media_sequence + i) % 0x1_0000_0000_0000_0000,
{
    lemma_scan_numbering(lines, base, media_sequence_of(lines));
}

/// Where the byte range of the last ranged segment among `segs` ends: its
/// offset (0 where it has none) plus its length, wrapping at 2^64; 0 when no
/// segment has a range.
pub open spec fn range_end(segs: Seq<SegmentView>) -> u64
    decreases segs.len(),
{
    if segs.len() == 0 {
        0
    } else {
        match segs.last().byterange {
            Some(br) => ((match br.offset {
                Some(o) => o,
                None => 0,
            } + br.length) % 0x1_0000_0000_0000_0000) as u64,
            None => range_end(segs.drop_last()),
        }
    }
}

/// A line that is not a segment URI leaves the end of the last byte range
/// alone.
proof fn lemma_step_keeps_range_end(st: MediaState, line: Seq<char>, base: Seq<char>, ms: u64)
    ensures
        ({
            let s2 = media_step(st, line, base, ms);
            (s2.segments == st.segments && s2.last_byterange_offset == st.last_byterange_offset)
                || s2 == step_segment(st, line, base, ms)
        }),
{
    if contains(line, "#EXT-X-MAP"@) {
        reveal(step_map);
    } else if contains(line, "#EXT-X-KEY"@) {
        reveal(step_key);
    } else if contains(line, "#EXT-X-DISCONTINUITY"@) {
    } else if starts_with(line, "#EXT-X-BYTERANGE"@) {
        reveal(step_byterange);
    } else if starts_with(line, "#EXTINF"@) {
        reveal(step_extinf);
    }
}

/// The scan remembers where the last byte range ended.
proof fn lemma_scan_range_end(lines: Seq<Seq<char>>, base: Seq<char>, ms: u64)
    ensures
        media_scan(lines, base, ms).last_byterange_offset == range_end(media_scan(lines, base, ms).segments),
    decreases lines.len(),
{
    if lines.len() > 0 {
        lemma_scan_range_end(lines.drop_last(), base, ms);
        let p = media_scan(lines.drop_last(), base, ms);
        let st = media_scan(lines, base, ms);
        lemma_step_keeps_range_end(p, lines.last(), base, ms);
        if st == step_segment(p, lines.last(), base, ms) {
            reveal(step_segment);
            assert(st.segments.drop_last() =~= p.segments);
        }
    }
}

/// Splitting a text with no `@` at `@` gives the text itself.
proof fn lemma_split_without_at(s: Seq<char>, cur: Seq<char>)
    requires
        forall|i: int| 0 <= i < s.len() ==> s[i] != '@',
    ensures
        split_acc(s, seq!['@'], cur) == seq![cur + s],
    decreases s.len(),
{
    if s.len() == 0 {
        assert(cur + s =~= cur);
    } else {
        assert(s.take(1)[0] == s[0]);
        assert(!starts_with(s, seq!['@']));
        lemma_split_without_at(s.skip(1), cur.push(s[0]));
        assert(cur.push(s[0]) + s.skip(1) =~= cur + s);
    }
}

/// Byte ranges without an explicit offset are contiguous: when an
/// `#EXT-X-BYTERANGE` line giving only a length `n` is followed by a segment
/// URI, that segment's range has length `n` and starts where the byte range of
/// the last ranged segment before it ended (at 0 when there is none).
pub proof fn law_byteranges_contiguous(lines: Seq<Seq<char>>, base: Seq<char>, ms: u64,
    range_line: Seq<char>, uri: Seq<char>, n: nat)
    requires
        starts_with(range_line, "#EXT-X-BYTERANGE"@),
        !contains(range_line, "#EXT-X-MAP"@),
        !contains(range_line, "#EXT-X-KEY"@),
        !contains(range_line, "#EXT-X-DISCONTINUITY"@),
        forall|i: int| 0 <= i < trim(after_last(range_line, ':')).len() ==> trim(after_last(range_line, ':'))[i] != '@',
        parse_unsigned(trim(after_last(range_line, ':')), u64::MAX as nat) == Some(n),
        uri.len() > 0,
        uri[0] != '#',
        !contains(uri, "#EXT-X-MAP"@),
        !contains(uri, "#EXT-X-KEY"@),
        !contains(uri, "#EXT-X-DISCONTINUITY"@),
    ensures
        ({
            let before = media_scan(lines, base, ms).segments;
            let after = media_scan(lines.push(range_line).push(uri), base, ms).segments;
            &&& after.len() == before.len() + 1
            &&& after.last().byterange == Some(ByteRange { length: n as u64, offset: Some(range_end(before)) })
        }),
{
    let v = trim(after_last(range_line, ':'));
    let st = media_scan(lines, base, ms);
    let l1 = lines.push(range_line);
    let l2 = l1.push(uri);
    assert(l1.drop_last() =~= lines);
    assert(l2.drop_last() =~= l1);
    let st1 = media_scan(l1, base, ms);
    lemma_scan_range_end(lines, base, ms);
    reveal(step_byterange);
    assert(st1 == step_byterange(st, range_line));
    lemma_split_without_at(v, Seq::empty());
    assert(Seq::<char>::empty() + v =~= v);
    assert(split(v, seq!['@']) == seq![v]);
    assert(st1.current_byterange == Some(ByteRange { length: n as u64, offset: Some(st.last_byterange_offset) }));
    reveal_strlit("#EXT-X-BYTERANGE");
    reveal_strlit("#EXTINF");
    assert(!starts_with(uri, "#EXT-X-BYTERANGE"@)) by {
        if starts_with(uri, "#EXT-X-BYTERANGE"@) {
            assert(uri.take(16)[0] == uri[0]);
        }
    }
    assert(!starts_with(uri, "#EXTINF"@)) by {
        if starts_with(uri, "#EXTINF"@) {
            assert(uri.take(7)[0] == uri[0]);
        }
    }
    assert(!starts_with(uri, seq!['#'])) by {
        if starts_with(uri, seq!['#']) {
            assert(uri.take(1)[0] == uri[0]);
        }
    }
    reveal(step_segment);
    let st2 = media_scan(l2, base, ms);
    assert(st2 == step_segment(st1, uri, base, ms));
    assert(st1.segments == st.segments);
}

pub fn copy_bytes(v: &Vec<u8>) -> (r: Vec<u8>)
    ensures
        r@ == v@,
{
    let mut r: Vec<u8> = Vec::new();
    let mut i: usize = 0;
    while i < v.len()
        invariant
            i <= v@.len(),
            r@ == v@.take(i as int),
        decreases v@.len() - i,
    {
        r.push(v[i]);
        i = i + 1;
        proof {
            assert(r@ =~= v@.take(i as int));
        }
    }
    proof {
        assert(v@.take(v@.len() as int) =~= v@);
    }
    r
}

pub fn copy_opt_bytes(v: &Option<Vec<u8>>) -> (r: Option<Vec<u8>>)
    ensures
        opt_bytes(r) == opt_bytes(*v),
{
    match v {
        Some(b) => Some(copy_bytes(b)),
        None => None,
    }
}

fn copy_encryption(e: &HlsEncryption) -> (r: HlsEncryption)
    ensures
        r@ == e@,
{
    HlsEncryption { method: e.method.clone(), key_uri: e.key_uri.clone(), iv: copy_opt_bytes(&e.iv) }
}

/// The executable scan state.
struct MediaAcc {
    segments: Vec<HlsSegment>,
    encryption: Option<HlsEncryption>,
    current_key: Option<HlsEncryption>,
    init_map_url: Option<String>,
    init_map_byterange: Option<ByteRange>,
    seg_idx: u64,
    current_duration: Vec<char>,
    durations: Vec<String>,
    current_byterange: Option<ByteRange>,
    has_discontinuity: bool,
    next_is_discontinuity: bool,
    last_byterange_offset: u64,
}

impl View for MediaAcc {
    type V = MediaState;

    closed spec fn view(&self) -> MediaState {
        MediaState {
            segments: self.segments@.map_values(|s: HlsSegment| s@),
            encryption: opt_enc(self.encryption),
            current_key: opt_enc(self.current_key),
            init_map_url: opt_text(self.init_map_url),
            init_map_byterange: self.init_map_byterange,
            seg_idx: self.seg_idx,
            current_duration: self.current_duration@,
            durations: self.durations@.map_values(|d: String| d@),
            current_byterange: self.current_byterange,
            has_discontinuity: self.has_discontinuity,
            next_is_discontinuity: self.next_is_discontinuity,
            last_byterange_offset: self.last_byterange_offset,
        }
    }
}

pub fn chars_equal_str(v: &[char], s: &str) -> (r: bool)
    ensures
        r == (v@ == s@),
{
    let w = chars_of(s);
    crate::text::chars_eq(v, &w)
}

pub fn line_contains(line: &[char], s: &str) -> (r: bool)
    ensures
        r == contains(line@, s@),
{
    let w = chars_of(s);
    contains_chars(line, &w)
}

pub fn line_starts_with(line: &[char], s: &str) -> (r: bool)
    ensures
        r == starts_with(line@, s@),
{
    let w = chars_of(s);
    starts_with_chars(line, &w)
}

fn key_method_of(line: &[char]) -> (r: Vec<char>)
    ensures
        r@ == key_method(line@),
{
    match parse_attr(line, "METHOD") {
        Some(m) => m,
        None => Vec::new(),
    }
}

/// Is the line free of an unreadable IV?
fn line_iv_is_safe(line: &[char]) -> (r: bool)
    ensures
        r == !line_iv_unsafe(line@),
{
    proof {
        reveal(line_iv_unsafe);
    }
    if line_contains(line, "#EXT-X-MAP") || !line_contains(line, "#EXT-X-KEY") {
        return true;
    }
    let m = key_method_of(line);
    if !(chars_equal_str(&m, "AES-128") || chars_equal_str(&m, "SAMPLE-AES") || chars_equal_str(&m, "SAMPLE-AES-CTR")) {
        return true;
    }
    match parse_attr(line, "IV") {
        Some(h) => hex_iv_is_safe(&h),
        None => true,
    }
}

fn key_from(line: &[char], method: Vec<char>, base: &str) -> (r: HlsEncryption)
    requires
        !line_iv_unsafe(line@),
        !contains(line@, "#EXT-X-MAP"@),
        contains(line@, "#EXT-X-KEY"@),
        method@ == key_method(line@),
        is_key_method(method@),
    ensures
        r@ == key_of(line@, method@, base@),
{
    proof {
        reveal(line_iv_unsafe);
    }
    let uri = match parse_attr(line, "URI") {
        Some(u) => u,
        None => Vec::new(),
    };
    let iv = match parse_attr(line, "IV") {
        Some(h) => parse_hex_iv(&h),
        None => None,
    };
    HlsEncryption { method: string_of(&method), key_uri: resolve_url(base, &uri), iv }
}

fn step_map_exec(acc: &mut MediaAcc, line: &[char], base: &str)
    ensures
        final(acc)@ == step_map(old(acc)@, line@, base@),
{
    proof {
        reveal(step_map);
    }
    match parse_attr(line, "URI") {
        Some(u) => {
            acc.init_map_url = Some(resolve_url(base, &u));
        },
        None => {},
    }
    match parse_attr(line, "BYTERANGE") {
        Some(br) => {
            acc.init_map_byterange = parse_byterange_value(&br, 0);
        },
        None => {},
    }
}

fn step_key_exec(acc: &mut MediaAcc, line: &[char], base: &str)
    requires
        !line_iv_unsafe(line@),
        !contains(line@, "#EXT-X-MAP"@),
        contains(line@, "#EXT-X-KEY"@),
    ensures
        final(acc)@ == step_key(old(acc)@, line@, base@),
{
    proof {
        reveal(step_key);
    }
    let method = key_method_of(line);
    if chars_equal_str(&method, "NONE") {
        acc.current_key = None;
    } else if chars_equal_str(&method, "AES-128") || chars_equal_str(&method, "SAMPLE-AES")
        || chars_equal_str(&method, "SAMPLE-AES-CTR") {
        let key = key_from(line, method, base);
        if acc.encryption.is_none() {
            acc.encryption = Some(copy_encryption(&key));
        }
        acc.current_key = Some(key);
    }
}

fn step_byterange_exec(acc: &mut MediaAcc, line: &[char])
    ensures
        final(acc)@ == step_byterange(old(acc)@, line@),
{
    proof {
        reveal(step_byterange);
    }
    let val = after_last_char(line, ':');
    let t = trim_chars(&val);
    acc.current_byterange = parse_byterange_value(&t, acc.last_byterange_offset);
}

fn step_extinf_exec(acc: &mut MediaAcc, line: &[char])
    ensures
        final(acc)@ == step_extinf(old(acc)@, line@),
{
    proof {
        reveal(step_extinf);
    }
    let val = after_last_char(line, ':');
    let d = trim_end_char_chars(&val, ',');
    let ds = string_of(&d);
    acc.current_duration = d;
    acc.durations.push(ds);
    proof {
        assert(acc.durations@.map_values(|d: String| d@) =~= old(acc)@.durations.push(acc.current_duration@));
    }
}

fn step_segment_exec(acc: &mut MediaAcc, line: &[char], base: &str, media_sequence: u64)
    ensures
        final(acc)@ == step_segment(old(acc)@, line@, base@, media_sequence),
{
    proof {
        reveal(step_segment);
    }
    let url = resolve_url(base, line);
    match acc.current_byterange {
        Some(br) => {
            let off = match br.offset {
                Some(o) => o,
                None => 0,
            };
            acc.last_byterange_offset = off.wrapping_add(br.length);
        },
        None => {},
    }
    let iv = match &acc.current_key {
        Some(k) => copy_opt_bytes(&k.iv),
        None => None,
    };
    let seg = HlsSegment {
        url,
        duration: string_of(&acc.current_duration),
        sequence: media_sequence.wrapping_add(acc.seg_idx),
        iv,
        byterange: acc.current_byterange,
        is_discontinuity: acc.next_is_discontinuity,
    };
    acc.segments.push(seg);
    acc.seg_idx = acc.seg_idx.wrapping_add(1);
    acc.current_duration = Vec::new();
    acc.current_byterange = None;
    acc.next_is_discontinuity = false;
    proof {
        assert(acc.segments@.map_values(|s: HlsSegment| s@) =~= old(acc)@.segments.push(seg@));
        assert(acc.current_duration@ =~= Seq::<char>::empty());
    }
}

fn media_step_exec(acc: &mut MediaAcc, line: &[char], base: &str, media_sequence: u64)
    requires
        !line_iv_unsafe(line@),
    ensures
        final(acc)@ == media_step(old(acc)@, line@, base@, media_sequence),
{
    if line_contains(line, "#EXT-X-MAP") {
        step_map_exec(acc, line, base);
    } else if line_contains(line, "#EXT-X-KEY") {
        step_key_exec(acc, line, base);
    } else if line_contains(line, "#EXT-X-DISCONTINUITY") {
        acc.has_discontinuity = true;
        acc.next_is_discontinuity = true;
    } else if line_starts_with(line, "#EXT-X-BYTERANGE") {
        step_byterange_exec(acc, line);
    } else if line_starts_with(line, "#EXTINF") {
        step_extinf_exec(acc, line);
    } else if is_comment(line) {
    } else {
        step_segment_exec(acc, line, base, media_sequence);
    }
}

fn media_sequence_exec(lines: &Vec<Vec<char>>) -> (r: u64)
    ensures
        r == media_sequence_of(lines@.map_values(|l: Vec<char>| l@)),
{
    let ghost ls = lines@.map_values(|l: Vec<char>| l@);
    let mut r: u64 = 0;
    let mut i: usize = 0;
    while i < lines.len()
        invariant
            i <= lines@.len(),
            ls == lines@.map_values(|l: Vec<char>| l@),
            r == media_sequence_of(ls.take(i as int)),
        decreases lines@.len() - i,
    {
        proof {
            assert(ls.take(i + 1).drop_last() =~= ls.take(i as int));
            assert(ls.take(i + 1).last() == lines@[i as int]@);
        }
        if line_contains(&lines[i], "#EXT-X-MEDIA-SEQUENCE") {
            let val = after_last_char(&lines[i], ':');
            let t = trim_chars(&val);
            r = match parse_u64(&t) {
                Some(n) => n,
                None => 0,
            };
        }
        i = i + 1;
    }
    proof {
        assert(ls.take(lines@.len() as int) =~= ls);
    }
    r
}

fn parse_media(lines: &Vec<Vec<char>>, base_url: &str) -> (r: HlsMediaPlaylist)
    requires
        media_lines_safe(lines@.map_values(|l: Vec<char>| l@)),
    ensures
        r@ == media_playlist(lines@.map_values(|l: Vec<char>| l@), base_url@),
{
    let ghost ls = lines@.map_values(|l: Vec<char>| l@);
    let media_sequence = media_sequence_exec(lines);
    let mut acc = MediaAcc {
        segments: Vec::new(),
        encryption: None,
        current_key: None,
        init_map_url: None,
        init_map_byterange: None,
        seg_idx: 0,
        current_duration: Vec::new(),
        durations: Vec::new(),
        current_byterange: None,
        has_discontinuity: false,
        next_is_discontinuity: false,
        last_byterange_offset: 0,
    };
    proof {
        assert(acc@.segments =~= Seq::<SegmentView>::empty());
        assert(acc@.durations =~= Seq::<Seq<char>>::empty());
        assert(acc@.current_duration =~= Seq::<char>::empty());
        assert(acc@ == media_start());
        assert(ls.take(0) =~= Seq::<Seq<char>>::empty());
    }
    let mut i: usize = 0;
    while i < lines.len()
        invariant
            i <= lines@.len(),
            ls == lines@.map_values(|l: Vec<char>| l@),
            media_lines_safe(ls),
            acc@ == media_scan(ls.take(i as int), base_url@, media_sequence),
        decreases lines@.len() - i,
    {
        proof {
            assert(ls.take(i + 1).drop_last() =~= ls.take(i as int));
            assert(ls.take(i + 1).last() == lines@[i as int]@);
            assert(!line_iv_unsafe(ls[i as int]));
        }
        media_step_exec(&mut acc, &lines[i], base_url, media_sequence);
        i = i + 1;
    }
    proof {
        assert(ls.take(lines@.len() as int) =~= ls);
    }
    let nl = ['\n'];
    proof {
        assert(nl@ =~= seq!['\n']);
    }
    let text = join_chars(lines, &nl);
    let endlist = chars_of("#EXT-X-ENDLIST");
    let vod = chars_of("#EXT-X-PLAYLIST-TYPE:VOD");
    let is_live = !contains_chars(&text, &endlist) && !contains_chars(&text, &vod);
    let MediaAcc { segments, encryption, init_map_url, init_map_byterange, durations, has_discontinuity, .. } = acc;
    HlsMediaPlaylist {
        segments,
        encryption,
        init_map_url,
        init_map_byterange,
        durations,
        is_live,
        media_sequence,
        has_discontinuity,
    }
}

// ---------------------------------------------------------------------------
// Entry point
// ---------------------------------------------------------------------------

/// A parsed playlist.
pub enum M3u8View {
    Master(Seq<VariantView>),
    Media(MediaView),
}

impl View for M3u8Result {
    type V = M3u8View;

    open spec fn view(&self) -> M3u8View {
        match self {
            M3u8Result::Master(m) => M3u8View::Master(m.variants@.map_values(|v: HlsVariant| v@)),
            M3u8Result::Media(m) => M3u8View::Media(m@),
        }
    }
}

/// The playlist starts with an `#EXTM3U` line.
pub open spec fn has_m3u8_header(lines: Seq<Seq<char>>) -> bool {
    lines.len() > 0 && contains(lines[0], "#EXTM3U"@)
}

/// Parsing `content` reads no IV it cannot slice: either it is not read as a
/// media playlist, or no line of it has such an IV.
pub open spec fn m3u8_panic_free(content: Seq<char>) -> bool {
    let lines = playlist_lines(content);
    (has_m3u8_header(lines) && !any_line_contains(lines, "#EXT-X-STREAM-INF"@)) ==> media_lines_safe(lines)
}

/// What `parse_m3u8` gives for `content` fetched from `base`.
pub open spec fn m3u8_result(content: Seq<char>, base: Seq<char>) -> Result<M3u8View, Seq<char>> {
    let lines = playlist_lines(content);
    if !has_m3u8_header(lines) {
        Err("Not a valid M3U8 playlist"@)
    } else if any_line_contains(lines, "#EXT-X-STREAM-INF"@) {
        Ok(M3u8View::Master(master_variants(lines, base)))
    } else {
        Ok(M3u8View::Media(media_playlist(lines, base)))
    }
}

fn all_lines_safe(lines: &Vec<Vec<char>>) -> (r: bool)
    ensures
        r == media_lines_safe(lines@.map_values(|l: Vec<char>| l@)),
{
    let ghost ls = lines@.map_values(|l: Vec<char>| l@);
    let mut i: usize = 0;
    while i < lines.len()
        invariant
            i <= lines@.len(),
            ls == lines@.map_values(|l: Vec<char>| l@),
            forall|j: int| 0 <= j < i ==> !line_iv_unsafe(#[trigger] ls[j]),
        decreases lines@.len() - i,
    {
        if !line_iv_is_safe(&lines[i]) {
            proof {
                assert(line_iv_unsafe(ls[i as int]));
            }
            return false;
        }
        i = i + 1;
    }
    true
}

/// Does parsing `content` stay clear of IV texts that cannot be read? (Such a
/// text makes the parser slice inside a character.)
pub fn m3u8_is_panic_free(content: &str) -> (r: bool)
    ensures
        r == m3u8_panic_free(content@),
{
    let lines = playlist_lines_of(content);
    let ghost ls = lines@.map_values(|l: Vec<char>| l@);
    let header = lines.len() > 0 && line_contains(&lines[0], "#EXTM3U");
    proof {
        if lines@.len() > 0 {
            assert(ls[0] == lines@[0]@);
        }
    }
    if header && !any_line_contains_exec(&lines, "#EXT-X-STREAM-INF") {
        all_lines_safe(&lines)
    } else {
        true
    }
}

/// Parses an M3U8 playlist fetched from `base_url`.
pub fn parse_m3u8(content: &str, base_url: &str) -> (r: Result<M3u8Result, String>)
    requires
        m3u8_panic_free(content@),
    ensures
        match (r, m3u8_result(content@, base_url@)) {
            (Ok(p), Ok(v)) => p@ == v,
            (Err(e), Err(m)) => e@ == m,
            _ => false,
        },
{
    let lines = playlist_lines_of(content);
    let ghost ls = lines@.map_values(|l: Vec<char>| l@);
    let header = lines.len() > 0 && line_contains(&lines[0], "#EXTM3U");
    proof {
        if lines@.len() > 0 {
            assert(ls[0] == lines@[0]@);
        }
    }
    if !header {
        return Err(string_of(&chars_of("Not a valid M3U8 playlist")));
    }
    if any_line_contains_exec(&lines, "#EXT-X-STREAM-INF") {
        Ok(M3u8Result::Master(parse_master(&lines, base_url)))
    } else {
        Ok(M3u8Result::Media(parse_media(&lines, base_url)))
    }
}

} // verus!
