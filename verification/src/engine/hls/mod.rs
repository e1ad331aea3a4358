//! HLS engine: playlist parsing, AES-128 segment decryption and the decisions
//! of the segment downloader.
pub mod crypto;
pub mod parser;
pub mod live;

use vstd::prelude::*;
use crate::engine::hls::crypto::{pkcs7_unpad, spec_aes128_cbc_decrypt, HlsDecryptor};
use crate::engine::hls::parser::{
    chars_equal_str, copy_opt_bytes, opt_bytes, EncryptionView, HlsEncryption, HlsSegment,
    HlsVariant, SegmentView,
};
use crate::text::{chars_of, dec_string, push_all, push_str, string_of, u64_to_chars};

verus! {

/// `data` begins with an MP4 box header: its bytes 4..8 are `ftyp`, `styp`,
/// `moof`, `mdat` or `moov`.
pub open spec fn starts_with_mp4_box(data: Seq<u8>) -> bool {
    data.len() >= 8 && {
        let t = data.subrange(4, 8);
        t == seq![0x66u8, 0x74, 0x79, 0x70] || t == seq![0x73u8, 0x74, 0x79, 0x70]
            || t == seq![0x6du8, 0x6f, 0x6f, 0x66] || t == seq![0x6du8, 0x64, 0x61, 0x74]
            || t == seq![0x6du8, 0x6f, 0x6f, 0x76]
    }
}

/// Does `data` begin with an MP4 box (`ftyp`, `styp`, `moof`, `mdat`, `moov`)?
pub fn is_mp4_box(data: &[u8]) -> (r: bool)
    ensures
        r == starts_with_mp4_box(data@),
{
    if data.len() < 8 {
        return false;
    }
    let a = data[4];
    let b = data[5];
    let c = data[6];
    let d = data[7];
    let r = (a == 0x66 && b == 0x74 && c == 0x79 && d == 0x70)
        || (a == 0x73 && b == 0x74 && c == 0x79 && d == 0x70)
        || (a == 0x6d && b == 0x6f && c == 0x6f && d == 0x66)
        || (a == 0x6d && b == 0x64 && c == 0x61 && d == 0x74)
        || (a == 0x6d && b == 0x6f && c == 0x6f && d == 0x76);
    proof {
        let t = data@.subrange(4, 8);
        assert(t[0] == a && t[1] == b && t[2] == c && t[3] == d);
        if r {
            assert(starts_with_mp4_box(data@)) by {
                if a == 0x66 {
                    assert(t =~= seq![0x66u8, 0x74, 0x79, 0x70]);
                } else if a == 0x73 {
                    assert(t =~= seq![0x73u8, 0x74, 0x79, 0x70]);
                } else if b == 0x6f && d == 0x66 {
                    assert(t =~= seq![0x6du8, 0x6f, 0x6f, 0x66]);
                } else if b == 0x64 {
                    assert(t =~= seq![0x6du8, 0x64, 0x61, 0x74]);
                } else {
                    assert(t =~= seq![0x6du8, 0x6f, 0x6f, 0x76]);
                }
            }
        }
    }
    r
}

/// How segments are to be decrypted.
pub enum DecryptionSetup {
    /// Not encrypted.
    Clear,
    /// AES-128: fetch the key at `key_uri`; `iv` is the playlist's IV.
    Aes128 { key_uri: String, iv: Option<Vec<u8>> },
    /// SAMPLE-AES(-CTR): segments are downloaded as they are, with a warning.
    RawWithWarning { method: String },
}

/// The decryption a playlist's first key asks for: AES-128 is decrypted,
/// SAMPLE-AES and SAMPLE-AES-CTR are downloaded raw, anything else is refused.
pub fn decryption_setup(encryption: &Option<HlsEncryption>) -> (r: Result<DecryptionSetup, String>)
    ensures
        match encryption {
            None => r matches Ok(DecryptionSetup::Clear),
            Some(e) => if e@.method == "AES-128"@ {
                r matches Ok(DecryptionSetup::Aes128 { key_uri, iv }) && key_uri@ == e@.key_uri
                    && opt_bytes(iv) == e@.iv
            } else if e@.method == "SAMPLE-AES"@ || e@.method == "SAMPLE-AES-CTR"@ {
                r matches Ok(DecryptionSetup::RawWithWarning { method }) && method@ == e@.method
            } else {
                r matches Err(m) && m@ == "Unsupported encryption: "@ + e@.method
            },
        },
{
    match encryption {
        None => Ok(DecryptionSetup::Clear),
        Some(e) => {
            let m = chars_of(e.method.as_str());
            if chars_equal_str(&m, "AES-128") {
                Ok(DecryptionSetup::Aes128 { key_uri: e.key_uri.clone(), iv: copy_opt_bytes(&e.iv) })
            } else if chars_equal_str(&m, "SAMPLE-AES") || chars_equal_str(&m, "SAMPLE-AES-CTR") {
                Ok(DecryptionSetup::RawWithWarning { method: e.method.clone() })
            } else {
                let mut msg = chars_of("Unsupported encryption: ");
                push_all(&mut msg, &m);
                Err(string_of(&msg))
            }
        },
    }
}

/// The segments' data after decryption: every downloaded segment `i` is
/// decrypted with segment `i`'s IV and sequence number, failed downloads are
/// left out; the first decryption error stops everything.
pub open spec fn decrypted_segments(
    dec: Option<HlsDecryptor>,
    results: Seq<Option<Seq<u8>>>,
    segments: Seq<SegmentView>,
) -> Result<Seq<Seq<u8>>, Seq<char>>
    decreases results.len(),
{
    if results.len() == 0 {
        Ok(Seq::empty())
    } else {
        match decrypted_segments(dec, results.drop_last(), segments) {
            Err(e) => Err(e),
            Ok(done) => match results.last() {
                None => Ok(done),
                Some(data) => match dec {
                    None => Ok(done.push(data)),
                    Some(d) => {
                        let seg = segments[results.len() - 1];
                        let iv = d.iv_for(seg.iv, seg.sequence);
                        let plain = spec_aes128_cbc_decrypt(d.key(), iv, data);
                        if data.len() > 0 && data.len() % 16 == 0 && pkcs7_unpad(plain) is Some {
                            Ok(done.push(pkcs7_unpad(plain).unwrap()))
                        } else {
                            Err("AES decryption failed: "@ + "Unpad Error"@)
                        }
                    },
                },
            },
        }
    }
}

/// Decrypts the downloaded segments in order (failed downloads are skipped).
pub fn decrypt_downloaded(
    dec: &Option<HlsDecryptor>,
    results: &Vec<Option<Vec<u8>>>,
    segments: &Vec<HlsSegment>,
) -> (r: Result<Vec<Vec<u8>>, String>)
    requires
        results@.len() <= segments@.len(),
    ensures
        match (r, decrypted_segments(
            *dec,
            crate::hls::opt_bytes_seq(results@),
            segments@.map_values(|s: HlsSegment| s@),
        )) {
            (Ok(v), Ok(w)) => v@.map_values(|x: Vec<u8>| x@) == w,
            (Err(e), Err(m)) => e@ == m,
            _ => false,
        },
{
    let ghost rs = crate::hls::opt_bytes_seq(results@);
    let ghost ss = segments@.map_values(|s: HlsSegment| s@);
    let mut out: Vec<Vec<u8>> = Vec::new();
    let mut i: usize = 0;
    let n = results.len();
    proof {
        assert(rs.take(0) =~= Seq::<Option<Seq<u8>>>::empty());
        assert(out@.map_values(|x: Vec<u8>| x@) =~= Seq::<Seq<u8>>::empty());
    }
    while i < n
        invariant
            i <= n,
            n == rs.len(),
            n == results@.len(),
            rs == crate::hls::opt_bytes_seq(results@),
            rs.len() <= ss.len(),
            ss == segments@.map_values(|s: HlsSegment| s@),
            decrypted_segments(*dec, rs.take(i as int), ss) matches Ok(w) && out@.map_values(
                |x: Vec<u8>| x@,
            ) == w,
        decreases n - i,
    {
        proof {
            assert(rs.take(i + 1).drop_last() =~= rs.take(i as int));
            assert(rs.take(i + 1).last() == rs[i as int]);
        }
        let ghost before = out@.map_values(|x: Vec<u8>| x@);
        match &results[i] {
            None => {},
            Some(data) => {
                match dec {
                    None => {
                        out.push(crate::engine::hls::parser::copy_bytes(data));
                        proof {
                            assert(out@.map_values(|x: Vec<u8>| x@) =~= before.push(data@));
                        }
                    },
                    Some(d) => {
                        let seg = &segments[i];
                        let iv_ref: Option<&[u8]> = match &seg.iv {
                            Some(v) => Some(v.as_slice()),
                            None => None,
                        };
                        proof {
                            assert(ss[i as int] == seg@);
                        }
                        match d.decrypt(data, iv_ref, seg.sequence) {
                            Ok(p) => {
                                let ghost pv = p@;
                                out.push(p);
                                proof {
                                    assert(out@.map_values(|x: Vec<u8>| x@) =~= before.push(pv));
                                }
                            },
                            Err(e) => {
                                proof {
                                    assert(decrypted_segments(*dec, rs.take(i + 1), ss) == Err::<Seq<Seq<u8>>, Seq<char>>(e@));
                                    lemma_decrypt_err_sticks(*dec, rs, ss, i + 1);
                                }
                                return Err(e);
                            },
                        }
                    },
                }
            },
        }
        i = i + 1;
    }
    proof {
        assert(rs.take(n as int) =~= rs);
    }
    Ok(out)
}

/// Once decryption of a prefix fails, decryption of the whole fails the same way.
proof fn lemma_decrypt_err_sticks(
    dec: Option<HlsDecryptor>,
    rs: Seq<Option<Seq<u8>>>,
    ss: Seq<SegmentView>,
    k: int,
)
    requires
        0 <= k <= rs.len(),
        decrypted_segments(dec, rs.take(k), ss) is Err,
    ensures
        decrypted_segments(dec, rs, ss) == decrypted_segments(dec, rs.take(k), ss),
    decreases rs.len() - k,
{
    if k == rs.len() {
        assert(rs.take(k) =~= rs);
    } else {
        assert(rs.take(k + 1).drop_last() =~= rs.take(k));
        lemma_decrypt_err_sticks(dec, rs, ss, k + 1);
    }
}

/// The written stream is fMP4 when there is an init segment or the first
/// segment begins with an MP4 box.
pub fn is_fragmented_mp4(has_init: bool, segments: &Vec<Vec<u8>>) -> (r: bool)
    ensures
        r == (has_init || (segments@.len() > 0 && starts_with_mp4_box(segments@[0]@))),
{
    has_init || (segments.len() > 0 && segments[0].len() >= 8 && is_mp4_box(&segments[0]))
}

/// The variant an HLS download takes from a master playlist: the last one
/// (variants are sorted by ascending bandwidth), with the line reporting it
/// ("HLS: Selected quality <label> (<bandwidth>bps)"); none in an empty
/// playlist.
pub fn best_variant(variants: &Vec<HlsVariant>) -> (r: Result<(usize, String), String>)
    ensures
        variants@.len() == 0 <==> r is Err,
        r matches Err(e) ==> e@ == "No variants in master playlist"@,
        r matches Ok((i, line)) ==> i == variants@.len() - 1 && line@ == "HLS: Selected quality "@
            + variants@[i as int].label@ + " ("@ + dec_string(variants@[i as int].bandwidth as nat) + "bps)"@,
{
    if variants.len() == 0 {
        return Err(String::from_str("No variants in master playlist"));
    }
    let i = variants.len() - 1;
    let mut line = chars_of("HLS: Selected quality ");
    push_str(&mut line, variants[i].label.as_str());
    push_str(&mut line, " (");
    push_all(&mut line, &u64_to_chars(variants[i].bandwidth));
    push_str(&mut line, "bps)");
    Ok((i, string_of(&line)))
}

/// Some segment of the playlist is a byte range.
pub fn has_byteranges(segments: &Vec<HlsSegment>) -> (r: bool)
    ensures
        r == exists|i: int| 0 <= i < segments@.len() && (#[trigger] segments@[i]).byterange is Some,
{
    let mut i: usize = 0;
    while i < segments.len()
        invariant
            i <= segments@.len(),
            forall|j: int| 0 <= j < i ==> (#[trigger] segments@[j]).byterange is None,
        decreases segments@.len() - i,
    {
        if segments[i].byterange.is_some() {
            return true;
        }
        i = i + 1;
    }
    false
}

/// The files of an HLS download in `output_dir`: the joined segments
/// (`<name>_temp.mp4` for fragmented MP4, else `.ts`), the remuxed MP4, and
/// the name the joined file takes when it cannot be remuxed.
pub fn hls_paths(output_dir: &str, filename: &str, is_fmp4: bool) -> (r: (String, String, String))
    ensures
        ({
            let ext = if is_fmp4 { "mp4"@ } else { "ts"@ };
            &&& r.0@ == output_dir@ + "/"@ + filename@ + "_temp."@ + ext
            &&& r.1@ == output_dir@ + "/"@ + filename@ + ".mp4"@
            &&& r.2@ == output_dir@ + "/"@ + filename@ + "."@ + ext
        }),
{
    let ext = if is_fmp4 { "mp4" } else { "ts" };
    let mut base = chars_of(output_dir);
    push_str(&mut base, "/");
    push_str(&mut base, filename);
    let mut temp = base.clone();
    push_str(&mut temp, "_temp.");
    push_str(&mut temp, ext);
    let mut fin = base.clone();
    push_str(&mut fin, ".mp4");
    let mut fallback = base.clone();
    push_str(&mut fallback, ".");
    push_str(&mut fallback, ext);
    (string_of(&temp), string_of(&fin), string_of(&fallback))
}

/// The wait before retry `attempt` of a segment in a byte-range playlist:
/// 1, 2, 4 and 8 seconds after the first four failures (`1 << (attempt - 1)`);
/// the fifth failure is final.
pub fn byterange_retry_delay_secs(attempt: u32) -> (r: Option<u64>)
    ensures
        r == match attempt {
            1 => Some(1u64),
            2 => Some(2u64),
            3 => Some(4u64),
            4 => Some(8u64),
            _ => None,
        },
{
    match attempt {
        1 => Some(1),
        2 => Some(2),
        3 => Some(4),
        4 => Some(8),
        _ => None,
    }
}

} // verus!
