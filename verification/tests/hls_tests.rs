use cybersnatcher::engine::hls::parser::{parse_m3u8, m3u8_is_panic_free, M3u8Result, parse_hex_iv, parse_attr};
use cybersnatcher::engine::hls::live::{LiveAction, LiveRecorder};
use cybersnatcher::engine::hls::crypto::{sequence_to_iv, right_align_iv, HlsDecryptor};
use cybersnatcher::engine::hls::{best_variant, has_byteranges, hls_paths, byterange_retry_delay_secs,
    decryption_setup, DecryptionSetup, is_mp4_box};
use cybersnatcher::hls::{parse_hls_url, select_quality_index, check_key_size, sequence_iv, SeenSequences};
use aes::cipher::{BlockEncryptMut, KeyIvInit};

const MASTER: &str = "#EXTM3U\n#EXT-X-STREAM-INF:BANDWIDTH=2000000,RESOLUTION=1280x720\nhigh/index.m3u8\n#EXT-X-STREAM-INF:BANDWIDTH=800000\nlow/index.m3u8\n";

const MEDIA: &str = "#EXTM3U\n#EXT-X-TARGETDURATION:10\n#EXT-X-MEDIA-SEQUENCE:5\n#EXT-X-KEY:METHOD=AES-128,URI=\"key.bin\"\n#EXTINF:9.5,\nseg0.ts\n#EXTINF:10.0,\nseg1.ts\n#EXT-X-ENDLIST\n";

#[test]
fn master_playlist_sorted_by_bandwidth() {
    assert!(m3u8_is_panic_free(MASTER));
    match parse_m3u8(MASTER, "https://cdn.example.com/video/master.m3u8") {
        Ok(M3u8Result::Master(m)) => {
            assert_eq!(m.variants.len(), 2);
            assert_eq!(m.variants[0].bandwidth, 800000);
            assert_eq!(m.variants[0].label, "800k");
            assert_eq!(m.variants[0].url, "https://cdn.example.com/video/low/index.m3u8");
            assert_eq!(m.variants[1].label, "720p");
            assert_eq!(m.variants[1].height, Some(720));
            let (i, line) = best_variant(&m.variants).unwrap();
            assert_eq!(i, 1);
            assert_eq!(line, "HLS: Selected quality 720p (2000000bps)");
        },
        _ => panic!("expected a master playlist"),
    }
}

#[test]
fn media_playlist_segments_numbered_from_sequence() {
    assert!(m3u8_is_panic_free(MEDIA));
    match parse_m3u8(MEDIA, "https://cdn.example.com/v/index.m3u8") {
        Ok(M3u8Result::Media(m)) => {
            assert_eq!(m.segments.len(), 2);
            assert_eq!(m.media_sequence, 5);
            assert_eq!(m.segments[0].sequence, 5);
            assert_eq!(m.segments[1].sequence, 6);
            assert_eq!(m.segments[1].url, "https://cdn.example.com/v/seg1.ts");
            assert_eq!(m.durations, vec!["9.5".to_string(), "10.0".to_string()]);
            assert!(!m.is_live);
            let enc = m.encryption.clone().unwrap();
            assert_eq!(enc.method, "AES-128");
            assert_eq!(enc.key_uri, "https://cdn.example.com/v/key.bin");
            assert!(!has_byteranges(&m.segments));
            match decryption_setup(&m.encryption) {
                Ok(DecryptionSetup::Aes128 { key_uri, iv }) => {
                    assert_eq!(key_uri, "https://cdn.example.com/v/key.bin");
                    assert!(iv.is_none());
                },
                _ => panic!("expected AES-128 setup"),
            }
        },
        _ => panic!("expected a media playlist"),
    }
}

#[test]
fn not_a_playlist_is_refused() {
    match parse_m3u8("hello", "https://x/") {
        Err(e) => assert_eq!(e, "Not a valid M3U8 playlist"),
        Ok(_) => panic!("should fail"),
    }
}

#[test]
fn unsupported_encryption_is_refused() {
    let text = "#EXTM3U\n#EXT-X-KEY:METHOD=WEIRD,URI=\"k\"\n#EXTINF:1,\na.ts\n";
    match parse_m3u8(text, "https://x/p.m3u8") {
        Ok(M3u8Result::Media(m)) => match decryption_setup(&m.encryption) {
            Err(e) => assert_eq!(e, "Unsupported encryption: WEIRD"),
            Ok(DecryptionSetup::Clear) => {},
            Ok(_) => panic!("unexpected setup"),
        },
        _ => panic!("expected media"),
    }
}

#[test]
fn hex_iv_and_sequence_iv() {
    assert_eq!(parse_hex_iv(&"0x000102030405060708090a0b0c0d0e0f".chars().collect::<Vec<char>>()),
        Some((0u8..16).collect::<Vec<u8>>()));
    let iv = sequence_to_iv(258);
    assert_eq!(iv[14], 1);
    assert_eq!(iv[15], 2);
    assert_eq!(iv[0], 0);
    assert_eq!(sequence_iv(258), iv);
    let r = right_align_iv(&[7u8, 8]);
    assert_eq!(r[14], 7);
    assert_eq!(r[15], 8);
}

fn encrypt(key: &[u8; 16], iv: &[u8; 16], data: &[u8]) -> Vec<u8> {
    let mut buf = vec![0u8; data.len() + 16];
    let n = cbc::Encryptor::<aes::Aes128>::new(key.into(), iv.into())
        .encrypt_padded_b2b_mut::<block_padding::Pkcs7>(data, &mut buf)
        .unwrap()
        .len();
    buf.truncate(n);
    buf
}

#[test]
fn decryptor_round_trip_with_sequence_iv() {
    let key = [3u8; 16];
    let plain = b"segment payload that spans more than one block".to_vec();
    let cipher = encrypt(&key, &sequence_to_iv(9), &plain);
    let d = HlsDecryptor::new(&key, None).unwrap();
    assert_ne!(cipher, plain);
    assert_eq!(d.decrypt(&cipher, None, 9).unwrap(), plain);
    let wrong = d.decrypt(&cipher[..cipher.len() - 1], None, 9);
    assert_eq!(wrong.unwrap_err(), "AES decryption failed: Unpad Error");
}

#[test]
fn decryptor_refuses_short_keys() {
    match HlsDecryptor::new(&[1u8; 15], None) {
        Err(e) => assert_eq!(e, "AES key is 15 bytes, expected 16"),
        Ok(_) => panic!("should fail"),
    }
    assert_eq!(check_key_size(&[0u8; 8]), Err("Key size 8 != 16".to_string()));
    assert_eq!(check_key_size(&[0u8; 16]), Ok(()));
}

#[test]
fn parse_hls_url_media_summary() {
    let r = parse_hls_url("https://x/v.m3u8", MEDIA);
    assert!(!r.is_master);
    assert_eq!(r.qualities.len(), 1);
    assert_eq!(r.qualities[0].label, "Default");
    let info = r.media_info.unwrap();
    assert_eq!(info.segments, 2);
    assert!(info.encrypted);
}

#[test]
fn quality_index_is_capped() {
    assert_eq!(select_quality_index(Some(7), 3), Some(2));
    assert_eq!(select_quality_index(None, 3), Some(2));
    assert_eq!(select_quality_index(Some(0), 3), Some(0));
    assert_eq!(select_quality_index(Some(0), 0), None);
}

#[test]
fn seen_sequences_remember_inserts() {
    let mut s = SeenSequences::new();
    assert!(!s.contains(4));
    s.insert(4);
    assert!(s.contains(4));
    assert!(!s.contains(5));
}

#[test]
fn hls_output_paths_and_retries() {
    let (t, f, b) = hls_paths("/out", "clip", false);
    assert_eq!(t, "/out/clip_temp.ts");
    assert_eq!(f, "/out/clip.mp4");
    assert_eq!(b, "/out/clip.ts");
    let (t2, _, _) = hls_paths("/out", "clip", true);
    assert_eq!(t2, "/out/clip_temp.mp4");
    assert_eq!(byterange_retry_delay_secs(1), Some(1));
    assert_eq!(byterange_retry_delay_secs(4), Some(8));
    assert_eq!(byterange_retry_delay_secs(5), None);
    assert!(is_mp4_box(&[0, 0, 0, 24, b'f', b't', b'y', b'p']));
    assert!(!is_mp4_box(&[0x47, 0, 0, 0, 0, 0, 0, 0]));
}

fn chars(s: &str) -> Vec<char> {
    s.chars().collect()
}

#[test]
fn attributes_match_whole_item_names() {
    let tag = chars("#EXT-X-KEY:METHOD=AES-128,URI=\"https://k/1\",IV=0x01");
    assert_eq!(parse_attr(&tag, "METHOD"), Some(chars("AES-128")));
    assert_eq!(parse_attr(&tag, "URI"), Some(chars("https://k/1")));
    assert_eq!(parse_attr(&tag, "IV"), Some(chars("0x01")));
    assert_eq!(parse_attr(&tag, "KEYFORMAT"), None);
    let inner = chars("#EXT-X-STREAM-INF:AVERAGE-BANDWIDTH=5,BANDWIDTH=7");
    assert_eq!(parse_attr(&inner, "BANDWIDTH"), Some(chars("7")));
    let stream = chars("#EXT-X-STREAM-INF:AVERAGE-BANDWIDTH=500000,BANDWIDTH=800000");
    assert_eq!(parse_attr(&stream, "BANDWIDTH"), Some(chars("800000")));
    assert_eq!(parse_attr(&chars("#EXT-X-KEY:METHOD=AES-128,KEYIV=9"), "IV"), None);
    assert_eq!(parse_attr(&inner, "AVERAGE-BANDWIDTH"), Some(chars("5")));
}

fn live_playlist(first: u64, count: u64, ended: bool) -> cybersnatcher::engine::hls::parser::HlsMediaPlaylist {
    let mut text = format!("#EXTM3U\n#EXT-X-TARGETDURATION:4\n#EXT-X-MEDIA-SEQUENCE:{}\n", first);
    for i in 0..count {
        text.push_str(&format!("#EXTINF:4.0,\nseg{}.ts\n", first + i));
    }
    if ended {
        text.push_str("#EXT-X-ENDLIST\n");
    }
    match parse_m3u8(&text, "https://live.example.com/index.m3u8") {
        Ok(M3u8Result::Media(m)) => m,
        _ => panic!("not a media playlist"),
    }
}

fn seqs(p: &cybersnatcher::engine::hls::parser::HlsMediaPlaylist) -> Vec<u64> {
    p.segments.iter().map(|s| s.sequence).collect()
}

#[test]
fn live_recorder_takes_each_segment_once() {
    let mut rec = LiveRecorder::new();
    let p1 = live_playlist(5, 2, false);
    assert!(p1.is_live);
    assert!(matches!(rec.on_playlist(&seqs(&p1), p1.is_live), LiveAction::Fetch(0)));
    assert!(matches!(rec.on_segment(true), LiveAction::Fetch(1)));
    assert!(matches!(rec.on_segment(false), LiveAction::Poll));
    let p2 = live_playlist(6, 2, false);
    assert!(matches!(rec.on_playlist(&seqs(&p2), p2.is_live), LiveAction::Fetch(1)));
    assert!(matches!(rec.on_segment(true), LiveAction::Poll));
    let p3 = live_playlist(6, 2, false);
    assert!(matches!(rec.on_playlist(&seqs(&p3), p3.is_live), LiveAction::Poll));
    let p4 = live_playlist(7, 2, true);
    assert!(!p4.is_live);
    assert!(matches!(rec.on_playlist(&seqs(&p4), p4.is_live), LiveAction::Fetch(1)));
    assert!(matches!(rec.on_segment(true), LiveAction::Finish));
}

#[test]
fn live_recorder_with_nothing_recorded_fails() {
    let mut rec = LiveRecorder::new();
    match rec.on_cancel() {
        LiveAction::Fail(m) => assert_eq!(m, "No segments recorded"),
        _ => panic!("expected a failure"),
    }
    let p = live_playlist(1, 1, true);
    assert!(matches!(rec.on_playlist(&seqs(&p), p.is_live), LiveAction::Fetch(0)));
    match rec.on_segment(false) {
        LiveAction::Fail(m) => assert_eq!(m, "No segments recorded"),
        _ => panic!("expected a failure"),
    }
    let mut rec2 = LiveRecorder::new();
    let q = live_playlist(1, 2, false);
    assert!(matches!(rec2.on_playlist(&seqs(&q), q.is_live), LiveAction::Fetch(0)));
    assert!(matches!(rec2.on_segment(true), LiveAction::Fetch(1)));
    assert!(matches!(rec2.on_cancel(), LiveAction::Finish));
}
