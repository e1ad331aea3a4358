use cybersnatcher::types::{detect_site, detect_type, MediaType, DownloadManager, DownloadHandle, AppSettings};
use cybersnatcher::ffmpeg::{ConversionPreset, conversion_args, mux_args, parse_progress_line, ProgressLine,
    duration_fields, mux_failure, ffmpeg_binary_name};
use cybersnatcher::ytdlp::{sanitize_filename, ytdlp_binary_name};
use cybersnatcher::platform::Platform;
use cybersnatcher::license::{LicenseState, LicenseStatus, PersistedLicense, require_license_for_quality,
    require_license_for_conversion, activation_key, evaluate_verification, VerifyResponse, Purchase, persisted_form};
use cybersnatcher::mp4patch::{find_box, find_box_from, read_u32, write_u32, patch_durations};
use cybersnatcher::engine::{download_url, Route, segment_retry_delay_ms};
use cybersnatcher::engine::direct::{resume_offset, range_header, accept_response};
use cybersnatcher::urls::origin_of;

#[test]
fn site_and_type_detection() {
    assert_eq!(detect_site("https://youtu.be/x"), "YouTube");
    assert_eq!(detect_site("https://x.com/a/status/1"), "Twitter/X");
    assert_eq!(detect_site("https://cdn.example.com/a.m3u8"), "HLS Stream");
    assert_eq!(detect_site("https://example.com/"), "Website");
    assert_eq!(detect_type("https://www.youtube.com/watch?v=1"), MediaType::YouTube);
    assert_eq!(detect_type("https://a.example/v.mpd"), MediaType::DASH);
    assert_eq!(detect_type("https://a.example/v.webm"), MediaType::DirectVideo);
    assert_eq!(detect_type("https://a.example/v.m4a"), MediaType::DirectAudio);
    assert_eq!(detect_type("https://a.example/v.mp4?x=1"), MediaType::Unknown);
}

#[test]
fn download_registry_operations() {
    let mut m = DownloadManager::new();
    assert_eq!(m.get("j"), None);
    m.register("j", DownloadHandle { pid: None, cancelled: false });
    m.set_pid("j", 42);
    assert_eq!(m.get("j"), Some(DownloadHandle { pid: Some(42), cancelled: false }));
    assert!(!m.is_cancelled("j"));
    assert_eq!(m.cancel("j"), Some(42));
    assert!(m.is_cancelled("j"));
    assert_eq!(m.cancel("other"), None);
    m.remove("j");
    assert_eq!(m.get("j"), None);
    assert!(!m.is_cancelled("j"));
}

#[test]
fn settings_defaults() {
    let s = AppSettings::default();
    assert_eq!(s.max_concurrent, 3);
    assert_eq!(s.preferred_quality, "1080p");
    assert_eq!(s.preferred_format, "mp4");
    assert!(s.auto_convert);
}

#[test]
fn preset_arguments() {
    let a = ConversionPreset::ToMp3 { bitrate: 192 }.to_ffmpeg_args("in.mkv", "out.mp3");
    assert_eq!(a, vec!["-i", "in.mkv", "-y", "-vn", "-c:a", "libmp3lame", "-b:a", "192k", "out.mp3"]);
    let b = ConversionPreset::ToMkv.to_ffmpeg_args("i", "o");
    assert_eq!(b, vec!["-i", "i", "-y", "-c", "copy", "o"]);
    assert_eq!(ConversionPreset::Compress480p.output_ext(), "mp4");
    assert_eq!(ConversionPreset::ToWebm.output_ext(), "webm");
    assert_eq!(ConversionPreset::Remux.label(), "Remux (fix file)");
    assert_eq!(ConversionPreset::ToM4a { bitrate: 1 }.label(), "Extract M4A");
    let c = conversion_args(&ConversionPreset::ToFlac, "i", "o");
    assert_eq!(c, vec!["-progress", "pipe:1", "-nostats", "-i", "i", "-y", "-vn", "-c:a", "flac", "o"]);
    assert_eq!(mux_args("v", "a", "o"), vec!["-i", "v", "-i", "a", "-c", "copy", "-movflags", "+faststart", "-y", "o"]);
}

#[test]
fn ffmpeg_output_parsing() {
    assert_eq!(parse_progress_line("out_time_us = 1500000 "), ProgressLine::OutTimeUs("1500000".to_string()));
    assert_eq!(parse_progress_line("progress=end"), ProgressLine::End);
    assert_eq!(parse_progress_line("progress=continue"), ProgressLine::Other);
    assert_eq!(parse_progress_line("no equals"), ProgressLine::Other);
    assert_eq!(duration_fields("Input #0\n  Duration: 00:10:36.50, start: 0.0"),
        Some(("00".to_string(), "10".to_string(), "36.50".to_string())));
    assert_eq!(duration_fields("Duration: N/A, start"), None);
    assert_eq!(mux_failure("bad"), "ffmpeg mux failed: bad");
    assert_eq!(mux_failure(&"x".repeat(300)).len(), "ffmpeg mux failed: ".len() + 200);
    assert_eq!(ffmpeg_binary_name(Platform::Linux), "ffmpeg-x86_64-unknown-linux-gnu");
}

#[test]
fn filenames_sanitized() {
    assert_eq!(sanitize_filename("a<b>:c/d\\e|f?g*h\"i"), "a_b__c_d_e_f_g_h_i");
    assert_eq!(sanitize_filename("  tab\there  "), "tab_here");
    assert_eq!(sanitize_filename(&"y".repeat(250)).chars().count(), 200);
    assert_eq!(ytdlp_binary_name(Platform::MacArm), "yt-dlp-aarch64-apple-darwin");
}

fn inactive() -> LicenseState {
    LicenseState::new(None)
}

#[test]
fn license_quality_gate() {
    let l = inactive();
    assert!(!l.is_activated());
    assert_eq!(require_license_for_quality(&l, "1080p"),
        Err("Quality 1080p requires a license. Free tier supports up to 720p.".to_string()));
    assert_eq!(require_license_for_quality(&l, " 1440P "),
        Err("Quality  1440P  requires a license. Free tier supports up to 720p.".to_string()));
    assert_eq!(require_license_for_quality(&l, "720p"), Ok(()));
    assert_eq!(require_license_for_quality(&l, "audio"), Ok(()));
    assert_eq!(require_license_for_quality(&l, "best"), Ok(()));
    assert_eq!(require_license_for_quality(&l, ""), Ok(()));
    let on = LicenseState::new(Some(PersistedLicense { license_key: "K".to_string(), email: None, product_name: None }));
    assert!(on.is_activated());
    assert_eq!(require_license_for_quality(&on, "2160p"), Ok(()));
    assert_eq!(require_license_for_conversion(&on), Ok(()));
    assert!(require_license_for_conversion(&l).unwrap_err().starts_with("Video conversion requires a license."));
}

#[test]
fn license_activation_decisions() {
    assert_eq!(activation_key("  ABC  "), Ok("ABC".to_string()));
    assert_eq!(activation_key("   "), Err("License key cannot be empty".to_string()));
    let fail = VerifyResponse { success: false, purchase: None, message: None };
    assert_eq!(evaluate_verification(fail).err(), Some("Invalid license key".to_string()));
    let ok_no_purchase = VerifyResponse { success: true, purchase: None, message: None };
    assert_eq!(evaluate_verification(ok_no_purchase).err(), Some("No purchase data returned".to_string()));
    let p = Purchase { license_key: Some("K".to_string()), email: Some("e@x".to_string()), product_name: None,
        refunded: Some(false), disputed: None, chargebacked: None };
    let good = evaluate_verification(VerifyResponse { success: true, purchase: Some(p.clone()), message: None }).unwrap();
    assert!(good.activated);
    assert_eq!(good.license_key, Some("K".to_string()));
    let mut refunded = p.clone();
    refunded.refunded = Some(true);
    assert_eq!(evaluate_verification(VerifyResponse { success: true, purchase: Some(refunded), message: None }).err(),
        Some("This license has been refunded".to_string()));
    let mut disputed = p.clone();
    disputed.chargebacked = Some(true);
    assert_eq!(evaluate_verification(VerifyResponse { success: true, purchase: Some(disputed), message: None }).err(),
        Some("This license has been disputed or chargebacked".to_string()));
    assert_eq!(persisted_form(&good).unwrap().license_key, "K");
    let mut st = LicenseState::new(None);
    st.set_status(good);
    assert!(st.is_activated());
    st.deactivate();
    assert!(!st.is_activated());
    let none = LicenseStatus { activated: true, license_key: None, email: None, product_name: None };
    assert_eq!(persisted_form(&none).err(), Some("No license key to save".to_string()));
}

#[test]
fn mp4_boxes_and_fields() {
    let mut data = vec![0u8; 40];
    data[8..12].copy_from_slice(b"mvhd");
    data[24..28].copy_from_slice(&[0, 0, 0x03, 0xe8]);
    assert_eq!(find_box(&data, b"mvhd"), Some(8));
    assert_eq!(find_box_from(&data, b"mvhd", 9), None);
    assert_eq!(find_box(&[0u8; 6], b"mvhd"), None);
    assert_eq!(read_u32(&data, 24), 1000);
    assert_eq!(read_u32(&data, 38), 0);
    write_u32(&mut data, 28, 0x01020304);
    assert_eq!(&data[28..32], &[1, 2, 3, 4]);
    assert_eq!(read_u32(&data, 28), 0x01020304);
    write_u32(&mut data, 38, 5);
    assert_eq!(&data[38..40], &[0, 0]);
}

#[test]
fn engine_routing() {
    assert_eq!(download_url("https://a/x.m3u8", "/o", "f"), Route::Hls);
    assert_eq!(download_url("https://a/x.mpd", "/o", "f"), Route::UseYtdlp);
    assert_eq!(download_url("https://a/X.MKV", "/o", "f"),
        Route::Direct { ext: ".mkv".to_string(), output_path: "/o/f.mkv".to_string() });
    assert_eq!(download_url("https://a/page", "/o", "f"), Route::UseYtdlp);
    assert_eq!(segment_retry_delay_ms(1), Some(800));
    assert_eq!(segment_retry_delay_ms(2), Some(1600));
    assert_eq!(segment_retry_delay_ms(3), None);
}

#[test]
fn direct_download_decisions() {
    assert_eq!(resume_offset(100, Some(1000)), 100);
    assert_eq!(resume_offset(1000, Some(1000)), 0);
    assert_eq!(resume_offset(100, None), 0);
    assert_eq!(range_header(100), "bytes=100-");
    assert_eq!(accept_response(200, 100), Some(0));
    assert_eq!(accept_response(206, 100), Some(100));
    assert_eq!(accept_response(404, 0), None);
}

#[test]
fn origin_of_url() {
    assert_eq!(origin_of("https://example.com:8080/a?b"), Some("https://example.com".to_string()));
    assert_eq!(origin_of("::"), None);
}

#[test]
fn mp4_durations_patched_in_every_header() {
    let mut data = vec![0u8; 104];
    data[8..12].copy_from_slice(b"mvhd");
    data[24..28].copy_from_slice(&1000u32.to_be_bytes());
    data[40..44].copy_from_slice(b"mdhd");
    data[56..60].copy_from_slice(&48000u32.to_be_bytes());
    data[72..76].copy_from_slice(b"tkhd");
    assert!(patch_durations(&mut data, |ts: u32| ts * 10));
    assert_eq!(read_u32(&data, 28), 10000);
    assert_eq!(read_u32(&data, 60), 480000);
    assert_eq!(read_u32(&data, 96), 10000);
    assert_eq!(data.len(), 104);
}

#[test]
fn mp4_without_headers_is_left_alone() {
    let mut data = vec![7u8; 64];
    assert!(!patch_durations(&mut data, |ts: u32| ts));
    assert_eq!(data, vec![7u8; 64]);
    let mut tiny = vec![0u8; 30];
    tiny[0..4].copy_from_slice(b"tkhd");
    assert!(patch_durations(&mut tiny, |ts: u32| ts + 1));
    assert_eq!(read_u32(&tiny, 24), 90001);
}

#[test]
fn preset_args_frame_and_markers() {
    let all = [
        ConversionPreset::ToMp4, ConversionPreset::ToMp4H264, ConversionPreset::ToMp4H265, ConversionPreset::ToMkv,
        ConversionPreset::ToWebm, ConversionPreset::ToMp3 { bitrate: 128 }, ConversionPreset::ToM4a { bitrate: 256 },
        ConversionPreset::ToFlac, ConversionPreset::ToWav, ConversionPreset::Remux, ConversionPreset::Compress720p,
        ConversionPreset::Compress480p,
    ];
    let mut labels: Vec<&str> = Vec::new();
    for p in all.iter() {
        let a = p.to_ffmpeg_args("in.mkv", "out.x");
        assert_eq!(&a[0..3], &["-i".to_string(), "in.mkv".to_string(), "-y".to_string()]);
        assert_eq!(a.last().unwrap(), "out.x");
        let audio = ["mp3", "m4a", "flac", "wav"].contains(&p.output_ext());
        assert_eq!(a.contains(&"-vn".to_string()), audio);
        assert_eq!(a.contains(&"+faststart".to_string()), p.output_ext() == "mp4");
        assert_eq!(p.label().starts_with("Extract "), audio);
        assert!(!labels.contains(&p.label()));
        labels.push(p.label());
    }
    assert_eq!(ConversionPreset::ToMp3 { bitrate: 128 }.label(), ConversionPreset::ToMp3 { bitrate: 320 }.label());
    assert_eq!(ConversionPreset::ToM4a { bitrate: 96 }.output_ext(), "m4a");
}
