use cybersnatcher::commands::favorites::{add_favorite, is_favorite, remove_favorite, FavoriteItem};
use cybersnatcher::commands::convert::conversion_output_path;
use cybersnatcher::commands::download::{output_template, ytdlp_args, classify_output_line, OutputLine,
    stderr_log_line, output_candidates, find_output_file, initiating_line, start_failure_line};
use cybersnatcher::commands::recording::{RecordingState, RecordingStatus, RecordingFrame, rgba_to_rgb, recording_filename};
use cybersnatcher::commands::browser::{BrowserState, stream_detection_script};
use cybersnatcher::commands::detect::{sample_indices, estimate_size, title_from_page_url, size_acceptable};
use cybersnatcher::commands::analyze::{extract_qualities, FormatInfo, friendly_error, update_message, site_name};
use cybersnatcher::commands::browser_download::{stream_engine, StreamEngine, starting_line, finished_line};
use cybersnatcher::ffmpeg::ConversionPreset;

fn fav(id: &str, url: &str) -> (String, String, String, Option<String>, u64) {
    (id.to_string(), url.to_string(), "t".to_string(), None, 1)
}

#[test]
fn favorites_add_front_once() {
    let mut items: Vec<FavoriteItem> = vec![];
    let (i, u, t, f, c) = fav("1", "https://a.example");
    assert!(add_favorite(&mut items, i, u, t, f, c));
    let (i, u, t, f, c) = fav("2", "https://b.example");
    assert!(add_favorite(&mut items, i, u, t, f, c));
    let (i, u, t, f, c) = fav("3", "https://a.example");
    assert!(!add_favorite(&mut items, i, u, t, f, c));
    assert_eq!(items.len(), 2);
    assert_eq!(items[0].id, "2");
    assert!(is_favorite(&items, "https://a.example"));
    remove_favorite(&mut items, "1");
    assert!(!is_favorite(&items, "https://a.example"));
    assert_eq!(items.len(), 1);
}

#[test]
fn conversion_paths() {
    assert_eq!(conversion_output_path("/v/clip.mkv", &ConversionPreset::ToMp4), "/v/clip.mp4");
    assert_eq!(conversion_output_path("/v/clip.mp4", &ConversionPreset::ToMp4), "/v/clip_converted.mp4");
    assert_eq!(conversion_output_path("/v/noext", &ConversionPreset::ToMkv), "/v/noext.mkv");
    assert_eq!(conversion_output_path("/v/a_converted.mp4", &ConversionPreset::Remux), "/v/a_converted_converted.mp4");
    assert_eq!(conversion_output_path("noext", &ConversionPreset::ToMp3 { bitrate: 192 }), "noext.mp3");
}

#[test]
fn download_output_template() {
    assert_eq!(output_template("My: Video?", ""), "My_ Video_.%(ext)s");
    assert_eq!(output_template("x", "C:\\Users\\me\\"), "C:/Users/me/x.%(ext)s");
}

#[test]
fn ytdlp_arguments_by_quality() {
    let a = ytdlp_args("https://u", "t.%(ext)s", Some("/ff"), "1080p", "MP4", true);
    let want: Vec<&str> = vec!["--newline", "--no-warnings", "--no-playlist", "--progress-template",
        "download:CYBERPROG|||%(progress._percent_str)s|||%(progress._speed_str)s|||%(progress._eta_str)s",
        "-o", "t.%(ext)s", "--ffmpeg-location", "/ff", "-f",
        "bestvideo[height<=1080]+bestaudio/best[height<=1080]", "--merge-output-format", "mp4",
        "--write-subs", "--write-auto-subs", "--sub-langs", "all", "--embed-subs", "https://u"];
    assert_eq!(a, want.iter().map(|s| s.to_string()).collect::<Vec<String>>());
    let b = ytdlp_args("https://u", "t", None, "audio", "MP4", false);
    assert_eq!(&b[7..], &["-x".to_string(), "--audio-format".to_string(), "mp3".to_string(), "https://u".to_string()]);
    let c = ytdlp_args("https://u", "t", None, "best", "Default", false);
    assert_eq!(c.len(), 8);
}

#[test]
fn ytdlp_output_lines() {
    assert_eq!(classify_output_line("CYBERPROG||| 42.5% ||| 1.2MiB/s ||| 00:10"), OutputLine::Progress {
        percent: "42.5".to_string(), speed: "1.2MiB/s".to_string(), eta: "00:10".to_string() });
    assert_eq!(classify_output_line("CYBERPROG|||x"), OutputLine::Nothing);
    assert_eq!(classify_output_line("[Merger] Merging"), OutputLine::Converting("[Merger] Merging".to_string()));
    assert_eq!(classify_output_line("[download] hi"), OutputLine::Log("[download] hi".to_string()));
    assert_eq!(classify_output_line("   "), OutputLine::Nothing);
    assert_eq!(stderr_log_line("oops"), Some("[stderr] oops".to_string()));
    assert_eq!(stderr_log_line(" "), None);
}

#[test]
fn finished_file_lookup() {
    let c = output_candidates("/d/v.%(ext)s");
    assert_eq!(c[0], "/d/v.mp4");
    assert_eq!(c[7], "/d/v.wav");
    let mut ex = vec![false; 8];
    ex[2] = true;
    ex[5] = true;
    assert_eq!(find_output_file("/d/v.%(ext)s", &ex), "/d/v.webm");
    assert_eq!(find_output_file("/d/v.%(ext)s", &vec![false; 8]), "/d/v.mp4");
    assert_eq!(initiating_line("u"), "Initiating download: u");
    assert_eq!(start_failure_line("no file"), "Failed to start yt-dlp: no file. Is it installed?");
}

#[test]
fn recording_lifecycle() {
    let mut r = RecordingState::new();
    assert_eq!(r.capture_region, (0, 0, 400, 300));
    assert_eq!(r.stop().err(), Some("Not recording".to_string()));
    assert!(r.start((1, 2, 3, 4)).is_ok());
    assert_eq!(r.start((1, 2, 3, 4)).err(), Some("Already recording".to_string()));
    assert!(r.is_recording());
    assert_eq!(r.stop().err(), Some("No frames captured".to_string()));
    assert_eq!(r.status, RecordingStatus::Idle);
    r.start((0, 0, 1, 1)).unwrap();
    r.push_frame(RecordingFrame { rgba: vec![1, 2, 3, 4], width: 1, height: 1 });
    let frames = r.stop().unwrap();
    assert_eq!(frames.len(), 1);
    assert!(!r.is_recording());
    assert_eq!(rgba_to_rgb(&vec![1, 2, 3, 255, 4, 5, 6, 255]), vec![1, 2, 3, 4, 5, 6]);
    assert_eq!(rgba_to_rgb(&vec![1, 2, 3]), vec![1, 2, 3]);
    assert_eq!(recording_filename(1700000000), "CyberSnatcher_Recording_1700000000.gif");
}

#[test]
fn browser_state_label() {
    let mut b = BrowserState::new();
    assert!(b.webview_label.is_none());
    b.opened();
    assert_eq!(b.webview_label.clone(), Some("browser-webview".to_string()));
    assert_eq!(b.closed(), Some("browser-webview".to_string()));
    assert!(b.webview_label.is_none());
}

#[test]
fn stream_size_estimates() {
    assert_eq!(sample_indices(0), Vec::<usize>::new());
    assert_eq!(sample_indices(2), vec![0, 1]);
    assert_eq!(sample_indices(10), vec![0, 3, 6]);
    assert_eq!(estimate_size(&vec![Some(100), None, Some(300)], 10), Some(2000));
    assert_eq!(estimate_size(&vec![None, None], 10), None);
    assert_eq!(title_from_page_url("https://www.example.com/watch?v=1"), "www.example.com");
    assert_eq!(title_from_page_url("http://host"), "host");
    assert!(!size_acceptable(Some(5), 10));
    assert!(size_acceptable(None, 10));
}

fn fmt(v: &str, a: &str, h: Option<u64>, id: &str, audio: Option<&str>) -> FormatInfo {
    FormatInfo {
        vcodec: Some(v.to_string()),
        acodec: Some(a.to_string()),
        height: h,
        ext: None,
        format_id: Some(id.to_string()),
        filesize: None,
        filesize_approx: Some(10),
        audio_label: audio.map(|s| s.to_string()),
    }
}

#[test]
fn analysis_qualities_best_first() {
    let formats = vec![
        fmt("none", "opus", None, "a1", Some("Audio 50kbps")),
        fmt("avc1", "none", Some(360), "v360", None),
        fmt("avc1", "none", Some(720), "v720a", None),
        fmt("vp9", "none", Some(720), "v720b", None),
        fmt("none", "mp4a", None, "a2", Some("Audio 128kbps")),
    ];
    let q = extract_qualities(&formats);
    let got: Vec<(String, String)> = q.iter().map(|q| (q.label.clone(), q.format_id.clone())).collect();
    assert_eq!(got, vec![
        ("720p".to_string(), "v720b".to_string()),
        ("360p".to_string(), "v360".to_string()),
        ("Audio 128kbps".to_string(), "a2".to_string()),
    ]);
    assert_eq!(q[0].ext, "mp4");
    assert_eq!(q[0].file_size, Some(10));
}

#[test]
fn analysis_messages() {
    assert_eq!(friendly_error("ERROR: Unsupported URL: x"), "This URL isn't supported. Try a direct video link from YouTube, Twitter, TikTok, etc.");
    assert_eq!(friendly_error("HTTP Error 403: Forbidden"), "Access denied \u{2014} the site may require login or have geo-restrictions.");
    assert_eq!(friendly_error("HTTP Error 404"), "Video not found \u{2014} the link may be broken or the video was deleted.");
    assert_eq!(friendly_error("urlopen error"), "Connection failed \u{2014} check your internet connection.");
    assert_eq!(friendly_error("first\nlast line\r\n"), "yt-dlp error: last line");
    assert_eq!(friendly_error(""), "yt-dlp error: Unknown error");
    assert_eq!(update_message("Updated yt-dlp to 2024", true), "Updated yt-dlp to 2024");
    assert_eq!(update_message("yt-dlp is up to date", true), "Already up to date.");
    assert_eq!(update_message("error", false), "Update not available (installed via package manager?).");
    assert_eq!(update_message("other", true), "other");
    assert_eq!(site_name(Some("youtube"), "https://x"), "youtube");
    assert_eq!(site_name(Some(""), "https://www.reddit.com/r/x"), "Reddit");
}

#[test]
fn browser_download_routing() {
    assert_eq!(stream_engine("hls"), Ok(StreamEngine::Hls));
    assert_eq!(stream_engine("dash"), Ok(StreamEngine::Dash));
    assert_eq!(stream_engine("rtmp"), Err("Unknown stream type: rtmp".to_string()));
    assert_eq!(starting_line("hls"), "Browser HLS: Starting native download (no yt-dlp)");
    assert_eq!(finished_line("dash", &Ok("p".to_string())), "Browser DASH download complete");
    assert_eq!(finished_line("dash", &Err("e".to_string())), "Browser download error: e");
}

#[test]
fn detection_script_reports_manifests() {
    let js = stream_detection_script();
    assert!(js.contains("window.__cybersnatcher_injected = true;"));
    assert!(js.contains(".m3u8"));
    assert!(js.contains(".mpd"));
}
