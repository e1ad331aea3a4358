use cybersnatcher::engine::dash::parser::{parse_mpd, timescales, finish_manifest, iso_duration_parts,
    substitute_template, SegmentSource, expand_template, TemplatePlan};
use cybersnatcher::engine::dash::{select_tracks, dash_paths, segments_line, first_finish_step, next_finish_step, FinishStep};
use cybersnatcher::dash::{build_seg_url, resolve_url, extract_qualities, choose_representations, parse_dash_text, mpd_is_panic_free,
    resolve_segments, MpdModel, AdaptationModel, RepresentationModel, TemplateModel, ListModel};

const MPD: &str = r#"<?xml version="1.0"?>
<MPD xmlns="urn:mpeg:dash:schema:mpd:2011" type="static" mediaPresentationDuration="PT8S">
  <BaseURL>https://media.example.com/stream/</BaseURL>
  <Period>
    <AdaptationSet mimeType="video/mp4">
      <SegmentTemplate media="v_$RepresentationID$_$Number%03d$.m4s" initialization="v_$RepresentationID$_init.mp4" timescale="1000" startNumber="1">
        <SegmentTimeline>
          <S t="0" d="4000" r="1"/>
        </SegmentTimeline>
      </SegmentTemplate>
      <Representation id="hi" bandwidth="3000000" height="1080" width="1920" codecs="avc1"/>
      <Representation id="lo" bandwidth="500000" height="360"/>
    </AdaptationSet>
    <AdaptationSet mimeType="audio/mp4">
      <Representation id="a1" bandwidth="128000">
        <BaseURL>audio.mp4</BaseURL>
      </Representation>
    </AdaptationSet>
    <AdaptationSet contentType="text">
      <Representation id="sub" bandwidth="100"/>
    </AdaptationSet>
  </Period>
</MPD>"#;

#[test]
fn mpd_tracks_classified_and_sorted() {
    let outline = parse_mpd(MPD, "https://media.example.com/manifest.mpd").unwrap();
    assert_eq!(outline.duration_text, Some("PT8S".to_string()));
    assert!(!outline.is_live);
    assert_eq!(outline.tracks.len(), 4);
    let ts = timescales(&outline);
    assert_eq!(ts, vec![Some(1000), Some(1000), None, None]);
    let totals: Vec<Option<u64>> = ts.iter().map(|t| t.map(|t| 8 * t)).collect();
    let (video, audio) = finish_manifest(&outline, &totals);
    assert_eq!(video.len(), 2);
    assert_eq!(video[0].id, "lo");
    assert_eq!(video[0].label, "360p");
    assert_eq!(video[1].id, "hi");
    assert_eq!(video[1].codecs, Some("avc1".to_string()));
    assert_eq!(video[1].init_url, Some("https://media.example.com/stream/v_hi_init.mp4".to_string()));
    assert_eq!(video[1].segment_urls, vec![
        "https://media.example.com/stream/v_hi_001.m4s".to_string(),
        "https://media.example.com/stream/v_hi_002.m4s".to_string(),
    ]);
    assert_eq!(audio.len(), 1);
    assert_eq!(audio[0].segment_urls, vec!["https://media.example.com/stream/audio.mp4".to_string()]);
    assert_eq!(audio[0].label, "128k");
    let sel = select_tracks(outline.is_live, &video, &audio).unwrap();
    assert_eq!(sel.video, 1);
    assert_eq!(sel.audio, Some(0));
    assert_eq!(sel.summary, "DASH: Video=1080p (3000000bps, 2 segments), Audio=128k (128000bps, 1 segments)");
}

#[test]
fn mpd_errors() {
    let e = parse_mpd("<MPD", "https://x/").err().unwrap();
    assert!(e.starts_with("Failed to parse MPD XML: "));
    assert_eq!(parse_mpd("<root/>", "https://x/").err().unwrap(), "Root element is not MPD");
}

#[test]
fn fixed_duration_template_covers_presentation() {
    let mpd = r#"<MPD mediaPresentationDuration="PT10S"><Period><AdaptationSet mimeType="video/mp4">
      <Representation id="r" bandwidth="1000" height="240">
        <SegmentTemplate media="s$Number$.m4s" duration="4" timescale="1" startNumber="5"/>
      </Representation></AdaptationSet></Period></MPD>"#;
    let outline = parse_mpd(mpd, "https://h.example/m/x.mpd").unwrap();
    match &outline.tracks[0].source {
        SegmentSource::Template(p) => {
            assert_eq!(p.duration, Some(4));
            assert_eq!(p.start_number, 5);
        },
        _ => panic!("expected a template"),
    }
    let (video, _) = finish_manifest(&outline, &vec![Some(10)]);
    assert_eq!(video[0].segment_urls, vec![
        "https://h.example/m/s5.m4s".to_string(),
        "https://h.example/m/s6.m4s".to_string(),
        "https://h.example/m/s7.m4s".to_string(),
    ]);
    let (no_length, _) = finish_manifest(&outline, &vec![None]);
    assert!(no_length[0].segment_urls.is_empty());
}

#[test]
fn negative_repeat_fills_to_the_end() {
    let mpd = r#"<MPD><Period><AdaptationSet contentType="video">
      <SegmentTemplate media="t$Time$.m4s" timescale="10">
        <SegmentTimeline><S t="0" d="20" r="-1"/></SegmentTimeline>
      </SegmentTemplate>
      <Representation id="v" bandwidth="1"/></AdaptationSet></Period></MPD>"#;
    let outline = parse_mpd(mpd, "https://h.example/").unwrap();
    let (video, _) = finish_manifest(&outline, &vec![Some(60)]);
    assert_eq!(video[0].segment_urls, vec![
        "https://h.example/t0.m4s".to_string(),
        "https://h.example/t20.m4s".to_string(),
        "https://h.example/t40.m4s".to_string(),
        "https://h.example/t60.m4s".to_string(),
    ]);
}

#[test]
fn drm_and_live_refused() {
    let drm = r#"<MPD><Period><AdaptationSet mimeType="video/mp4">
      <ContentProtection schemeIdUri="urn:uuid:edef8ba9-79d6-4ace-a3c8-27dcd51d21ed"/>
      <Representation id="v" bandwidth="1"/></AdaptationSet></Period></MPD>"#;
    let outline = parse_mpd(drm, "https://h.example/").unwrap();
    assert!(outline.tracks[0].is_drm);
    let (video, audio) = finish_manifest(&outline, &vec![None]);
    let e = select_tracks(false, &video, &audio).err().unwrap();
    assert!(e.starts_with("DRM protected content"));
    assert_eq!(select_tracks(true, &video, &audio).err().unwrap(), "Live DASH streams are not yet supported");
    assert_eq!(select_tracks(false, &vec![], &vec![]).err().unwrap(), "No video tracks found in DASH manifest");
    let live = parse_mpd(r#"<MPD type="dynamic"/>"#, "https://h.example/").unwrap();
    assert!(live.is_live);
}

#[test]
fn iso_duration_split_into_parts() {
    assert_eq!(iso_duration_parts("PT1H30M15.5S"), vec![
        ("1".to_string(), 'H'), ("30".to_string(), 'M'), ("15.5".to_string(), 'S'),
    ]);
    assert_eq!(iso_duration_parts("P1DT2H"), vec![("1".to_string(), 'D'), ("2".to_string(), 'H')]);
}

#[test]
fn substitute_template_fields() {
    assert_eq!(substitute_template("$RepresentationID$/$Bandwidth$/$Time$/$Number$", "v", 800, 3, 90), "v/800/90/3");
    assert_eq!(substitute_template("n$Number%0d$", "v", 0, 7, 0), "n7");
}

#[test]
fn build_seg_url_pads_numbers() {
    assert_eq!(build_seg_url("seg_$RepresentationID$_$Number%05d$.m4s", "1", 500000, 42, 0), "seg_1_00042.m4s");
    assert_eq!(build_seg_url("$Bandwidth$-$Time$-$Number$", "x", 7, 2, 99), "7-99-2");
    assert_eq!(resolve_url("https://a.example/d/m.mpd", "s.m4s"), "https://a.example/d/s.m4s");
    assert_eq!(resolve_url("bad base", "s.m4s"), "s.m4s");
}

fn rep(id: &str, bw: u64, height: Option<u64>) -> RepresentationModel {
    RepresentationModel {
        id: Some(id.to_string()),
        bandwidth: Some(bw),
        height,
        codecs: None,
        segment_template: None,
        segment_list: None,
        base_urls: vec![],
    }
}

fn set(mime: &str, reps: Vec<RepresentationModel>) -> AdaptationModel {
    AdaptationModel { mime_type: Some(mime.to_string()), content_type: None, segment_template: None,
        segment_list: None, representations: reps }
}

#[test]
fn dash_qualities_and_choice() {
    let mpd = MpdModel { periods: vec![vec![
        set("video/mp4", vec![rep("a", 900, Some(480)), rep("b", 300, None), rep("c", 900, Some(720))]),
        set("audio/mp4", vec![rep("x", 64, None), rep("y", 128, None)]),
    ]] };
    let (q, has_audio) = extract_qualities(&mpd);
    assert!(has_audio);
    let labels: Vec<String> = q.iter().map(|q| q.label.clone()).collect();
    assert_eq!(labels, vec!["0k".to_string(), "480p".to_string(), "720p".to_string()]);
    assert_eq!(choose_representations(&mpd, None), Ok(((0, 0, 2), Some((0, 1, 1)))));
    assert_eq!(choose_representations(&mpd, Some("a")), Ok(((0, 0, 0), Some((0, 1, 1)))));
    assert_eq!(choose_representations(&mpd, Some("zz")), Ok(((0, 0, 2), Some((0, 1, 1)))));
    let no_video = MpdModel { periods: vec![vec![set("audio/mp4", vec![rep("x", 1, None)])]] };
    assert_eq!(choose_representations(&no_video, None), Err("No video track in MPD".to_string()));
    let empty_video = MpdModel { periods: vec![vec![set("video/mp4", vec![])]] };
    assert_eq!(choose_representations(&empty_video, None), Err("No video representation found".to_string()));
}

#[test]
fn dash_segment_sources() {
    let mut r = rep("v1", 1000, None);
    r.segment_template = Some(TemplateModel {
        media: Some("$RepresentationID$-$Number$.m4s".to_string()),
        initialization: Some("$RepresentationID$-init.mp4".to_string()),
        timescale: Some(1),
        start_number: None,
        timeline: Some(vec![(Some(0), 2, Some(1)), (None, 2, None)]),
        fixed_times: vec![],
    });
    let a = set("video/mp4", vec![]);
    let urls = resolve_segments(&a, &r, "https://h.example/x/m.mpd");
    assert_eq!(urls.init_url, "https://h.example/x/v1-init.mp4");
    assert_eq!(urls.segment_urls, vec![
        "https://h.example/x/v1-1.m4s".to_string(),
        "https://h.example/x/v1-2.m4s".to_string(),
        "https://h.example/x/v1-3.m4s".to_string(),
    ]);
    let mut l = rep("v2", 1, None);
    l.segment_list = Some(ListModel { initialization: None, media: vec![Some("a.m4s".to_string()), None] });
    let lu = resolve_segments(&a, &l, "https://h.example/x/m.mpd");
    assert_eq!(lu.init_url, "");
    assert_eq!(lu.segment_urls, vec!["https://h.example/x/a.m4s".to_string()]);
    let b = rep("v3", 1, None);
    let bu = resolve_segments(&a, &b, "https://h.example/x/m.mpd");
    assert_eq!(bu.init_url, "https://h.example/x/m.mpd");
}

#[test]
fn dash_paths_and_lines() {
    let (v, a, m) = dash_paths("/o", "f");
    assert_eq!(v, "/o/f_video_temp.m4s");
    assert_eq!(a, "/o/f_audio_temp.m4s");
    assert_eq!(m, "/o/f.mp4");
    assert_eq!(segments_line(12, "video"), "DASH: Downloading 12 video segments");
}

#[test]
fn expanded_template_numbers_and_times() {
    let plan = TemplatePlan {
        media: "seg_$Number$_$Time$.m4s".to_string(),
        init_url: None,
        timescale: 1,
        start_number: 5,
        duration: Some(4),
        timeline: None,
    };
    let urls = expand_template(&plan, Some(10), "https://cdn.example.com/v/", "r1", 1000);
    assert_eq!(urls, vec![
        "https://cdn.example.com/v/seg_5_0.m4s".to_string(),
        "https://cdn.example.com/v/seg_6_4.m4s".to_string(),
        "https://cdn.example.com/v/seg_7_8.m4s".to_string(),
    ]);
    assert_eq!(expand_template(&plan, Some(8), "https://cdn.example.com/v/", "r1", 1000).len(), 2);
    assert!(expand_template(&plan, None, "https://cdn.example.com/v/", "r1", 1000).is_empty());
}

#[test]
fn parse_dash_text_reads_qualities_audio_and_length() {
    let text = r#"<?xml version="1.0"?>
<MPD xmlns="urn:mpeg:dash:schema:mpd:2011" type="static" mediaPresentationDuration="PT8S">
  <Period>
    <AdaptationSet mimeType="video/mp4">
      <Representation id="v2" bandwidth="2000000" height="720" codecs="avc1.64001f"/>
      <Representation id="v1" bandwidth="500000"/>
    </AdaptationSet>
    <AdaptationSet mimeType="audio/mp4">
      <Representation id="a1" bandwidth="128000"/>
    </AdaptationSet>
  </Period>
</MPD>"#;
    let (qualities, has_audio, millis) = parse_dash_text(text).unwrap();
    assert!(has_audio);
    assert_eq!(millis, Some(8000));
    assert_eq!(qualities.len(), 2);
    assert_eq!(qualities[0].rep_id, "v1");
    assert_eq!(qualities[0].label, "500k");
    assert_eq!(qualities[0].height, None);
    assert_eq!(qualities[1].rep_id, "v2");
    assert_eq!(qualities[1].label, "720p");
    assert_eq!(qualities[1].codecs, Some("avc1.64001f".to_string()));
}

#[test]
fn parse_dash_text_reports_parse_errors() {
    match parse_dash_text("this is not a manifest") {
        Err(e) => assert!(e.starts_with("MPD parse error: ")),
        Ok(_) => panic!("expected an error"),
    }
}

#[test]
fn parse_dash_text_refuses_overlong_numbers() {
    let big = r#"<MPD xmlns="urn:mpeg:dash:schema:mpd:2011" mediaPresentationDuration="P999999999999Y"/>"#;
    assert!(!mpd_is_panic_free(big));
    let err = parse_dash_text(big).err().unwrap();
    assert_eq!(err, "MPD parse error: a number in the manifest has more than nine digits or is written as a character reference");
    assert!(!mpd_is_panic_free("<MPD mediaPresentationDuration=\"P&#49;Y\"/>"));
    assert!(mpd_is_panic_free("<MPD mediaPresentationDuration=\"PT123456789S\"/>"));
    assert!(!mpd_is_panic_free("1234567890"));
}

#[test]
fn dash_finish_falls_back_from_mux_to_remux_to_rename() {
    assert_eq!(first_finish_step(true, true), FinishStep::Mux);
    assert_eq!(first_finish_step(false, true), FinishStep::Remux);
    assert_eq!(first_finish_step(true, false), FinishStep::Rename);
    assert_eq!(next_finish_step(FinishStep::Mux, true), FinishStep::Remux);
    assert_eq!(next_finish_step(FinishStep::Mux, false), FinishStep::Rename);
    assert_eq!(next_finish_step(FinishStep::Remux, true), FinishStep::Rename);
}
