use asve::ffmpeg::{
    accept_extracted_srt, bgr_color_exec, build_clip_export_args, build_extract_args,
    build_gif_export_args, build_layout_probe_args, build_subtitle_probe_args,
    channel_layout_from_probe, get_audio_codec_args, get_system_fonts, get_video_extensions,
    is_ts_path, needs_layout_probe, normalized_extension, subtitle_filter,
    subtitle_filter_for_export, video_resolution_from_probe, video_resolution_from_probe_checked,
    SubtitleStyle,
};

fn style() -> SubtitleStyle {
    SubtitleStyle {
        font_family: "Arial".to_string(),
        font_size: 27,
        bold: true,
        italic: false,
        color: "#FF8800".to_string(),
    }
}

#[test]
fn lists() {
    assert_eq!(get_video_extensions(), vec!["mp4", "avi", "mov", "mkv", "wmv", "flv", "webm", "m4v", "ts"]);
    let fonts = get_system_fonts();
    assert_eq!(fonts.len(), 22);
    assert_eq!(fonts[0], "Arial");
    assert_eq!(fonts[21], "Verdana");
}

#[test]
fn audio_arguments() {
    assert_eq!(normalized_extension("MKV"), "mkv");
    assert!(needs_layout_probe("mkv"));
    assert!(!needs_layout_probe("ts"));
    assert!(!needs_layout_probe("mp4"));
    assert_eq!(
        get_audio_codec_args("ts", None).unwrap(),
        vec!["-c:a", "aac", "-b:a", "256k", "-ar", "48000", "-ac", "2"]
    );
    assert_eq!(get_audio_codec_args("mp4", None).unwrap(), vec!["-c:a", "copy"]);
    assert_eq!(get_audio_codec_args("mov", None).unwrap(), vec!["-c:a", "aac", "-b:a", "256k"]);
    assert_eq!(
        get_audio_codec_args("mkv", Some("5.1(side)".to_string())).unwrap(),
        vec!["-c:a", "aac", "-b:a", "256k", "-af", "channelmap=channel_layout=5.1"]
    );
    assert_eq!(
        get_audio_codec_args("webm", Some("7.1(wide)".to_string())).unwrap(),
        vec!["-c:a", "aac", "-b:a", "256k", "-af", "channelmap=channel_layout=7.1"]
    );
    assert_eq!(
        get_audio_codec_args("avi", Some("quad".to_string())).unwrap(),
        vec!["-c:a", "aac", "-b:a", "256k", "-ac", "2"]
    );
    assert_eq!(channel_layout_from_probe(" stereo\n"), None);
    assert_eq!(channel_layout_from_probe("mono"), None);
    assert_eq!(channel_layout_from_probe("\n"), None);
    assert_eq!(channel_layout_from_probe("5.1\n"), Some("5.1".to_string()));
}

#[test]
fn subtitle_filters() {
    assert_eq!(bgr_color_exec("#FF8800"), "0088FF");
    assert_eq!(bgr_color_exec("##abc"), "abc");
    assert_eq!(bgr_color_exec("#\u{e9}\u{e8}\u{ea}"), "\u{ea}\u{e8}\u{e9}");
    assert_eq!(
        subtitle_filter("/v/a b:c[1].mkv", 2, &style()),
        "subtitles=/v/a b\\:c\\[1\\].mkv:si=1:force_style=FontName=Arial\\,FontSize=27\\,Bold=-1\\,Italic=0\\,PrimaryColour=&H0088FF"
    );
    let mut s = style();
    s.font_size = -3;
    assert!(subtitle_filter("x", 0, &s).contains("FontSize=-3\\,"));
    assert!(subtitle_filter("x", 0, &s).contains(":si=0:"));
    assert_eq!(subtitle_filter_for_export("x", false, Some(1), Some(&style())), None);
    assert_eq!(subtitle_filter_for_export("x", true, None, Some(&style())), None);
    assert!(subtitle_filter_for_export("x", true, Some(1), Some(&style())).is_some());
}

#[test]
fn clip_export_arguments() {
    let audio = vec!["-c:a".to_string(), "copy".to_string()];
    let args = build_clip_export_args("in.mp4", "out.mp4", "1.5", "2", "3.5", 60, None, audio.clone());
    assert_eq!(
        args,
        vec![
            "-ss", "1.5", "-i", "in.mp4", "-ss", "00:00:00.001", "-t", "2", "-frames:v", "60",
            "-c:v", "libx264", "-profile:v", "baseline", "-level", "3.1", "-pix_fmt", "yuv420p",
            "-c:a", "copy", "-crf", "28", "-preset", "ultrafast", "-movflags",
            "faststart+frag_keyframe+empty_moov", "-avoid_negative_ts", "make_zero", "-y",
            "-map_chapters", "-1", "out.mp4",
        ]
    );
    let ts = build_clip_export_args("in.ts", "out.mp4", "1.5", "2", "3.5", 60, Some("F".to_string()), audio);
    assert_eq!(
        ts,
        vec![
            "-ss", "1.5", "-i", "in.ts", "-copyts", "-to", "3.5", "-vf", "F,format=yuv420p",
            "-c:v", "libx264", "-profile:v", "baseline", "-level", "3.1", "-pix_fmt", "yuv420p",
            "-vsync", "cfr", "-c:a", "copy", "-crf", "28", "-preset", "ultrafast", "-movflags",
            "faststart+frag_keyframe+empty_moov", "-y", "-map_chapters", "-1", "out.mp4",
        ]
    );
    assert!(is_ts_path("a/b.ts"));
    assert!(!is_ts_path("a/b.tsx"));
}

#[test]
fn gif_export_arguments() {
    let args = build_gif_export_args("in.mp4", "out.gif", "1", "2", Some("S".to_string()));
    assert_eq!(
        args,
        vec![
            "-ss", "1", "-t", "2", "-i", "in.mp4", "-copyts", "-vf",
            "S,fps=10,scale=480:-1:flags=lanczos,split[s0][s1];[s0]palettegen[p];[s1][p]paletteuse",
            "-loop", "0", "-y", "out.gif",
        ]
    );
    let plain = build_gif_export_args("in.mp4", "out.gif", "1", "2", None);
    assert_eq!(plain[8], "fps=10,scale=480:-1:flags=lanczos,split[s0][s1];[s0]palettegen[p];[s1][p]paletteuse");
}

#[test]
fn probe_and_extract_arguments() {
    assert_eq!(build_extract_args("v.mkv", 3), vec!["-i", "v.mkv", "-map", "0:s:3", "-f", "srt", "-"]);
    assert_eq!(
        build_subtitle_probe_args("v.mkv"),
        vec!["-v", "error", "-select_streams", "s", "-show_entries", "stream=index,codec_name:stream_tags=language", "-of", "json", "v.mkv"]
    );
    assert_eq!(
        build_layout_probe_args("v.mkv"),
        vec!["-v", "error", "-select_streams", "a:0", "-show_entries", "stream=channel_layout", "-of", "default=noprint_wrappers=1:nokey=1", "v.mkv"]
    );
    assert_eq!(accept_extracted_srt(" \n".to_string()), Err("No subtitle content extracted".to_string()));
    assert_eq!(accept_extracted_srt("1\n".to_string()), Ok("1\n".to_string()));
}

#[test]
fn resolution_output() {
    assert_eq!(video_resolution_from_probe("1280,720\n"), (1280, 720));
    assert_eq!(video_resolution_from_probe(""), (1920, 1080));
    assert_eq!(video_resolution_from_probe_checked("1280,x"), None);
    assert_eq!(video_resolution_from_probe_checked("1280,720,1"), None);
}
