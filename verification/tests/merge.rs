use web_video_catcher::bilingual::bi_part;
use web_video_catcher::merge::{
    ffmpeg_launch_failed, ffmpeg_missing, has_stream_in, last_lines, merge_args, merge_failed, pick_av,
};

#[test]
fn video_goes_first() {
    assert_eq!(pick_av("a", "b", false, true), ("b", "a"));
    assert_eq!(pick_av("a", "b", true, false), ("a", "b"));
    assert_eq!(pick_av("a", "b", true, true), ("a", "b"));
    assert_eq!(pick_av("a", "b", false, false), ("a", "b"));
}

#[test]
fn stream_lines() {
    let err = "Input #0, mov\n  Stream #0:0(und): Video: h264\n  Stream #0:1(und): Audio: aac\n";
    assert!(has_stream_in(err, "Video:"));
    assert!(has_stream_in(err, "Audio:"));
    assert!(!has_stream_in("Input #0\n  Metadata: Video: x\n", "Video:"));
}

#[test]
fn last_lines_of_output() {
    assert_eq!(last_lines("a\n\n  b  \nc\n d \n", 3), "b | c | d");
    assert_eq!(last_lines("only\n", 3), "only");
    assert_eq!(last_lines("", 3), "");
    assert_eq!(last_lines("x\ny", 0), "");
}

#[test]
fn ffmpeg_merge_command() {
    assert_eq!(
        merge_args("v.bin", "a.bin", "out.mp4"),
        vec![
            "-y", "-i", "v.bin", "-i", "a.bin", "-map", "0:v:0", "-map", "1:a:0", "-c:v", "copy", "-c:a", "aac",
            "-b:a", "192k", "-movflags", "+faststart", "-shortest", "out.mp4"
        ]
    );
}

#[test]
fn ffmpeg_errors() {
    assert!(bi_part(&ffmpeg_missing()).1.starts_with("ffmpeg not found, cannot merge audio and video."));
    assert_eq!(bi_part(&ffmpeg_launch_failed("denied")).0, "启动 ffmpeg 失败: denied");
    assert_eq!(
        bi_part(&merge_failed("l1\nl2\nl3\nl4\n")).1,
        format!("ffmpeg merge failed: {}", last_lines("l1\nl2\nl3\nl4\n", 3))
    );
    assert_eq!(bi_part(&merge_failed("only")).1, "ffmpeg merge failed: only");
}
