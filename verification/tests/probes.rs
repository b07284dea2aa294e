use imfwizard_core::source_edits::{directory_frame_count, video_frame_count};

fn exts(v: &[Option<&str>]) -> Vec<Option<String>> {
    v.iter().map(|e| e.map(str::to_string)).collect()
}

#[test]
fn a_directory_counts_only_its_picture_frames() {
    let listing = exts(&[Some("j2c"), Some("J2C"), Some("TIFF"), Some("txt"), None, Some("exr")]);
    assert_eq!(directory_frame_count("/frames", &listing), Ok(4));
    assert_eq!(
        directory_frame_count("/frames", &exts(&[Some("wav"), None])),
        Err("no picture frames in /frames".to_string())
    );
    assert!(directory_frame_count("/empty", &Vec::new()).is_err());
}

#[test]
fn a_stream_frame_count_wins_over_the_duration() {
    assert_eq!(video_frame_count("a.mov", true, "240\n10.0\n", 24, 1), Ok(240));
    assert_eq!(video_frame_count("a.mov", true, " 12 \r\n", 24, 1), Ok(12));
}

#[test]
fn a_missing_count_falls_back_to_the_duration_at_the_frame_rate() {
    assert_eq!(video_frame_count("a.mkv", true, "N/A\n10.010000\n", 24000, 1001), Ok(240));
    assert_eq!(video_frame_count("a.mkv", true, "0\n2.5\n", 25, 1), Ok(63));
}

#[test]
fn an_unmeasurable_video_is_refused_by_name() {
    let want = Err("cannot read how long a.mkv runs, so a trim cannot be measured against it".to_string());
    assert_eq!(video_frame_count("a.mkv", false, "240\n", 24, 1), want);
    assert_eq!(video_frame_count("a.mkv", true, "N/A\nN/A\n", 24, 1), want);
    assert_eq!(video_frame_count("a.mkv", true, "", 24, 1), want);
}
