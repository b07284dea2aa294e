use imfwizard_core::audio_map::{number_audio_map, short_name, ChannelName};
use imfwizard_core::prores::{
    edit_rate_pair, export_cpl, export_tracks, ffmpeg_frame_rate, filter_graph, frame_trim,
    picture_output_label, ContainerRaster,
};
use imfwizard_core::source_edits::{
    check_audio_delay, check_edits, delay_shift_frames, delayed_samples, offset_metric,
    shifted_window, trim_sample_frames_of, unreadable_time, AudioFacts, PictureFacts, SourceEdits,
    SourceFacts, TimedTextCue,
};
use imfwizard_core::subtitle_preview::{format_srt_time, srt_document};
use imfwizard_core::timeline::{CplInfo, SegmentEntry};
use imfwizard_core::to_dcp::{
    check_dcp_edit_rate, check_j2k_dci, check_picture_container, check_single_reel,
    cinema_frame_name, cinema_frame_names, dcp_content_kind, dcp_title, missing_codestream,
};
use imfwizard_core::watch::{is_master_name, CandidateStates, Measurement};

// ---------------------------------------------------------------------------
// Watch folder
// ---------------------------------------------------------------------------

fn file_measurement(size: u64) -> Measurement {
    Measurement { size, modified_secs: size, modified_nanos: 0, entry_count: 0 }
}

#[test]
fn a_master_is_ready_only_after_two_equal_measurements() {
    let mut states = CandidateStates::default();
    let path = "/watch/feature.mp4";

    assert!(!states.observe(path, file_measurement(10)));
    assert!(!states.observe(path, file_measurement(20)));
    assert!(!states.observe(path, file_measurement(30)));
    assert!(states.observe(path, file_measurement(30)));
}

#[test]
fn a_master_already_built_is_never_ready_again() {
    let mut states = CandidateStates::default();
    let path = "/watch/feature.mp4";

    assert!(!states.observe(path, file_measurement(10)));
    assert!(states.observe(path, file_measurement(10)));
    states.mark_built(path);

    assert!(!states.observe(path, file_measurement(10)));
    assert!(!states.observe(path, file_measurement(10)));
}

#[test]
fn a_directory_that_gains_a_frame_is_not_ready() {
    let mut states = CandidateStates::default();
    let path = "/watch/frames";
    let ten_frames = Measurement { size: 1000, modified_secs: 0, modified_nanos: 0, entry_count: 10 };
    let eleven_frames =
        Measurement { size: 1100, modified_secs: 0, modified_nanos: 0, entry_count: 11 };

    assert!(!states.observe(path, ten_frames));
    assert!(!states.observe(path, eleven_frames));
    assert!(states.observe(path, eleven_frames));
}

#[test]
fn a_master_that_leaves_the_folder_is_forgotten() {
    let mut states = CandidateStates::default();
    let path = "/watch/feature.mp4";

    assert!(!states.observe(path, file_measurement(10)));
    states.retain_present(&vec![]);
    assert!(!states.observe(path, file_measurement(10)));
}

#[test]
fn a_master_still_present_is_remembered() {
    let mut states = CandidateStates::new();
    assert!(!states.observe("/watch/a.mov", file_measurement(5)));
    assert!(!states.observe("/watch/b.mov", file_measurement(7)));
    states.retain_present(&vec!["/watch/a.mov".to_string()]);
    assert!(states.observe("/watch/a.mov", file_measurement(5)));
    assert!(!states.observe("/watch/b.mov", file_measurement(7)));
}

#[test]
fn marking_an_unseen_master_changes_nothing() {
    let mut states = CandidateStates::new();
    states.mark_built("/watch/never.mov");
    assert!(!states.observe("/watch/never.mov", file_measurement(1)));
    assert!(states.observe("/watch/never.mov", file_measurement(1)));
}

#[test]
fn hidden_entries_and_the_result_folders_are_no_masters() {
    assert!(is_master_name("feature.mp4"));
    assert!(!is_master_name(".DS_Store"));
    assert!(!is_master_name("done"));
    assert!(!is_master_name("failed"));
    assert!(is_master_name("done2"));
}

// ---------------------------------------------------------------------------
// Audio delay
// ---------------------------------------------------------------------------

fn ramp(sample_frames: usize, channels: usize) -> Vec<f32> {
    (0..sample_frames * channels).map(|i| (i % 1000) as f32 / 2000.0).collect()
}

#[test]
fn a_delay_is_bit_exact_for_32_bit_int_pcm() {
    let samples: Vec<i32> =
        (0..48_000i32).map(|i| i.wrapping_mul(2_654_435_761u32 as i32)).collect();
    let delayed = delayed_samples(&samples, 1, 48_000, 100, "i32.wav", 0i32).unwrap();
    assert_eq!(delayed.len(), samples.len());
    assert!(delayed[..4800].iter().all(|&s| s == 0), "prepended silence");
    assert_eq!(
        &delayed[4800..],
        &samples[..samples.len() - 4800],
        "every shifted sample must be bit-identical"
    );
}

#[test]
fn a_delay_keeps_the_sample_count_identical() {
    let source = ramp(48_000, 2);
    let before = source.len();
    for delay_ms in [250_i64, -250, 1, -1] {
        let out = delayed_samples(&source, 2, 48_000, delay_ms, "source.wav", 0.0f32).unwrap();
        assert_eq!(out.len(), before, "delay of {delay_ms} ms changed the sample count");
    }
}

#[test]
fn a_positive_delay_prepends_silence_and_a_negative_one_drops_the_head() {
    let original = ramp(48_000, 2);
    // 100 ms at 48 kHz is 4800 sample frames, 9600 interleaved stereo samples
    let shift = 9600;

    let later = delayed_samples(&original, 2, 48_000, 100, "source.wav", 0.0f32).unwrap();
    assert!(later[..shift].iter().all(|s| *s == 0.0), "head not silent");
    assert_eq!(later[shift], original[0]);

    let earlier = delayed_samples(&original, 2, 48_000, -100, "source.wav", 0.0f32).unwrap();
    assert_eq!(earlier[0], original[shift]);
    assert!(earlier[original.len() - shift..].iter().all(|s| *s == 0.0), "tail not silent");
}

#[test]
fn a_delay_at_least_as_long_as_the_programme_is_refused() {
    // 24000 sample frames at 48 kHz is 500 ms of sound
    let source = ramp(24_000, 2);
    let error = delayed_samples(&source, 2, 48_000, 500, "short.wav", 0.0f32).unwrap_err();
    assert!(error.contains("500 ms"), "{error}");
    assert_eq!(
        error,
        "an audio delay of 500 ms is at least as long as the 500 ms of sound in short.wav"
    );
}

#[test]
fn a_negative_delay_is_refused_with_its_sign() {
    let audio = AudioFacts { path: "s.wav".to_string(), sample_frames: 480, sample_rate: 48_000 };
    assert_eq!(
        check_audio_delay(-10, &audio).unwrap_err(),
        "an audio delay of -10 ms is at least as long as the 10 ms of sound in s.wav"
    );
    assert_eq!(check_audio_delay(-9, &audio), Ok(()));
    assert_eq!(check_audio_delay(0, &audio), Ok(()));
}

#[test]
fn the_refused_programme_length_rounds_halves_to_even() {
    // 1 sample frame at 2000 Hz is 0.5 ms, and 3 at 2000 Hz is 1.5 ms
    let half = AudioFacts { path: "a".to_string(), sample_frames: 1, sample_rate: 2000 };
    assert!(check_audio_delay(1, &half).unwrap_err().contains("the 0 ms of sound"));
    let one_and_a_half = AudioFacts { path: "a".to_string(), sample_frames: 3, sample_rate: 2000 };
    assert!(check_audio_delay(2, &one_and_a_half).unwrap_err().contains("the 2 ms of sound"));
}

#[test]
fn a_delay_shift_rounds_to_the_nearest_sample_frame() {
    assert_eq!(delay_shift_frames(100, 48_000), 4800);
    assert_eq!(delay_shift_frames(-100, 48_000), 4800);
    // 1 ms at 44.1 kHz is 44.1 frames, 11 ms is 485.1, 1 ms at 500 Hz is 0.5
    assert_eq!(delay_shift_frames(1, 44_100), 44);
    assert_eq!(delay_shift_frames(11, 44_100), 485);
    assert_eq!(delay_shift_frames(1, 500), 1);
    // a zero rate is read as one
    assert_eq!(delay_shift_frames(1000, 0), 1);
    assert_eq!(delay_shift_frames(i64::MIN, u32::MAX), u64::MAX);
}

#[test]
fn a_zero_delay_copies_the_samples() {
    let samples = vec![1i32, 2, 3, 4, 5, 6];
    assert_eq!(delayed_samples(&samples, 2, 48_000, 0, "x", 0).unwrap(), samples);
    // a zero channel count is read as one channel
    assert_eq!(delayed_samples(&samples, 0, 1000, 2, "x", 9).unwrap(), vec![9, 9, 1, 2, 3, 4]);
}

#[test]
fn a_shifted_window_pads_and_cuts_whole_frames() {
    let samples = vec![1, 2, 3, 4, 5, 6, 7];
    assert_eq!(shifted_window(&samples, 1, 2, 3, true, 0), vec![0, 0, 1, 2, 3, 4]);
    assert_eq!(shifted_window(&samples, 1, 2, 3, false, 0), vec![3, 4, 5, 6, 0, 0]);
    assert_eq!(shifted_window(&samples, 3, 2, 3, true, 0), vec![0, 0, 0, 0, 0, 0]);
}

// ---------------------------------------------------------------------------
// The plan-time check
// ---------------------------------------------------------------------------

fn facts(picture_frames: Option<u64>, sample_frames: Option<u64>) -> SourceFacts {
    SourceFacts {
        picture: picture_frames
            .map(|frames| PictureFacts { path: "/pictures".to_string(), frames }),
        audio: sample_frames
            .map(|sample_frames| AudioFacts {
                path: "/sound.wav".to_string(),
                sample_frames,
                sample_rate: 48_000,
            })
            .into_iter()
            .collect(),
        fps_num: 24,
        fps_den: 1,
    }
}

#[test]
fn the_plan_time_check_refuses_what_the_edits_refuse() {
    // 48 frames at 24 fps is two seconds, so 96000 sample frames at 48 kHz
    let whole = facts(Some(48), Some(96_000));

    let delay_without_sound = SourceEdits { audio_delay_ms: 250, ..Default::default() };
    let error = check_edits(&delay_without_sound, &facts(Some(48), None)).unwrap_err();
    assert!(error.contains("sound track"), "{error}");

    let trim_without_picture = SourceEdits { trim_start_frames: 2, ..Default::default() };
    let error = check_edits(&trim_without_picture, &facts(None, Some(96_000))).unwrap_err();
    assert!(error.contains("picture frames to measure"), "{error}");

    let trim_past_the_picture =
        SourceEdits { trim_start_frames: 24, trim_end_frames: 24, ..Default::default() };
    let error = check_edits(&trim_past_the_picture, &whole).unwrap_err();
    assert!(error.contains("48 picture frames"), "{error}");

    let delay_past_the_programme = SourceEdits { audio_delay_ms: 2_000, ..Default::default() };
    let error = check_edits(&delay_past_the_programme, &whole).unwrap_err();
    assert!(error.contains("2000 ms"), "{error}");
    assert!(error.contains("2000 ms of sound"), "{error}");

    // the sound is shorter than the picture, so only the audio trim refuses
    let trim_past_the_sound =
        SourceEdits { trim_start_frames: 20, trim_end_frames: 20, ..Default::default() };
    let error = check_edits(&trim_past_the_sound, &facts(Some(48), Some(48_000))).unwrap_err();
    assert!(error.contains("sample frames leaves nothing"), "{error}");
}

#[test]
fn a_trim_the_source_can_absorb_passes_the_plan_time_check() {
    let edits = SourceEdits { audio_delay_ms: 250, trim_start_frames: 12, trim_end_frames: 12 };
    assert_eq!(check_edits(&edits, &facts(Some(48), Some(96_000))), Ok(()));
}

#[test]
fn a_trim_is_measured_in_sample_frames_through_the_edit_rate() {
    assert_eq!(trim_sample_frames_of(24, 48_000, 24, 1), 48_000);
    assert_eq!(trim_sample_frames_of(1, 48_000, 24_000, 1001), 2002);
    assert_eq!(trim_sample_frames_of(5, 0, 24, 1), 0);
    assert_eq!(trim_sample_frames_of(u64::MAX, u32::MAX, 1, u32::MAX), u64::MAX);
    let error = check_edits(
        &SourceEdits { trim_start_frames: 20, trim_end_frames: 20, ..Default::default() },
        &facts(Some(48), Some(48_000)),
    )
    .unwrap_err();
    assert_eq!(error, "trimming 40000 + 40000 sample frames leaves nothing of the 48000 in /sound.wav");
}

// ---------------------------------------------------------------------------
// Timed-text times
// ---------------------------------------------------------------------------

#[test]
fn offset_times_name_their_metric() {
    assert_eq!(offset_metric("1500ms"), Some("ms"));
    assert_eq!(offset_metric("0.8s"), Some("s"));
    assert_eq!(offset_metric("40f"), Some("f"));
    assert_eq!(offset_metric("2h"), Some("h"));
    assert_eq!(offset_metric("3m"), Some("m"));
    assert_eq!(offset_metric("100t"), Some("t"));
    assert_eq!(offset_metric("00:00:01.500"), None);
    assert_eq!(offset_metric("12"), None);
    assert_eq!(
        unreadable_time("x"),
        "cannot read the subtitle time 'x': expected a clock time like 00:00:01.500 or an offset like 0.8s"
    );
}

#[test]
fn cues_become_a_numbered_subrip_document() {
    let cues = vec![
        TimedTextCue {
            start_ms: 1500,
            end_ms: 3000,
            lines: vec!["First line".to_string(), "second line".to_string()],
        },
        TimedTextCue { start_ms: 4000, end_ms: 6250, lines: vec!["A later cue".to_string()] },
    ];
    assert_eq!(
        srt_document(&cues),
        "1\n00:00:01,500 --> 00:00:03,000\nFirst line\nsecond line\n\n\
         2\n00:00:04,000 --> 00:00:06,250\nA later cue\n\n"
    );
    assert_eq!(srt_document(&vec![]), "");
}

#[test]
fn subrip_times_widen_past_a_hundred_hours() {
    assert_eq!(format_srt_time(0), "00:00:00,000");
    assert_eq!(format_srt_time(3_723_004), "01:02:03,004");
    assert_eq!(format_srt_time(360_000_000), "100:00:00,000");
}

// ---------------------------------------------------------------------------
// IMP to DCP
// ---------------------------------------------------------------------------

#[test]
fn a_dcp_takes_the_dci_rates_only() {
    assert_eq!(check_dcp_edit_rate(24, 1), Ok(24));
    assert_eq!(check_dcp_edit_rate(120, 1), Ok(120));
    assert_eq!(
        check_dcp_edit_rate(24000, 1001).unwrap_err(),
        "the picture edit rate is 24000/1001, and a DCP carries one of 24, 25, 30, 48, 50, 60, 96, 100, 120; retime the composition before converting it"
    );
    assert!(check_dcp_edit_rate(24, 2).is_err());
    assert!(check_dcp_edit_rate(23, 1).is_err());
}

#[test]
fn a_dcp_is_one_reel_of_one_picture() {
    assert_eq!(check_single_reel(1, 0), Ok(()));
    assert_eq!(check_single_reel(1, 1), Ok(()));
    assert_eq!(
        check_single_reel(2, 1).unwrap_err(),
        "to-dcp implements a single-reel IMP (one picture, optional one sound); found 2 picture and 1 sound track(s); multi-reel conversion is not implemented"
    );
    assert!(check_single_reel(0, 0).is_err());
    assert!(check_single_reel(1, 2).is_err());
}

#[test]
fn rewrapped_picture_has_to_be_dci_ready() {
    assert_eq!(check_picture_container(4096, 2160), Ok(()));
    assert_eq!(
        check_picture_container(4097, 2160).unwrap_err(),
        "picture is 4097x2160, larger than the DCP 4K container (4096x2160); transcode required"
    );
    assert_eq!(check_j2k_dci(true, "Cinema2k", 12, 3), Ok(()));
    assert_eq!(
        check_j2k_dci(false, "Imf", 12, 3).unwrap_err(),
        "J2K is a Imf profile, not a DCI 2K/4K cinema profile; transcode required"
    );
    assert_eq!(
        check_j2k_dci(true, "Cinema4k", 10, 3).unwrap_err(),
        "J2K is 10-bit; a DCP requires 12-bit picture essence; transcode required"
    );
    assert_eq!(
        check_j2k_dci(true, "Cinema4k", 12, 4).unwrap_err(),
        "J2K has 4 components; a DCP requires 3; transcode required"
    );
}

#[test]
fn cinema_codestreams_are_numbered_in_frame_order() {
    assert_eq!(cinema_frame_name(7), "frame_00000007.j2c");
    assert_eq!(cinema_frame_name(123_456_789), "frame_123456789.j2c");
    assert_eq!(
        cinema_frame_names(3),
        vec!["frame_00000000.j2c", "frame_00000001.j2c", "frame_00000002.j2c"]
    );
    assert_eq!(
        missing_codestream(2, "/tmp/j2k/frame_00000002.j2c"),
        "the transcode wrote no codestream for frame 2 at /tmp/j2k/frame_00000002.j2c"
    );
}

#[test]
fn a_dcp_title_falls_back_to_the_imp_then_a_fixed_name() {
    assert_eq!(dcp_title(Some("Asked".to_string()), Some("Imp".to_string())), "Asked");
    assert_eq!(dcp_title(None, Some("Imp".to_string())), "Imp");
    assert_eq!(dcp_title(None, Some(String::new())), "IMF Wizard DCP");
    assert_eq!(dcp_title(None, None), "IMF Wizard DCP");
    assert_eq!(dcp_content_kind(""), "feature");
    assert_eq!(dcp_content_kind("trailer"), "trailer");
}

// ---------------------------------------------------------------------------
// Audio map
// ---------------------------------------------------------------------------

fn seven_one() -> Vec<ChannelName> {
    [
        ("Left", "chL"),
        ("Right", "chR"),
        ("Center", "chC"),
        ("LFE", "chLFE"),
        ("Left Surround", "chLs"),
        ("Right Surround", "chRs"),
        ("Left Back", "chLrs"),
        ("Right Back", "chRrs"),
    ]
    .iter()
    .enumerate()
    .map(|(index, (label, symbol))| ChannelName {
        index: index as u32,
        label: label.to_string(),
        mca_tag_symbol: symbol.to_string(),
    })
    .collect()
}

#[test]
fn names_and_numbers_number_the_same_lanes() {
    let table = seven_one();
    let by_name = number_audio_map("1:L,2:R,1:C@-6", &table).unwrap();
    let by_number = number_audio_map("1:1,2:2,1:3@-6", &table).unwrap();
    assert_eq!(by_name, by_number);
    assert_eq!(by_name, ("1:1,2:2,1:3@-6".to_string(), 3));
}

#[test]
fn every_spelling_of_a_channel_reaches_its_lane() {
    let table = seven_one();
    for (name, lane) in [
        ("L", 0u64),
        ("Left", 0),
        ("chL", 0),
        ("r", 1),
        ("C", 2),
        ("LFE", 3),
        ("Ls", 4),
        ("Left Surround", 4),
        ("Rs", 5),
        ("Lrs", 6),
        ("Left Back", 6),
        ("Rrs", 7),
    ] {
        let (numbered, width) = number_audio_map(&format!("1:{name}"), &table).unwrap();
        assert_eq!(width, lane + 1, "{name}");
        assert_eq!(numbered, format!("1:{}", lane + 1), "{name}");
    }
    assert_eq!(short_name("chLs"), "Ls");
    assert_eq!(short_name("Ls"), "Ls");
}

#[test]
fn the_map_is_as_wide_as_its_highest_lane() {
    let table = seven_one();
    assert_eq!(number_audio_map("1:1", &table).unwrap().1, 1);
    assert_eq!(number_audio_map("1:Rrs", &table).unwrap().1, 8);
    assert_eq!(number_audio_map(" 1 : 6 , 2:2", &table).unwrap(), ("1:6,2:2".to_string(), 6));
}

#[test]
fn a_bad_map_is_refused_by_name() {
    let table = seven_one();
    for (spec, wanted) in [
        ("", "audio map is empty"),
        ("  ", "audio map is empty"),
        ("1:1,,2:2", "audio map has an empty entry"),
        ("banana", "audio map entry \"banana\" is not IN:OUT or IN:OUT@GAIN"),
        ("1:0", "audio map entry \"1:0\" names output channel 0, and channels count from 1"),
        (
            "1:Middle",
            "audio map entry \"1:Middle\" names output channel \"Middle\", which is neither a channel number nor one of L, R, C, LFE, Ls, Rs, Lrs, Rrs",
        ),
    ] {
        assert_eq!(number_audio_map(spec, &table).unwrap_err(), wanted, "{spec}");
    }
}

// ---------------------------------------------------------------------------
// ProRes export
// ---------------------------------------------------------------------------

fn segment(entry_point: u64, duration: u64, edit_rate: &str) -> SegmentEntry {
    SegmentEntry {
        segment_id: "s".to_string(),
        segment_number: 1,
        duration_frames: duration,
        entry_point,
        edit_rate: edit_rate.to_string(),
        video_track_file_id: String::new(),
        audio_track_file_id: String::new(),
        video_file: "v.mxf".to_string(),
        audio_file: "a.mxf".to_string(),
    }
}

#[test]
fn container_sizes() {
    let scope = ContainerRaster::parse("2k-scope").unwrap();
    assert_eq!((scope.width, scope.height), (2048, 858));
    let flat = ContainerRaster::parse("4K-FLAT").unwrap();
    assert_eq!((flat.width, flat.height), (3996, 2160));
    assert!(ContainerRaster::parse("2k").is_none());
    assert!(ContainerRaster::parse("8k-full").is_none());
}

#[test]
fn every_container_name_is_offered() {
    assert_eq!(ContainerRaster::names(), "2k-scope, 2k-flat, 2k-full, 4k-scope, 4k-flat, 4k-full");
}

#[test]
fn edit_rate_becomes_a_fraction() {
    assert_eq!(ffmpeg_frame_rate("24 1").as_deref(), Some("24/1"));
    assert_eq!(ffmpeg_frame_rate("24000 1001").as_deref(), Some("24000/1001"));
    assert_eq!(ffmpeg_frame_rate("24"), None);
    assert_eq!(ffmpeg_frame_rate("24 0"), None);
    assert_eq!(edit_rate_pair("  25   1 extra"), Some((25, 1)));
}

#[test]
fn a_directory_without_a_cpl_is_named() {
    let error = export_cpl(&vec![], "/imp", None).unwrap_err();
    assert!(error.contains("holds no CPL"), "{error}");
    assert_eq!(error, "/imp holds no CPL");
}

#[test]
fn the_cpl_to_export_is_picked_by_id_in_any_case() {
    let cpls = vec![
        CplInfo { id: "aaaa".to_string(), file_path: "a.xml".to_string(), title: "A".to_string() },
        CplInfo { id: "BBBB".to_string(), file_path: "b.xml".to_string(), title: "B".to_string() },
    ];
    assert_eq!(export_cpl(&cpls, "/imp", None), Ok(0));
    assert_eq!(export_cpl(&cpls, "/imp", Some("bbbb")), Ok(1));
    assert_eq!(export_cpl(&cpls, "/imp", Some("cccc")).unwrap_err(), "/imp holds no CPL cccc");
}

#[test]
fn an_export_needs_every_picture_and_cuts_sound_only_when_all_have_it() {
    let segs = vec![segment(0, 24, "24 1"), segment(10, 0, "24 1")];
    assert_eq!(export_tracks("X", &segs, &vec![true, true], &vec![true, true], false), Ok(true));
    assert_eq!(export_tracks("X", &segs, &vec![true, true], &vec![true, false], false), Ok(false));
    assert_eq!(
        export_tracks("X", &segs, &vec![true, false], &vec![true, true], false).unwrap_err(),
        "CPL X names no picture track file; a supplemental IMP needs --ov naming the OV directory"
    );
    assert_eq!(
        export_tracks("X", &segs, &vec![false, true], &vec![true, true], true).unwrap_err(),
        "CPL X names no picture track file"
    );
    assert_eq!(
        export_tracks("X", &vec![], &vec![], &vec![], true).unwrap_err(),
        "CPL X holds no segment"
    );
    let no_rate = vec![segment(0, 24, "")];
    assert_eq!(
        export_tracks("X", &no_rate, &vec![true], &vec![true], true).unwrap_err(),
        "CPL X names no edit rate, so its sound cannot be cut to its segments"
    );
}

#[test]
fn the_filter_graph_cuts_and_joins_each_segment() {
    let segs = vec![segment(0, 24, "24 1"), segment(10, 0, "24 1")];
    assert_eq!(frame_trim(&segs[0]), "trim=start_frame=0:end_frame=24");
    assert_eq!(frame_trim(&segs[1]), "trim=start_frame=10");
    assert_eq!(
        filter_graph(&segs, None, None),
        "[0:v:0]trim=start_frame=0:end_frame=24,setpts=PTS-STARTPTS[v0];\
         [1:v:0]trim=start_frame=10,setpts=PTS-STARTPTS[v1];\
         [v0][v1]concat=n=2:v=1:a=0[picture]"
    );
    let trims = vec!["atrim=start=0.000000:end=1.000000".to_string(), "atrim=start=0.416667".to_string()];
    let fitted = ContainerRaster::parse("2k-flat");
    assert_eq!(
        filter_graph(&segs, Some(&trims), fitted),
        "[0:v:0]trim=start_frame=0:end_frame=24,setpts=PTS-STARTPTS[v0];\
         [1:a:0]atrim=start=0.000000:end=1.000000,asetpts=PTS-STARTPTS[a0];\
         [2:v:0]trim=start_frame=10,setpts=PTS-STARTPTS[v1];\
         [3:a:0]atrim=start=0.416667,asetpts=PTS-STARTPTS[a1];\
         [v0][a0][v1][a1]concat=n=2:v=1:a=1[picture][sound];\
         [picture]scale=1998:1080:force_original_aspect_ratio=decrease,pad=1998:1080:(ow-iw)/2:(oh-ih)/2:black[fitted]"
    );
    assert_eq!(picture_output_label(fitted), "[fitted]");
    assert_eq!(picture_output_label(None), "[picture]");
}

// ---------------------------------------------------------------------------
// IMP requests
// ---------------------------------------------------------------------------

use imfwizard_core::imp::{
    check_imp_request, package_file_name, wrap_failure, wrap_jobs, AudioTrack, Composition,
    ImpOptions,
};
use imfwizard_core::EssenceType;

#[test]
fn test_create_imp_requires_picture_input() {
    let opts = ImpOptions {
        output_dir: "/tmp/out".to_string(),
        compositions: vec![Composition {
            title: "Test Feature".into(),
            content_kind: "feature".into(),
            ..Default::default()
        }],
        fps_num: 24,
        fps_den: 1,
        ..Default::default()
    };
    let error = check_imp_request(&opts, &vec![false]).unwrap_err();
    assert!(error.contains("J2K input directory is required"));
}

#[test]
fn an_imp_request_is_refused_before_anything_is_wrapped() {
    let none = ImpOptions::default();
    assert_eq!(check_imp_request(&none, &vec![]).unwrap_err(), "A J2K input directory is required");

    let comp = |dir: &str, lang: Option<&str>| Composition {
        j2k_dir: Some(dir.to_string()),
        audio_files: vec![AudioTrack {
            path: "a.wav".to_string(),
            language: lang.map(|l| l.to_string()),
            role: None,
        }],
        ..Default::default()
    };
    let opts = ImpOptions {
        compositions: vec![comp("/j2k", Some("de-DE")), comp("/gone", Some("en"))],
        ..Default::default()
    };
    assert_eq!(check_imp_request(&opts, &vec![true, true]), Ok(()));
    assert_eq!(
        check_imp_request(&opts, &vec![true, false]).unwrap_err(),
        "J2K input directory not found: /gone"
    );
    // a bad language tag is refused before any directory is looked at
    let bad = ImpOptions {
        compositions: vec![comp("/gone", None), comp("/j2k", Some("de_DE"))],
        ..Default::default()
    };
    assert_eq!(
        check_imp_request(&bad, &vec![false, true]).unwrap_err(),
        "invalid RFC 5646 language tag: de_DE"
    );
}

#[test]
fn a_composition_wraps_its_picture_then_the_sound_and_text_that_are_there() {
    let comp = Composition {
        j2k_dir: Some("/j2k".to_string()),
        audio_files: vec![
            AudioTrack { path: "/a1.wav".to_string(), language: None, role: None },
            AudioTrack { path: "/a2.wav".to_string(), language: None, role: None },
        ],
        timed_text_files: vec!["/t1.ttml".to_string(), "/t2.ttml".to_string()],
        ..Default::default()
    };
    let jobs = wrap_jobs(&comp, &vec![false, true], &vec![true, false]);
    let seen: Vec<(String, String, EssenceType)> =
        jobs.into_iter().map(|j| (j.prefix, j.input, j.essence)).collect();
    assert_eq!(
        seen,
        vec![
            ("VIDEO".to_string(), "/j2k".to_string(), EssenceType::J2k),
            ("AUDIO".to_string(), "/a2.wav".to_string(), EssenceType::Wav),
            ("SUBTITLE".to_string(), "/t1.ttml".to_string(), EssenceType::TimedText),
        ]
    );
    assert_eq!(wrap_failure(EssenceType::J2k, "x"), "MXF wrapping failed: x");
    assert_eq!(wrap_failure(EssenceType::Wav, "x"), "Audio wrap failed: x");
    assert_eq!(wrap_failure(EssenceType::TimedText, "x"), "Subtitle wrap failed: x");
}

#[test]
fn a_track_file_name_carries_its_id() {
    let id = "0f8e2a8c-6a2d-4b39-9a11-6c1e7d0a5b42";
    let name = package_file_name("VIDEO", id, "mxf");
    assert_eq!(name, format!("VIDEO_{id}.mxf"));
    let from_name = name.trim_end_matches(".mxf").rsplit('_').next().unwrap();
    assert_eq!(from_name, id);
    assert_eq!(package_file_name("CPL", id, "xml"), format!("CPL_{id}.xml"));
}

// ---------------------------------------------------------------------------
// Laws on concrete values
// ---------------------------------------------------------------------------

use imfwizard_core::atmos::{axml_document, chunk_name, read_u32_le, read_u64_le};
use imfwizard_core::subtitle_convert::escape;
use imfwizard_core::supplement::{replace_resource, ImfResource, ImfTrackKind};

#[test]
fn little_endian_sizes_read_back_as_written() {
    let x: u32 = 0x1234_5678;
    assert_eq!(read_u32_le(&x.to_le_bytes(), 0), x);
    let y: u64 = 0x0102_0304_0506_0708;
    let mut bytes = vec![0xAAu8];
    bytes.extend_from_slice(&y.to_le_bytes());
    assert_eq!(read_u64_le(&bytes, 1), y);
}

#[test]
fn escaped_text_holds_no_markup() {
    let escaped: String = escape("a <b> & \"c\"").into_iter().collect();
    assert_eq!(escaped, "a &lt;b&gt; &amp; \"c\"");
    assert!(!escaped.contains('<') && !escaped.contains('>'));
}

#[test]
fn a_replacement_keeps_the_composition_shape() {
    let resource = |kind, id: &str| ImfResource { track_file_uuid: id.to_string(), duration: 10, kind };
    let mut resources = vec![
        resource(ImfTrackKind::Image, "v"),
        resource(ImfTrackKind::Audio, "a0"),
        resource(ImfTrackKind::Subtitle, "s0"),
        resource(ImfTrackKind::Audio, "a1"),
    ];
    replace_resource(&mut resources, ImfTrackKind::Audio, 1, "new", 12);
    let shape: Vec<(ImfTrackKind, String, u64)> =
        resources.iter().map(|r| (r.kind, r.track_file_uuid.clone(), r.duration)).collect();
    assert_eq!(
        shape,
        vec![
            (ImfTrackKind::Image, "v".to_string(), 10),
            (ImfTrackKind::Audio, "a0".to_string(), 10),
            (ImfTrackKind::Subtitle, "s0".to_string(), 10),
            (ImfTrackKind::Audio, "new".to_string(), 12),
        ]
    );
    // an index the OV does not have changes nothing
    replace_resource(&mut resources, ImfTrackKind::Subtitle, 3, "x", 1);
    assert_eq!(resources.len(), 4);
    assert_eq!(resources[2].track_file_uuid, "s0");
}

// ---------------------------------------------------------------------------
// Photon runs
// ---------------------------------------------------------------------------

use imfwizard_core::photon::photon_outcome;

#[test]
fn a_photon_run_with_no_summary_that_failed_is_a_launch_failure() {
    let error = photon_outcome("", "Error: could not find main class\n\n", false).unwrap_err();
    assert_eq!(
        error,
        "Photon produced no analysis (is the jar correct?): Error: could not find main class"
    );
    assert_eq!(
        photon_outcome("", "", false).unwrap_err(),
        "Photon produced no analysis (is the jar correct?): no output"
    );
}

#[test]
fn a_photon_run_with_summaries_is_read_for_its_findings() {
    let stdout = "12:00 [main] INFO IMPAnalyzer - CPL_1.xml has 2 errors and 1 warnings\n";
    let result = photon_outcome(stdout, "", false).unwrap();
    assert_eq!(result.errors, vec!["Photon: CPL_1.xml: 2 error(s)".to_string()]);
    assert_eq!(result.warnings, vec!["Photon: CPL_1.xml: 1 warning(s)".to_string()]);
    let clean = photon_outcome("x - ASSETMAP.xml has no errors or warnings", "", true).unwrap();
    assert!(clean.errors.is_empty() && clean.warnings.is_empty());
}

// ---------------------------------------------------------------------------
// MCA labels
// ---------------------------------------------------------------------------

use imfwizard_core::mca::{
    check_layout_channels, layout, layout_names, patch_pkl_asset, replace_descriptor_body,
    replace_element, source_encoding_of,
};

#[test]
fn an_unknown_layout_is_not_a_layout() {
    assert_eq!(layout("51+HI+VI"), None);
    assert_eq!(layout("quad"), None);
    assert_eq!(layout("STEREO").unwrap().channels, 2);
}

#[test]
fn every_layout_is_offered_with_its_labels() {
    assert_eq!(layout_names(), "mono, 10, stereo, 20, 51, 71");
    let seven_one = layout("71").unwrap();
    assert_eq!((seven_one.name, seven_one.channels), ("71", 8));
    assert_eq!(seven_one.labels, "71(L,R,C,LFE,Lss,Rss,Lrs,Rrs)");
    assert_eq!(layout("Mono").unwrap().labels, "DNS(NSC001)");
    assert_eq!(check_layout_channels("s.mxf", 6, layout("51").unwrap()), Ok(()));
    assert_eq!(
        check_layout_channels("s.mxf", 2, layout("51").unwrap()).unwrap_err(),
        "s.mxf carries 2 channels and --layout 51 names 6"
    );
}

#[test]
fn the_source_encoding_of_a_resource_is_read_by_its_track_file() {
    let cpl = "<Resource xsi:type=\"TrackFileResourceType\">\
         <SourceEncoding>urn:uuid:picture-descriptor</SourceEncoding>\
         <TrackFileId>urn:uuid:picture</TrackFileId></Resource>\
         <Resource xsi:type=\"TrackFileResourceType\">\
         <SourceEncoding>urn:uuid:sound-descriptor</SourceEncoding>\
         <TrackFileId>urn:uuid:sound</TrackFileId></Resource>";
    assert_eq!(source_encoding_of(cpl, "sound").as_deref(), Some("sound-descriptor"));
    assert_eq!(source_encoding_of(cpl, "subtitle"), None);
}

#[test]
fn only_the_named_descriptor_body_is_swapped() {
    let cpl = "<EssenceDescriptorList>\
         <EssenceDescriptor><Id>urn:uuid:one</Id>\n      <old/>\n      </EssenceDescriptor>\
         <EssenceDescriptor><Id>urn:uuid:two</Id>\n      <keep/>\n      </EssenceDescriptor>\
         </EssenceDescriptorList>";
    let updated = replace_descriptor_body(cpl, "one", "<new/>\n").unwrap();
    assert!(updated.contains("<new/>"), "{updated}");
    assert!(!updated.contains("<old/>"), "{updated}");
    assert!(updated.contains("<keep/>"), "{updated}");
    assert_eq!(replace_descriptor_body(cpl, "three", "<new/>"), None);
    let second = replace_descriptor_body(cpl, "two", "<b/>\n").unwrap();
    assert!(second.contains("<old/>") && second.contains("<b/>") && !second.contains("<keep/>"));
}

#[test]
fn a_rewritten_track_file_gets_its_new_hash_and_size() {
    let pkl = "<PackingList><AssetList>\
         <Asset><Id>urn:uuid:a</Id><Hash>old</Hash><Size>1</Size></Asset>\
         <Asset><Id>urn:uuid:b</Id><Hash>keep</Hash><Size>2</Size></Asset>\
         </AssetList></PackingList>";
    let patched = patch_pkl_asset(pkl, "urn:uuid:a", "NEW=", 1234).unwrap();
    assert_eq!(
        patched,
        "<PackingList><AssetList>\
         <Asset><Id>urn:uuid:a</Id><Hash>NEW=</Hash><Size>1234</Size></Asset>\
         <Asset><Id>urn:uuid:b</Id><Hash>keep</Hash><Size>2</Size></Asset>\
         </AssetList></PackingList>"
    );
    assert_eq!(
        patch_pkl_asset(pkl, "urn:uuid:c", "x", 1).unwrap_err(),
        "the packing list lists no asset urn:uuid:c"
    );
    let chars: Vec<char> = "<a><Size>9</Size></a>".chars().collect();
    let replaced: String = replace_element(&chars, "Size", "10").into_iter().collect();
    assert_eq!(replaced, "<a><Size>10</Size></a>");
    let absent: String = replace_element(&chars, "Hash", "x").into_iter().collect();
    assert_eq!(absent, "<a><Size>9</Size></a>");
}

// ---------------------------------------------------------------------------
// Conform events
// ---------------------------------------------------------------------------

use imfwizard_core::conform::{picture_events, TimelineEvent};

fn edl_event(number: u32, reel: &str, track: &str, record_in: u64) -> TimelineEvent {
    TimelineEvent {
        event_number: number,
        reel_name: reel.to_string(),
        track_type: track.to_string(),
        record_in,
        source_in: 0,
        source_out: 10,
    }
}

#[test]
fn picture_events_play_in_record_order_without_black_aux_or_sound() {
    let events = vec![
        edl_event(1, "REEL002", "V", 100),
        edl_event(2, "REEL001", "A", 0),
        edl_event(3, "BL", "V", 0),
        edl_event(4, "REEL001", "V", 0),
        edl_event(5, "AX", "V", 50),
        edl_event(6, "REEL003", "V", 100),
        edl_event(7, "REEL004", "V2", 50),
    ];
    let numbers: Vec<u32> = picture_events(&events).iter().map(|e| e.event_number).collect();
    // equal record positions keep the timeline's order
    assert_eq!(numbers, vec![4, 7, 1, 6]);
    assert!(picture_events(&vec![]).is_empty());
}

#[test]
fn bytes_that_are_not_utf8_read_as_replacement_characters() {
    assert_eq!(chunk_name(b"axml"), "axml");
    assert_eq!(chunk_name(&[0xFF, b'a', b'b', b'c']), "\u{FFFD}abc");
    assert_eq!(axml_document(&[b'<', 0xC3, b'>']), "<\u{FFFD}>");
}
