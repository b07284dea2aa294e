use imfwizard_core::assetmap::assetmap_assets;
use imfwizard_core::cpl::{composition_languages, cpl_resources, track_kind, TrackKind};
use imfwizard_core::delivery::{
    delivery_file_name, dolby_vision_file_name, is_essence_file, spec_for_target, transcode_args,
    Resolution,
};
use imfwizard_core::export_frames::png_rgb_data;
use imfwizard_core::imp::{AudioTrack, Composition, CplEntry};
use imfwizard_core::mca::{composition_title, cpl_id, soundfield_group, LabelFields};
use imfwizard_core::overlapped_picture::{overlap_refusal, InputType, PictureJob};
use imfwizard_core::pkl::{pkl_assets, HashedCpl};
use imfwizard_core::profiles::{platform_from_name, required_audio_channels, Platform};
use imfwizard_core::still::distinct_frames;
use imfwizard_core::MxfTrackFile;

fn track(path: &str, uuid: &str, duration: u64) -> MxfTrackFile {
    MxfTrackFile {
        path: path.to_string(),
        uuid: uuid.to_string(),
        hash: format!("hash-{uuid}"),
        size: 42,
        duration,
    }
}

#[test]
fn platform_from_name_maps_known_presets() {
    assert!(matches!(platform_from_name("netflix"), Some(Platform::Netflix)));
    assert!(matches!(platform_from_name("DCI-4K"), Some(Platform::TheatricalDci4k)));
    assert!(matches!(platform_from_name("amazon_prime"), Some(Platform::AmazonPrime)));
    assert!(platform_from_name("nope").is_none());
}

#[test]
fn spaces_and_aliases_name_the_same_platform() {
    assert_eq!(platform_from_name("Theatrical 2K"), Some(Platform::TheatricalDci2k));
    assert_eq!(platform_from_name("preservation"), Some(Platform::ArchivalPreservation));
    assert_eq!(platform_from_name("prime"), Some(Platform::AmazonPrime));
    assert_eq!(platform_from_name("HBO"), Some(Platform::Hbo));
}

#[test]
fn every_spelled_audio_layout_names_its_channel_count() {
    assert_eq!(required_audio_channels("Mono"), Some(1));
    assert_eq!(required_audio_channels("stereo"), Some(2));
    assert_eq!(required_audio_channels("5.1"), Some(6));
    assert_eq!(required_audio_channels("7.1"), Some(8));
    assert_eq!(required_audio_channels("7.1.4"), Some(12));
    assert_eq!(required_audio_channels("quad"), None);
}

fn video() -> PictureJob {
    PictureJob { input_type: InputType::Video, still_hold: false }
}

#[test]
fn a_plain_video_qualifies() {
    assert_eq!(overlap_refusal(&video()), None);
}

#[test]
fn everything_that_does_not_stream_every_packaged_frame_is_refused() {
    for job in [
        PictureJob { still_hold: true, ..video() },
        PictureJob { input_type: InputType::J2kSequence, ..video() },
        PictureJob { input_type: InputType::ImageSequence, ..video() },
    ] {
        assert!(overlap_refusal(&job).is_some());
    }
    assert!(overlap_refusal(&PictureJob { still_hold: true, ..video() }).unwrap().contains("held still"));
}

#[test]
fn a_target_names_its_cinema_container() {
    let spec = spec_for_target("4k-scope").unwrap();
    assert_eq!(spec.resolution, Resolution { width: 4096, height: 1716 });
    assert_eq!(spec.video_codec, "prores");
    assert_eq!(spec.audio_codec, "pcm_s24le");
    assert_eq!(spec.container, "mov");
    assert_eq!(spec.frame_rate, None);
    assert_eq!(spec.platform, "4k-scope");
    let error = spec_for_target("1080p").err().unwrap();
    assert_eq!(
        error,
        "unknown target '1080p' (supported: 2k-scope, 2k-flat, 2k-full, 4k-scope, 4k-flat, 4k-full)"
    );
}

#[test]
fn a_prores_delivery_runs_the_expected_transcode() {
    let spec = spec_for_target("2k-flat").unwrap();
    let inputs = vec!["VIDEO_a.mxf".to_string(), "AUDIO_b.mxf".to_string()];
    let args = transcode_args(&spec, &inputs, "out/delivery.mov");
    let want: Vec<&str> = vec![
        "-y", "-i", "VIDEO_a.mxf", "-i", "AUDIO_b.mxf", "-c:v", "prores_ks", "-profile:v", "4444",
        "-c:a", "pcm_s24le", "-s", "1998x1080", "out/delivery.mov",
    ];
    assert_eq!(args, want);
    assert_eq!(delivery_file_name(&spec), "delivery.mov");
    assert_eq!(dolby_vision_file_name(&spec), "delivery_dv.mov");
}

#[test]
fn an_hdr_h265_delivery_carries_its_bitrate_rate_and_colour_tags() {
    let mut spec = spec_for_target("4k-full").unwrap();
    spec.video_codec = "hevc".to_string();
    spec.audio_codec = "aac".to_string();
    spec.bitrate = "40M".to_string();
    spec.frame_rate = Some((24000, 1001));
    spec.hdr = true;
    let args = transcode_args(&spec, &vec!["a.mxf".to_string()], "o.mov");
    let want: Vec<&str> = vec![
        "-y", "-i", "a.mxf", "-c:v", "libx265", "-b:v", "40M", "-c:a", "aac", "-b:a", "256k",
        "-s", "4096x2160", "-r", "24000/1001", "-colorspace", "bt2020nc", "-color_primaries",
        "bt2020", "-color_trc", "smpte2084", "o.mov",
    ];
    assert_eq!(args, want);
    spec.frame_rate = Some((25, 1));
    spec.video_codec = "dnxhd".to_string();
    spec.hdr = false;
    let args = transcode_args(&spec, &Vec::new(), "o.mov");
    assert!(args.windows(2).any(|w| w[0] == "-r" && w[1] == "25"));
    assert!(args.windows(2).any(|w| w[0] == "-c:v" && w[1] == "dnxhd"));
}

#[test]
fn only_mxf_files_are_essence() {
    assert!(is_essence_file(Some("mxf")));
    assert!(is_essence_file(Some("MXF")));
    assert!(!is_essence_file(Some("Mxf")));
    assert!(!is_essence_file(Some("xml")));
    assert!(!is_essence_file(None));
}

#[test]
fn track_files_are_classified_by_their_prefix() {
    assert_eq!(track_kind("VIDEO_x.mxf"), Some(TrackKind::Image));
    assert_eq!(track_kind("AUDIO_x.mxf"), Some(TrackKind::Audio));
    assert_eq!(track_kind("SUBTITLE_x.mxf"), Some(TrackKind::Subtitle));
    assert_eq!(track_kind("PKL_x.xml"), None);
    let resources = cpl_resources(&vec![
        track("/imp/VIDEO_v.mxf", "v", 24),
        track("/imp/notes.txt", "n", 1),
        track("/imp/AUDIO_a.mxf", "a", 24),
    ]);
    assert_eq!(resources.len(), 2);
    assert_eq!(resources[0].track_file_uuid, "v");
    assert_eq!(resources[0].kind, TrackKind::Image);
    assert_eq!(resources[1].track_file_uuid, "a");
    assert_eq!(resources[1].kind, TrackKind::Audio);
    assert_eq!(resources[1].duration, 24);
}

#[test]
fn a_cpl_lists_each_audio_language_once_in_first_seen_order() {
    let audio = |l: Option<&str>| AudioTrack {
        path: "/a.wav".to_string(),
        language: l.map(str::to_string),
        role: None,
    };
    let comp = Composition {
        audio_files: vec![audio(Some("de-DE")), audio(None), audio(Some("en")), audio(Some("de-DE"))],
        ..Default::default()
    };
    assert_eq!(composition_languages(&comp), vec!["de-DE".to_string(), "en".to_string()]);
}

#[test]
fn a_packing_list_covers_cpls_then_track_files() {
    let cpls = vec![
        HashedCpl { uuid: "aaa".to_string(), hash: "h1".to_string(), size: 10 },
        HashedCpl { uuid: "bbb".to_string(), hash: "h2".to_string(), size: 11 },
    ];
    let assets = pkl_assets(&cpls, &vec![track("/imp/VIDEO_track.mxf", "track", 24)]);
    assert_eq!(assets.len(), 3);
    assert_eq!(assets[0].id, "aaa");
    assert_eq!(assets[0].asset_type, "text/xml");
    assert_eq!(assets[1].id, "bbb");
    assert_eq!(assets[2].id, "track");
    assert_eq!(assets[2].hash, "hash-track");
    assert_eq!(assets[2].size, 42);
    assert_eq!(assets[2].asset_type, "application/mxf");
}

#[test]
fn an_asset_map_names_the_packing_list_first() {
    let cpls = vec![CplEntry { uuid: "cpl".to_string(), path: "/imp/CPL_cpl.xml".to_string() }];
    let assets = assetmap_assets("pkl", &cpls, &vec![track("/imp/VIDEO_track.mxf", "track", 24)]);
    assert_eq!(assets.len(), 3);
    assert_eq!(assets[0].id, "pkl");
    assert_eq!(assets[0].path, "PKL_pkl.xml");
    assert!(assets[0].packing_list);
    assert_eq!(assets[1].path, "CPL_cpl.xml");
    assert!(!assets[1].packing_list);
    assert_eq!(assets[2].id, "track");
    assert_eq!(assets[2].path, "VIDEO_track.mxf");
}

#[test]
fn a_rewrap_keeps_the_labels_it_finds_and_fills_the_rest() {
    let fresh = soundfield_group(None, "My Film");
    assert_eq!(fresh.title, "My Film");
    assert_eq!(fresh.title_version, "Original Version");
    assert_eq!(fresh.audio_content_kind, "PRM");
    assert_eq!(fresh.audio_element_kind, "FCMP");
    let existing = LabelFields {
        title: Some("Kept".to_string()),
        title_version: Some(String::new()),
        audio_content_kind: None,
        audio_element_kind: Some("MIX".to_string()),
    };
    let kept = soundfield_group(Some(&existing), "My Film");
    assert_eq!(kept.title, "Kept");
    assert_eq!(kept.title_version, "Original Version");
    assert_eq!(kept.audio_content_kind, "PRM");
    assert_eq!(kept.audio_element_kind, "MIX");
    let titles = vec![String::new(), "Feature".to_string(), "Other".to_string()];
    assert_eq!(composition_title(&titles, "stem"), "Feature");
    assert_eq!(composition_title(&Vec::new(), "stem"), "stem");
    assert_eq!(cpl_id("CPL_1234"), Some("1234".to_string()));
    assert_eq!(cpl_id("PKL_1234"), None);
}

#[test]
fn png_samples_are_bytes_or_scaled_big_endian_words() {
    assert_eq!(png_rgb_data(8, &vec![0, 255, 300]), vec![0u8, 255, 44]);
    // 10-bit samples are shifted up by six bits
    assert_eq!(png_rgb_data(10, &vec![1023, 1]), vec![0xFFu8, 0xC0, 0x00, 0x40]);
    assert_eq!(png_rgb_data(16, &vec![0x1234]), vec![0x12u8, 0x34]);
}

#[test]
fn a_hold_encodes_a_frame_wherever_the_burnt_cues_change() {
    assert_eq!(distinct_frames(None, 100), vec![0]);
    let active: Vec<Vec<u64>> = vec![vec![], vec![], vec![0], vec![0], vec![0, 1], vec![], vec![]];
    assert_eq!(distinct_frames(Some(&active), 7), vec![0, 2, 4, 5]);
    assert_eq!(distinct_frames(Some(&active), 3), vec![0, 2]);
    assert_eq!(distinct_frames(Some(&active), 0), vec![0]);
}
