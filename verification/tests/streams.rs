use imfwizard_core::adm::{adm_from_events, AdmEvent};
use imfwizard_core::prores::{prores_args, ContainerRaster};
use imfwizard_core::timeline::{assetmap_from_tokens, timeline_from_tokens, SegmentEntry, XmlKind, XmlToken};

fn tok(kind: XmlKind, text: &str) -> XmlToken {
    XmlToken { kind, text: text.to_string() }
}

#[test]
fn an_assetmap_token_stream_lists_its_assets() {
    let toks = vec![
        tok(XmlKind::Start, "AssetList"),
        tok(XmlKind::Start, "Asset"),
        tok(XmlKind::Start, "Id"),
        tok(XmlKind::Text, " urn:uuid:abc "),
        tok(XmlKind::End, "Id"),
        tok(XmlKind::Start, "Path"),
        tok(XmlKind::Text, "VIDEO_abc.mxf"),
        tok(XmlKind::End, "Path"),
        tok(XmlKind::End, "Asset"),
        tok(XmlKind::Start, "Asset"),
        tok(XmlKind::Start, "Id"),
        tok(XmlKind::Text, "urn:uuid:no-path"),
        tok(XmlKind::End, "Id"),
        tok(XmlKind::End, "Asset"),
    ];
    assert_eq!(
        assetmap_from_tokens(&toks),
        vec![("abc".to_string(), "VIDEO_abc.mxf".to_string())]
    );
}

#[test]
fn a_cpl_token_stream_gives_its_segments() {
    let toks = vec![
        tok(XmlKind::Start, "Segment"),
        tok(XmlKind::Start, "Id"),
        tok(XmlKind::Text, "urn:uuid:seg-1"),
        tok(XmlKind::End, "Id"),
        tok(XmlKind::Start, "MainImageSequence"),
        tok(XmlKind::Start, "Resource"),
        tok(XmlKind::Start, "TrackFileId"),
        tok(XmlKind::Text, "urn:uuid:pic"),
        tok(XmlKind::End, "TrackFileId"),
        tok(XmlKind::Start, "SourceDuration"),
        tok(XmlKind::Text, "72"),
        tok(XmlKind::End, "SourceDuration"),
        tok(XmlKind::End, "Resource"),
        tok(XmlKind::End, "MainImageSequence"),
        tok(XmlKind::End, "Segment"),
    ];
    let paths = vec![("pic".to_string(), "/imp/VIDEO_pic.mxf".to_string())];
    let segs = timeline_from_tokens(&toks, &paths);
    assert_eq!(segs.len(), 1);
    assert_eq!(segs[0].segment_number, 1);
    assert_eq!(segs[0].video_track_file_id, "pic");
    assert_eq!(segs[0].video_file, "/imp/VIDEO_pic.mxf");
    assert_eq!(segs[0].duration_frames, 72);
}

#[test]
fn an_adm_event_stream_gives_its_beds() {
    let events = vec![
        AdmEvent::Open(
            b"audioChannelFormat".to_vec(),
            vec![
                (b"audioChannelFormatName".to_vec(), b"Left".to_vec()),
                (b"typeLabel".to_vec(), b"0001".to_vec()),
            ],
        ),
        AdmEvent::Open(b"speakerLabel".to_vec(), vec![]),
        AdmEvent::Chars(" M+030 ".to_string()),
        AdmEvent::Close(b"speakerLabel".to_vec()),
        AdmEvent::Close(b"audioChannelFormat".to_vec()),
    ];
    let adm = adm_from_events(&events);
    assert_eq!(adm.total_channels, 1);
    assert_eq!(adm.beds.len(), 1);
    assert_eq!(adm.beds[0].label, "Left");
    assert_eq!(adm.beds[0].speaker_label, "M+030");
    assert!(adm.objects.is_empty());
}

#[test]
fn a_prores_export_runs_the_expected_ffmpeg() {
    let seg = |v: &str, a: &str| SegmentEntry {
        video_file: v.to_string(),
        audio_file: a.to_string(),
        edit_rate: "24000 1001".to_string(),
        ..Default::default()
    };
    let segments = vec![seg("v1.mxf", "a1.mxf"), seg("v2.mxf", "a2.mxf")];
    let args = prores_args(&segments, true, "GRAPH", Some(ContainerRaster { width: 1998, height: 1080 }), "out.mov");
    let want: Vec<&str> = vec![
        "-hide_banner", "-nostats", "-nostdin", "-y", "-i", "v1.mxf", "-i", "a1.mxf", "-i", "v2.mxf",
        "-i", "a2.mxf", "-filter_complex", "GRAPH", "-map", "[fitted]", "-map", "[sound]", "-c:v",
        "prores_ks", "-profile:v", "4", "-pix_fmt", "yuv444p10le", "-r", "24000/1001", "-c:a",
        "pcm_s24le", "out.mov",
    ];
    assert_eq!(args, want);
    let silent = prores_args(&segments[..1].to_vec(), false, "G", None, "o.mov");
    let want: Vec<&str> = vec![
        "-hide_banner", "-nostats", "-nostdin", "-y", "-i", "v1.mxf", "-filter_complex", "G", "-map",
        "[picture]", "-c:v", "prores_ks", "-profile:v", "4", "-pix_fmt", "yuv444p10le", "-r",
        "24000/1001", "o.mov",
    ];
    assert_eq!(silent, want);
}
