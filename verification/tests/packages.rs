use imfwizard_core::imp_diff::{
    assetmap_entries, cpl_facts, diff_packages, extract_tag, find_cpl, insert_asset, AssetInfo,
    CplFacts, DiffError, DiffOptions, DiffStatus, PackageFacts,
};
use imfwizard_core::info::{extract_xml_text, imp_info, intrinsic_total};
use imfwizard_core::supplement::{
    check_options, check_request, ov_resources, parse_ov_cpl, parse_spec, replace_resource,
    ImfTrackKind, SupplementOptions,
};
use imfwizard_core::timeline::{assetmap_assets, cpl_info_from, first_element_text, timeline_from_xml};
use imfwizard_core::validate::{validate_imp, Note, Severity};

const CPL_WITH_ONE_SEGMENT: &str = r#"<?xml version="1.0"?>
<CompositionPlaylist>
  <SegmentList><Segment>
    <Id>urn:uuid:seg-1</Id>
    <SequenceList>
      <cc:MainImageSequence>
        <ResourceList><Resource>
          <TrackFileId>urn:uuid:video-1</TrackFileId>
          <EditRate>24 1</EditRate>
          <IntrinsicDuration>240</IntrinsicDuration>
          <SourceDuration>200</SourceDuration>
          <EntryPoint>5</EntryPoint>
        </Resource></ResourceList>
      </cc:MainImageSequence>
      <cc:MainAudioSequence>
        <ResourceList><Resource>
          <TrackFileId>urn:uuid:audio-1</TrackFileId>
        </Resource></ResourceList>
      </cc:MainAudioSequence>
    </SequenceList>
  </Segment></SegmentList>
</CompositionPlaylist>"#;

#[test]
fn a_cpl_segment_gives_its_resources() {
    let t = timeline_from_xml(CPL_WITH_ONE_SEGMENT, &Vec::new());
    assert_eq!(t.len(), 1);
    assert_eq!(t[0].segment_number, 1);
    assert_eq!(t[0].segment_id, "seg-1");
    assert_eq!(t[0].video_track_file_id, "video-1");
    assert_eq!(t[0].audio_track_file_id, "audio-1");
    assert_eq!(t[0].duration_frames, 200);
    assert_eq!(t[0].entry_point, 5);
    assert_eq!(t[0].edit_rate, "24 1");
    assert_eq!(t[0].video_file, "");
}

#[test]
fn a_segment_finds_its_files_through_the_assetmap() {
    let paths = vec![
        ("video-1".to_string(), "old.mxf".to_string()),
        ("audio-1".to_string(), "AUDIO.mxf".to_string()),
        ("video-1".to_string(), "VIDEO.mxf".to_string()),
    ];
    let t = timeline_from_xml(CPL_WITH_ONE_SEGMENT, &paths);
    assert_eq!(t[0].video_file, "VIDEO.mxf");
    assert_eq!(t[0].audio_file, "AUDIO.mxf");
}

#[test]
fn the_assetmap_and_the_cpl_text_name_the_cpl() {
    let assetmap = r#"<?xml version="1.0"?><AssetMap><AssetList>
        <Asset><Id>urn:uuid:1111</Id><ChunkList><Chunk><Path>CPL_abc.xml</Path></Chunk></ChunkList></Asset>
        <Asset><Id>urn:uuid:2222</Id><ChunkList><Chunk><Path>video.mxf</Path></Chunk></ChunkList></Asset>
    </AssetList></AssetMap>"#;
    let assets = assetmap_assets(assetmap);
    assert_eq!(
        assets,
        vec![
            ("1111".to_string(), "CPL_abc.xml".to_string()),
            ("2222".to_string(), "video.mxf".to_string())
        ]
    );
    let cpl = r#"<?xml version="1.0"?><CompositionPlaylist><ContentTitle>My &amp; Film</ContentTitle></CompositionPlaylist>"#;
    let info = cpl_info_from("1111", "CPL_abc.xml", cpl).unwrap();
    assert_eq!(info.id, "1111");
    assert_eq!(info.file_path, "CPL_abc.xml");
    assert_eq!(info.title, "My & Film");
    assert!(cpl_info_from("2222", "video.mxf", "<AssetMap/>").is_none());
    assert_eq!(
        first_element_text("<a><b>x</b><b>y</b></a>", "b").as_deref(),
        Some("x")
    );
    assert_eq!(first_element_text("<a/>", "b"), None);
}

fn test_imp(cpl_title: &str, track_ids: &[&str], sizes: &[u64]) -> PackageFacts {
    let mut entries = String::new();
    entries.push_str(
        "<Asset><Id>urn:uuid:cpl-id-1234</Id><ChunkList><Chunk><Path>CPL_test.xml</Path></Chunk></ChunkList></Asset>",
    );
    for tid in track_ids {
        entries.push_str(&format!(
            "<Asset><Id>urn:uuid:{tid}</Id><ChunkList><Chunk><Path>{tid}.mxf</Path></Chunk></ChunkList></Asset>"
        ));
    }
    let assetmap = format!(
        "<?xml version=\"1.0\"?>\n<AssetMap>\n  <Id>urn:uuid:am-1234</Id>\n  <AssetList>{entries}</AssetList>\n</AssetMap>"
    );
    let mut assets: Vec<AssetInfo> = Vec::new();
    for (id, path) in assetmap_entries(&assetmap) {
        let is_mxf = path.ends_with(".mxf");
        let size = if is_mxf {
            let k = track_ids.iter().position(|t| *t == id).unwrap();
            sizes[k]
        } else {
            0
        };
        insert_asset(
            &mut assets,
            AssetInfo {
                id,
                asset_type: if is_mxf { "mxf".into() } else { "xml".into() },
                size,
                path: path.clone(),
                file_name: path,
            },
        );
    }
    let refs: Vec<String> = track_ids
        .iter()
        .map(|t| format!("<TrackFileId>urn:uuid:{t}</TrackFileId>"))
        .collect();
    let cpl = format!(
        "<?xml version=\"1.0\"?>\n<CompositionPlaylist>\n  <Id>urn:uuid:cpl-id-1234</Id>\n  <ContentTitle>{cpl_title}</ContentTitle>\n  <Annotation>Test annotation</Annotation>\n  <EditRate>24 1</EditRate>\n  <SegmentList><Segment><Resource>\n{}\n</Resource></Segment></SegmentList>\n</CompositionPlaylist>",
        refs.join("\n")
    );
    assert!(find_cpl(&assets).is_some());
    PackageFacts {
        assets,
        cpl: cpl_facts(&cpl),
    }
}

fn options(include_hashes: bool, show_unchanged: bool) -> DiffOptions {
    DiffOptions {
        imp_a: "a".into(),
        imp_b: "b".into(),
        include_hashes,
        show_unchanged,
    }
}

#[test]
fn test_identical_packages() {
    let a = test_imp("Test Film", &["track-001", "track-002"], &[1024, 1024]);
    let b = test_imp("Test Film", &["track-001", "track-002"], &[1024, 1024]);
    let result = diff_packages(&options(false, false), Some(a), Some(b)).unwrap();
    assert_eq!(result.tracks_added, 0);
    assert_eq!(result.tracks_removed, 0);
    assert_eq!(result.tracks_modified, 0);
    assert_eq!(result.segments_changed, 0);
    assert!(!result.cpl_title_changed);
    assert!(!result.edit_rate_changed);
}

#[test]
fn test_track_added() {
    let a = test_imp("Test Film", &["track-001"], &[1024]);
    let b = test_imp("Test Film", &["track-001", "track-002"], &[1024, 1024]);
    let result = diff_packages(&options(false, false), Some(a), Some(b)).unwrap();
    assert_eq!(result.tracks_added, 1);
    assert_eq!(result.tracks_removed, 0);
    assert_eq!(result.segments_changed, 1);
    assert_eq!(result.track_diffs[0].detail, "New track track-002 in B");
    assert_eq!(result.segment_diffs[0].new_track_id, "track-002");
}

#[test]
fn test_track_removed() {
    let a = test_imp("Test Film", &["track-001", "track-002"], &[1024, 1024]);
    let b = test_imp("Test Film", &["track-001"], &[1024]);
    let result = diff_packages(&options(false, false), Some(a), Some(b)).unwrap();
    assert_eq!(result.tracks_removed, 1);
    assert_eq!(result.tracks_added, 0);
    assert_eq!(result.segments_changed, 1);
    assert_eq!(result.segment_diffs[0].status, DiffStatus::Removed);
}

#[test]
fn test_title_changed() {
    let a = test_imp("Version 1", &["track-001"], &[1024]);
    let b = test_imp("Version 2", &["track-001"], &[1024]);
    let result = diff_packages(&options(false, false), Some(a), Some(b)).unwrap();
    assert!(result.cpl_title_changed);
    assert_eq!(result.tracks_added, 0);
    assert_eq!(result.tracks_removed, 0);
}

#[test]
fn test_size_change_detected_with_hashes() {
    let a = test_imp("Test Film", &["track-001"], &[1024]);
    let b = test_imp("Test Film", &["track-001"], &[2048]);
    let result = diff_packages(&options(true, false), Some(a), Some(b)).unwrap();
    assert_eq!(result.tracks_modified, 1);
    assert_eq!(
        result.track_diffs[0].detail,
        "Track track-001 size changed (1024 → 2048)"
    );
}

#[test]
fn test_missing_imp_returns_error() {
    let a = test_imp("Test", &["t1"], &[1024]);
    let result = diff_packages(&options(false, false), Some(a), None);
    assert!(result.is_err());
    match result {
        Err(e @ DiffError::NotFound(_)) => {
            assert_eq!(e.message(), "IMP directory does not exist: b")
        }
        _ => panic!("expected NotFound"),
    }
}

#[test]
fn test_show_unchanged() {
    let a = test_imp("Test", &["track-001", "track-002"], &[1024, 1024]);
    let b = test_imp("Test", &["track-001", "track-002"], &[1024, 1024]);
    let result = diff_packages(&options(false, true), Some(a), Some(b)).unwrap();
    assert_eq!(result.track_diffs.len(), 2);
    assert!(result
        .track_diffs
        .iter()
        .all(|d| d.status == DiffStatus::Unchanged));
}

#[test]
fn a_later_assetmap_entry_for_an_id_replaces_the_earlier() {
    let mut assets = Vec::new();
    for (id, size) in [("x", 1u64), ("y", 2), ("x", 3)] {
        insert_asset(
            &mut assets,
            AssetInfo {
                id: id.into(),
                asset_type: "mxf".into(),
                size,
                path: String::new(),
                file_name: String::new(),
            },
        );
    }
    assert_eq!(assets.len(), 2);
    assert_eq!(assets[0].size, 3);
    assert_eq!(assets[1].size, 2);
}

#[test]
fn a_tag_is_read_between_its_first_open_and_the_next_close() {
    let xml: Vec<char> = "<a><Id> urn:uuid:x </Id><Id>y</Id></a>".chars().collect();
    let got: String = extract_tag(&xml, "Id").unwrap().into_iter().collect();
    assert_eq!(got, "urn:uuid:x");
    assert!(extract_tag(&xml, "Path").is_none());
    let facts: CplFacts = cpl_facts("<Id>urn:uuid:urn:uuid:c</Id>");
    assert_eq!(facts.id, "c");
}

#[test]
fn inspect_reads_the_first_cpl() {
    let cpl = "<CompositionPlaylist>\n<ContentTitle>Feature</ContentTitle>\n<Issuer>Studio</Issuer>\n<EditRate>24 1</EditRate>\n  <IntrinsicDuration>100</IntrinsicDuration>\n  <IntrinsicDuration>20</IntrinsicDuration>\n</CompositionPlaylist>";
    let info = imp_info(2, Some(cpl)).unwrap();
    assert_eq!(info.cpl_count, 2);
    assert_eq!(info.title, "Feature");
    assert_eq!(info.issuer, "Studio");
    assert_eq!(info.annotation, "");
    assert_eq!(info.edit_rate, "24 1");
    assert_eq!(info.duration_frames, 120);
    assert_eq!(extract_xml_text("<a></a>", "a"), None);
    assert_eq!(intrinsic_total("<IntrinsicDuration>x</IntrinsicDuration>"), Some(0));
    let empty = imp_info(0, None).unwrap();
    assert_eq!(empty.cpl_count, 0);
    assert_eq!(empty.duration_frames, 0);
}

const OV_CPL: &str = r#"<?xml version="1.0"?>
<CompositionPlaylist xmlns="http://www.smpte-ra.org/schemas/2067-3/2016">
  <Id>urn:uuid:ov-cpl</Id>
  <ContentTitle>OV</ContentTitle>
  <ContentKind>feature</ContentKind>
  <EditRate>24 1</EditRate>
  <SegmentList><Segment>
    <Id>urn:uuid:seg</Id>
    <SequenceList>
      <cc:MainImageSequence>
        <EditRate>24 1</EditRate>
        <ResourceList><Resource>
          <TrackFileId>urn:uuid:ov-video</TrackFileId>
          <IntrinsicDuration>240</IntrinsicDuration>
          <SourceDuration>240</SourceDuration>
        </Resource></ResourceList>
      </cc:MainImageSequence>
      <cc:MainAudioSequence>
        <EditRate>24 1</EditRate>
        <ResourceList><Resource>
          <TrackFileId>urn:uuid:ov-audio</TrackFileId>
          <IntrinsicDuration>240</IntrinsicDuration>
          <SourceDuration>240</SourceDuration>
        </Resource></ResourceList>
      </cc:MainAudioSequence>
    </SequenceList>
  </Segment></SegmentList>
</CompositionPlaylist>"#;

#[test]
fn parse_ov_reads_edit_rate_and_resources() {
    let ov = parse_ov_cpl(OV_CPL).unwrap();
    assert_eq!((ov.fps_num, ov.fps_den), (24, 1));
    assert_eq!(ov.content_kind, "feature");
    assert_eq!(ov.resources.len(), 2);
    assert_eq!(ov.resources[0].kind, ImfTrackKind::Image);
    assert_eq!(ov.resources[0].uuid, "ov-video");
    assert_eq!(ov.resources[1].uuid, "ov-audio");
}

#[test]
fn spec_parses_track_and_index() {
    let s = parse_spec("/x/y.wav@audio:2").unwrap();
    assert_eq!(s.kind, ImfTrackKind::Audio);
    assert_eq!(s.index, 2);
    assert_eq!(parse_spec("/v@video").unwrap().index, 0);
    assert!(parse_spec("no-at-sign").is_err());
    assert!(parse_spec("/x@bogus").is_err());
}

#[test]
fn fails_loud_when_nothing_changes() {
    let opts = SupplementOptions {
        ov_dir: "ov".into(),
        title: "Supp".into(),
        output_dir: "out".into(),
        replace: vec![],
        add: vec![],
    };
    let error = check_options(true, &opts).unwrap_err();
    assert!(error.contains("nothing to change"));
}

#[test]
fn fails_loud_on_missing_ov_track() {
    let ov = parse_ov_cpl(OV_CPL).unwrap();
    let error = check_request(&vec!["/out/dub.wav@audio:3".to_string()], &vec![], &ov)
        .err()
        .unwrap();
    assert!(error.contains("no Audio track at index 3"), "got: {error}");
    let error = check_request(&vec![], &vec!["/p.mxf@video".to_string()], &ov)
        .err()
        .unwrap();
    assert!(error.contains("cannot --add an image track"), "got: {error}");
}

#[test]
fn a_replaced_track_takes_the_place_of_the_ov_one() {
    let ov = parse_ov_cpl(OV_CPL).unwrap();
    let mut resources = ov_resources(&ov);
    replace_resource(&mut resources, ImfTrackKind::Audio, 0, "new-audio", 120);
    assert_eq!(resources.len(), 2);
    assert_eq!(resources[0].track_file_uuid, "ov-video");
    assert_eq!(resources[1].track_file_uuid, "new-audio");
    assert_eq!(resources[1].duration, 120);
    assert!(parse_ov_cpl("<CompositionPlaylist><EditRate>24 1</EditRate></CompositionPlaylist>")
        .err()
        .unwrap()
        .contains("no track-file resources"));
}

#[test]
fn a_path_that_is_not_a_directory_is_rejected() {
    let result = validate_imp("/nowhere", false, &Vec::new(), 0, 0);
    assert!(!result.valid);
    assert!(result.errors.iter().any(|e| e.contains("Not a directory")));
}

#[test]
fn an_empty_directory_is_rejected_for_having_no_composition() {
    let result = validate_imp("/empty", true, &Vec::new(), 0, 0);
    assert!(!result.valid);
    assert!(result
        .errors
        .iter()
        .any(|e| e.contains("No Composition Playlist (CPL) found")));
    assert!(result
        .warnings
        .iter()
        .any(|w| w.contains("No MXF essence files found")));
}

#[test]
fn verifier_notes_are_sorted_by_severity() {
    let notes = vec![
        Note {
            severity: Severity::Warning,
            message: "w1".into(),
        },
        Note {
            severity: Severity::Error,
            message: "No valid CPL found".into(),
        },
        Note {
            severity: Severity::Info,
            message: "bitrate".into(),
        },
    ];
    let result = validate_imp("/imp", true, &notes, 0, 1);
    assert!(!result.valid);
    assert_eq!(result.errors, vec!["No valid CPL found".to_string()]);
    assert_eq!(result.warnings, vec!["w1".to_string()]);
    assert_eq!(result.infos, vec!["bitrate".to_string()]);
    let clean = validate_imp("/imp", true, &Vec::new(), 1, 1);
    assert!(clean.valid && clean.errors.is_empty() && clean.warnings.is_empty());
}

#[test]
fn a_diff_read_the_other_way_mirrors_it() {
    let a = || test_imp("Cut 1", &["t-1", "t-2", "t-3"], &[10, 20, 30]);
    let b = || test_imp("Cut 2", &["t-2", "t-3", "t-4", "t-5"], &[20, 31, 40, 50]);
    let ab = diff_packages(&options(true, false), Some(a()), Some(b())).unwrap();
    let ba = diff_packages(&options(true, false), Some(b()), Some(a())).unwrap();
    assert_eq!(ab.tracks_added, 2);
    assert_eq!(ab.tracks_removed, 1);
    assert_eq!(ab.tracks_added, ba.tracks_removed);
    assert_eq!(ab.tracks_removed, ba.tracks_added);
    assert_eq!(ab.tracks_modified, 1);
    assert_eq!(ab.tracks_modified, ba.tracks_modified);
    assert_eq!(ab.segments_changed, 3);
    assert_eq!(ab.segments_changed, ba.segments_changed);
    assert_eq!(ab.cpl_title_changed, ba.cpl_title_changed);
    assert_eq!(ab.cpl_annotation_changed, ba.cpl_annotation_changed);
    assert_eq!(ab.edit_rate_changed, ba.edit_rate_changed);
}
