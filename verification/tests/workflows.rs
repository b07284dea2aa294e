use imfwizard_core::atmos::{
    check_riff_header, synthetic_adm_bwf, synthetic_adm_sample, synthetic_adm_xml, axml_document,
    BwfForm, RiffWalk, WalkStep,
};
use imfwizard_core::audio_map::destination_names;
use imfwizard_core::conform::{
    agreed_raster, check_resolution, comparable_file_name, media_matches, raster_step,
    ConformEvent, VideoInfo,
};
use imfwizard_core::export_frames::{
    export_range, frame_jobs, needs_probe, select_cpl, ExportFormat, PictureProbe, SegmentPlan,
};
use imfwizard_core::preflight::unclassified_picture_refusal;
use imfwizard_core::rest_api::{
    bind_address, cancel_response, is_health_path, metrics_text, submit_response, ApiConfig,
};
use imfwizard_core::source_edits::{
    apply_source_edits, check_edit_sources, finished_cue, kept_frames, CompositionSource,
    PictureFacts, SourceEdits, TimedTextCue,
};
use imfwizard_core::timeline::{CplInfo, SegmentEntry};
use imfwizard_core::tools::{
    check_all_tools, format_doctor_report, has_ffmpeg, has_xmllint, probe_tool, tool_def,
    tool_path, version_from_output, ToolStatus, TOOL_COUNT,
};
use imfwizard_core::xsd_validate::{
    document_type, schema_candidates, schema_name_matches, xmllint_failure, xmllint_result,
};

fn entry(video: &str, entry_point: u64, duration: u64) -> SegmentEntry {
    SegmentEntry {
        video_file: video.to_string(),
        entry_point,
        duration_frames: duration,
        ..Default::default()
    }
}

fn probe(duration: u32) -> PictureProbe {
    PictureProbe {
        width: 2048,
        height: 1080,
        duration,
        encrypted: false,
    }
}

#[test]
fn a_picture_track_becomes_segments_and_numbered_frames() {
    let mut plan = SegmentPlan::new();
    let entries = [entry("/imp/a.mxf", 0, 3), entry("", 0, 0), entry("/imp/b.mxf", 1, 0)];
    for e in &entries {
        if needs_probe(e) {
            plan.step(e, &probe(3)).unwrap();
        } else {
            plan.step(e, &probe(0)).unwrap();
        }
    }
    let (segments, width, height) = plan.finish().unwrap();
    assert_eq!((width, height), (2048, 1080));
    assert_eq!(segments.len(), 2);
    assert_eq!((segments[1].entry, segments[1].count), (1, 2));

    let (start, end) = export_range(&segments, 1, Some(3)).unwrap();
    assert_eq!((start, end), (1, 4));
    let jobs = frame_jobs(&segments, start, end, ExportFormat::Tiff);
    assert_eq!(jobs.len(), 3);
    assert_eq!((jobs[0].segment, jobs[0].source_frame), (0, 1));
    assert_eq!((jobs[2].segment, jobs[2].source_frame), (1, 1));
    assert_eq!(jobs[0].file_name, "frame_000001.tif");
    assert_eq!(jobs[2].file_name, "frame_000003.tif");

    assert_eq!(
        export_range(&segments, 9, None).unwrap_err(),
        "--start 9 is past the composition's 5 picture frame(s)"
    );
}

#[test]
fn encrypted_essence_and_a_changing_raster_are_refused() {
    let mut plan = SegmentPlan::new();
    let mut locked = probe(10);
    locked.encrypted = true;
    let error = plan.step(&entry("/imp/v.mxf", 0, 0), &locked).unwrap_err();
    assert!(error.contains("encrypted") && error.contains("KDM"), "{error}");

    let mut plan = SegmentPlan::new();
    plan.step(&entry("/imp/v.mxf", 0, 0), &probe(10)).unwrap();
    let mut wide = probe(10);
    wide.width = 4096;
    assert_eq!(
        plan.step(&entry("/imp/w.mxf", 0, 0), &wide).unwrap_err(),
        "picture dimensions change across segments (2048x1080 then 4096x1080); not supported"
    );
    let empty = SegmentPlan::new();
    assert_eq!(empty.finish().err().unwrap(), "composition has no picture track");
}

fn cpl(id: &str, title: &str) -> CplInfo {
    CplInfo {
        id: id.into(),
        file_path: format!("CPL_{id}.xml"),
        title: title.into(),
    }
}

#[test]
fn a_cpl_is_selected_by_uuid_or_index() {
    let cpls = vec![cpl("AAA", "One"), cpl("bbb", "Two")];
    assert_eq!(select_cpl(&cpls, "/imp", Some("urn:uuid:aaa")).unwrap().id, "AAA");
    assert_eq!(select_cpl(&cpls, "/imp", Some(" 1 ")).unwrap().id, "bbb");
    assert_eq!(
        select_cpl(&cpls, "/imp", Some("7")).err().unwrap(),
        "--cpl index 7 out of range (0..2)"
    );
    assert_eq!(
        select_cpl(&cpls, "/imp", None).err().unwrap(),
        "IMP has 2 CPLs; select one with --cpl <uuid-or-index>:\n  [0] AAA One\n  [1] bbb Two"
    );
    assert_eq!(
        select_cpl(&Vec::new(), "/imp", None).err().unwrap(),
        "no CPL found in /imp"
    );
    assert_eq!(
        select_cpl(&cpls, "/imp", Some("zzz")).err().unwrap(),
        "no CPL matches --cpl zzz"
    );
}

#[test]
fn the_doctor_report_counts_and_lists_the_tools() {
    let mut tools = Vec::new();
    for i in 0..TOOL_COUNT {
        let (name, _, _, _) = tool_def(i);
        let found = name == "ffmpeg" || name == "xmllint";
        let path = if found { Some(format!("/usr/bin/{name}")) } else { None };
        let output = if name == "ffmpeg" {
            Some("ffmpeg version 6.1.1 Copyright".to_string())
        } else {
            None
        };
        tools.push(probe_tool(i, path, output));
    }
    let result = check_all_tools(tools);
    assert_eq!(result.available, 2);
    assert_eq!(result.missing, 7);
    assert_eq!(result.required_missing, 2);
    assert!(has_ffmpeg(&result));
    assert!(has_xmllint(&result));
    assert_eq!(tool_path(&result, "ffmpeg").as_deref(), Some("/usr/bin/ffmpeg"));
    assert_eq!(tool_path(&result, "ascp"), None);
    assert_eq!(result.tools[0].status, ToolStatus::Available);
    assert_eq!(result.tools[0].version.as_deref(), Some("6.1.1"));
    let report = format_doctor_report(&result);
    assert!(report.starts_with("IMF Wizard — Dependency Check\n"));
    assert!(report.contains("  [OK] ffmpeg (6.1.1)\n"));
    assert!(report.contains("       Path: /usr/bin/ffmpeg\n\n"));
    assert!(report.contains("  [--] ffprobe — NOT FOUND [REQUIRED]\n"));
    assert!(report.contains("Available: 2/9\n"));
    assert!(report.ends_with(
        "WARNING: 2 required tool(s) missing — core features will not work!\n"
    ));
}

#[test]
fn a_version_is_found_by_the_common_patterns() {
    assert_eq!(version_from_output("tool 1.2.3").as_deref(), Some("1.2.3"));
    assert_eq!(version_from_output("tool 4.5").as_deref(), Some("4.5"));
    assert_eq!(version_from_output("no digits"), None);
}

#[test]
fn xmllint_answers_are_read_line_by_line() {
    assert_eq!(document_type("<CompositionPlaylist/>"), Some("cpl"));
    assert_eq!(document_type("<PackingList/>"), Some("pkl"));
    assert_eq!(document_type("<AssetMap/>"), Some("assetmap"));
    assert_eq!(document_type("<x/>"), None);
    assert_eq!(
        schema_candidates("opl"),
        vec!["st2067-9-OPL.xsd".to_string()]
    );
    assert_eq!(schema_candidates("cpl").len(), 3);
    assert!(schema_name_matches("My-CPL-schema.xsd", "cpl"));
    assert!(!schema_name_matches("cpl.xml", "cpl"));
    let r = xmllint_result("CPL.xml", false, "CPL.xml:3: element x: bad\n\nCPL.xml fails to validate\nCPL.xml validates\n");
    assert!(!r.valid);
    assert_eq!(
        r.errors,
        vec![
            "CPL.xml:3: element x: bad".to_string(),
            "CPL.xml fails to validate".to_string()
        ]
    );
    assert!(xmllint_result("CPL.xml", true, "noise").errors.is_empty());
    assert_eq!(
        xmllint_failure("CPL.xml", "not found").errors,
        vec!["Failed to run xmllint: not found".to_string()]
    );
}

fn event(number: u32, reel: &str, media: &str, source_in: u64, source_out: u64) -> ConformEvent {
    ConformEvent {
        event_number: number,
        reel_name: reel.into(),
        media: media.into(),
        source_in,
        source_out,
        picture_track_file: None,
        sound_track_file: None,
    }
}

#[test]
fn a_reel_resolves_by_the_name_its_media_carries() {
    assert!(media_matches("REEL001", "REEL001_v2.mov"));
    assert!(!media_matches("REEL003", "REEL002.mov"));
    assert!(media_matches("A:B", "A_B.mov"));
    assert_eq!(comparable_file_name("a*b?c"), "a_b_c");
    assert_eq!(
        check_resolution(&vec![], &vec!["REEL001".to_string()], "/media").unwrap_err(),
        "no media under /media for reel REEL001"
    );
    let events = vec![event(3, "R1", "/m/r1.mov", 10, 10)];
    assert_eq!(
        check_resolution(&events, &vec![], "/media").unwrap_err(),
        "event 3 on reel R1 keeps no frames: source in 10 is not before source out 10"
    );
    assert_eq!(events[0].frames(), 0);
}

#[test]
fn every_event_has_to_share_the_first_raster() {
    let info = VideoInfo {
        width: 1920,
        height: 1080,
        total_frames: 100,
        has_audio: true,
    };
    let first = raster_step(None, &event(1, "R1", "/m/a.mov", 0, 50), &info).unwrap();
    let mut other = info;
    other.has_audio = false;
    assert_eq!(
        raster_step(Some(first), &event(2, "R2", "/m/b.mov", 0, 50), &other).unwrap_err(),
        "/m/b.mov carries no sound where an earlier event carries some"
    );
    assert_eq!(
        raster_step(Some(first), &event(2, "R2", "/m/b.mov", 0, 150), &info).unwrap_err(),
        "event 2 asks for frames 0..150 of /m/b.mov, which is 100 frames long"
    );
    assert_eq!(agreed_raster(None).unwrap_err(), "the plan holds no events");
    assert_eq!(agreed_raster(Some(first)).unwrap(), first);
}

#[test]
fn the_synthetic_master_carries_its_document_in_either_form() {
    assert_eq!(synthetic_adm_sample(0), 4096);
    assert_eq!(synthetic_adm_sample(11), 12 * 4096);
    let xml = synthetic_adm_xml();
    assert!(xml.contains("audioChannelFormatID=\"AC_0001000a\""));
    assert!(xml.contains("<azimuth>-30</azimuth>"));
    for form in [BwfForm::Riff, BwfForm::Bw64] {
        let bytes = synthetic_adm_bwf(form, 4);
        check_riff_header(&bytes[..12]).unwrap();
        let mut walk = RiffWalk::new(bytes.len() as u64);
        let mut found = None;
        while walk.has_next() {
            let at = walk.position as usize;
            match walk.on_chunk_header(&bytes[at..at + 8]).unwrap() {
                WalkStep::ReadAxml(n) => {
                    let start = walk.position as usize;
                    found = Some(axml_document(&bytes[start..start + n as usize]));
                    break;
                }
                WalkStep::ReadDs64(n) => {
                    let start = walk.position as usize;
                    walk.on_ds64(&bytes[start..start + n as usize]).unwrap();
                }
                WalkStep::SkipTo(_) => {}
            }
        }
        assert_eq!(found.as_deref(), Some(xml.as_str()));
    }
    assert!(check_riff_header(b"JUNK\0\0\0\0WAVE")
        .unwrap_err()
        .contains("form type is JUNK"));
}

#[test]
fn a_trim_that_leaves_no_picture_is_refused() {
    let edits = SourceEdits {
        audio_delay_ms: 0,
        trim_start_frames: 5,
        trim_end_frames: 5,
    };
    let source = CompositionSource {
        j2k_dir: Some("/work/j2k".into()),
        ..Default::default()
    };
    let plan = apply_source_edits(&edits, &source).unwrap();
    assert!(plan.trim_picture);
    let error = kept_frames(&edits, "/work/j2k", 10).unwrap_err();
    assert!(error.contains("10 picture frames"), "{error}");
    assert_eq!(kept_frames(&edits, "/work/j2k", 48).unwrap(), (5, 43));
}

#[test]
fn a_delay_without_a_sound_track_is_refused() {
    let edits = SourceEdits {
        audio_delay_ms: 250,
        ..Default::default()
    };
    let source = CompositionSource {
        j2k_dir: Some("/work".into()),
        ..Default::default()
    };
    let error = apply_source_edits(&edits, &source).err().unwrap();
    assert!(error.contains("sound track"), "{error}");
    let error = check_edit_sources(&edits, None, false).unwrap_err();
    assert!(error.contains("sound track"), "{error}");
}

#[test]
fn an_edit_plan_names_its_intermediates() {
    let edits = SourceEdits {
        audio_delay_ms: -40,
        trim_start_frames: 1,
        trim_end_frames: 0,
    };
    let source = CompositionSource {
        j2k_dir: Some("/work/j2k".into()),
        audio_files: vec!["a.wav".into(), "b.wav".into()],
        timed_text_files: vec!["s.xml".into()],
    };
    let plan = apply_source_edits(&edits, &source).unwrap();
    assert!(!plan.unchanged);
    assert_eq!(plan.timed_text_outputs, vec!["trimmed_subtitle_0.xml".to_string()]);
    assert_eq!(plan.audio_steps[1].delayed.as_deref(), Some("delayed_audio_1.wav"));
    assert_eq!(plan.audio_steps[1].trimmed.as_deref(), Some("trimmed_audio_1.wav"));
    let untouched = apply_source_edits(&SourceEdits::default(), &source).unwrap();
    assert!(untouched.unchanged);
    let picture = PictureFacts {
        path: "/work/j2k".into(),
        frames: 2,
    };
    assert!(check_edit_sources(&edits, Some(&picture), true).is_ok());
    let cue = finished_cue(TimedTextCue {
        start_ms: 1,
        end_ms: 2,
        lines: vec![" Hello ".into(), "   ".into(), "world".into()],
    });
    assert_eq!(cue.lines, vec!["Hello".to_string(), "world".to_string()]);
}

#[test]
fn a_picture_that_is_none_of_the_shapes_is_named() {
    let error = unclassified_picture_refusal("/in/notes.txt");
    assert!(error.starts_with("/in/notes.txt is not a picture the encoder can read"));
    assert!(error.contains("a directory of J2K codestreams (j2c, j2k)"));
}

#[test]
fn the_api_answers_follow_the_queue() {
    let config = ApiConfig::default();
    assert_eq!(bind_address(&config), "127.0.0.1:8081");
    assert!(is_health_path("/health"));
    assert!(!is_health_path("/api/v1/jobs"));
    assert_eq!(submit_response(true, Ok(3)).0, 503);
    assert_eq!(
        submit_response(false, Ok(3)),
        (202, "{\"id\":3,\"status\":\"queued\"}".to_string())
    );
    assert_eq!(cancel_response(false).0, 404);
    assert_eq!(
        metrics_text(1, 2, 3, 4),
        "# HELP imfwizard_jobs_total Total jobs by state\n# TYPE imfwizard_jobs_total gauge\nimfwizard_jobs_total{state=\"queued\"} 1\nimfwizard_jobs_total{state=\"running\"} 2\nimfwizard_jobs_total{state=\"completed\"} 3\nimfwizard_jobs_total{state=\"failed\"} 4\n"
    );
    assert_eq!(
        destination_names(),
        ["L", "R", "C", "LFE", "Ls", "Rs", "Lrs", "Rrs"]
    );
}
