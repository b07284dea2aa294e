use imfwizard_core::report::{
    finish_entries, picture_not_scanned_entry, scan_plan, scan_skipped_entry, track_entries,
    ScanCpl, ScanOutcome, ScanTrack,
};
use imfwizard_core::timeline::{CplInfo, SegmentEntry};

fn segment(id: &str, file: &str) -> SegmentEntry {
    SegmentEntry {
        video_track_file_id: id.to_string(),
        video_file: file.to_string(),
        ..Default::default()
    }
}

fn cpl(title: &str, file: &str, segments: Vec<SegmentEntry>) -> ScanCpl {
    ScanCpl {
        info: CplInfo { id: "id".to_string(), file_path: file.to_string(), title: title.to_string() },
        segments,
    }
}

#[test]
fn a_report_without_the_scan_names_the_flag() {
    let entry = picture_not_scanned_entry();
    assert_eq!(entry.severity, "info");
    assert!(entry.details.contains("--scan-picture"));
}

#[test]
fn a_missing_picture_path_is_reported_as_unscanned() {
    let plan = scan_plan(&vec![cpl("My Film", "CPL.xml", vec![segment("urn:uuid:picture-1", "")])]);
    assert_eq!(plan.skipped.len(), 1);
    assert_eq!(plan.skipped[0].severity, "info");
    assert!(plan.skipped[0].message.contains("picture-1 was not scanned"));
    assert!(plan.skipped[0].details.contains("ASSETMAP"));
    assert!(plan.tracks.is_empty());
}

#[test]
fn each_track_is_scanned_once_in_path_order_with_its_compositions() {
    let plan = scan_plan(&vec![
        cpl("Zeta", "a.xml", vec![segment("1", "/imp/b.mxf"), segment("2", "/imp/a.mxf"), segment("", "/x")]),
        cpl("", "CPL_alpha.xml", vec![segment("3", "/imp/b.mxf"), segment("4", "/imp/b.mxf")]),
        cpl("Mid", "m.xml", vec![segment("5", "/imp-x/c.mxf")]),
    ]);
    assert!(plan.skipped.is_empty());
    let paths: Vec<&str> = plan.tracks.iter().map(|t| t.path.as_str()).collect();
    // the separator sorts before '-', as paths compare by component
    assert_eq!(paths, vec!["/imp/a.mxf", "/imp/b.mxf", "/imp-x/c.mxf"]);
    assert_eq!(plan.tracks[1].compositions, vec!["CPL_alpha.xml".to_string(), "Zeta".to_string()]);
    assert_eq!(plan.tracks[0].compositions, vec!["Zeta".to_string()]);
}

#[test]
fn scan_outcomes_become_entries() {
    let track = ScanTrack {
        path: "/imp/VIDEO_x.mxf".to_string(),
        compositions: vec!["A".to_string(), "B".to_string()],
    };
    let pass = track_entries(&track, &ScanOutcome::Findings(Vec::new()));
    assert_eq!(pass.len(), 1);
    assert_eq!(pass[0].severity, "pass");
    assert_eq!(pass[0].message, "A, B: VIDEO_x.mxf has no black or frozen runs");
    let warn = track_entries(
        &track,
        &ScanOutcome::Findings(vec!["black picture 0-24".to_string(), "frozen 30-40".to_string()]),
    );
    assert_eq!(warn.len(), 2);
    assert_eq!(warn[1].severity, "warning");
    assert_eq!(warn[1].message, "A, B: VIDEO_x.mxf: frozen 30-40");
    let enc = track_entries(&track, &ScanOutcome::Encrypted);
    assert_eq!(enc[0].details, "the picture essence is encrypted");
    let bad = track_entries(&track, &ScanOutcome::Unreadable("no essence".to_string()));
    assert_eq!(bad[0].message, "A, B: VIDEO_x.mxf was not scanned");
    let skipped = scan_skipped_entry("A", "t", "why");
    assert_eq!(skipped.message, "A: t was not scanned");
}

#[test]
fn an_empty_scan_says_no_track_was_there() {
    let done = finish_entries(Vec::new());
    assert_eq!(done.len(), 1);
    assert_eq!(done[0].message, "No picture track was available to scan");
    let kept = finish_entries(vec![scan_skipped_entry("A", "t", "why")]);
    assert_eq!(kept.len(), 1);
    assert_eq!(kept[0].severity, "info");
}
