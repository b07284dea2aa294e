use imfwizard_core::duration_spec::parse_duration_frames;
use imfwizard_core::export_frames::ExportFormat;
use imfwizard_core::imp::validate_language;
use imfwizard_core::mxf_wrap::{base64_digest_from_hex, validate_app2e_picture};
use imfwizard_core::partial_version::referenced_track_files;
use imfwizard_core::photon::parse_photon_output;
use imfwizard_core::scc::{parse_scc, parse_timecode};
use imfwizard_core::source_colourspace::parse;
use imfwizard_core::source_picture::{parse_flip, parse_raster, parse_rotation, Rotation};
use imfwizard_core::still::is_still_image;
use imfwizard_core::subtitle_convert::{format_ttml_time, ttml_document, SrtCue};
use imfwizard_core::trailer::{
    band_from_name, band_names, rating_system_from_name, rating_system_names, RatingSystem,
    TrailerBand,
};

#[test]
fn frames_and_seconds_both_land_on_a_frame_count() {
    assert_eq!(parse_duration_frames("48f", 24, 1).unwrap(), 48);
    assert_eq!(parse_duration_frames("2s", 24, 1).unwrap(), 48);
    assert_eq!(parse_duration_frames("2s", 25, 1).unwrap(), 50);
    assert_eq!(parse_duration_frames("0f", 24, 1).unwrap(), 0);
}

#[test]
fn fractional_seconds_round_to_the_nearest_frame() {
    assert_eq!(parse_duration_frames("0.5s", 24, 1).unwrap(), 12);
    assert_eq!(parse_duration_frames("1s", 24000, 1001).unwrap(), 24);
}

#[test]
fn a_missing_or_unknown_unit_is_refused() {
    for spec in ["48", "", "2x", "2 s", "f", "-1s", "1.5f"] {
        let error = parse_duration_frames(spec, 24, 1).unwrap_err();
        assert!(error.contains("48f"), "{spec} gave {error}");
    }
}

#[test]
fn format_flag_parsing() {
    assert_eq!(ExportFormat::from_flag("tiff").unwrap(), ExportFormat::Tiff);
    assert_eq!(ExportFormat::from_flag("TIF").unwrap(), ExportFormat::Tiff);
    assert_eq!(ExportFormat::from_flag("png").unwrap(), ExportFormat::Png);
    assert!(ExportFormat::from_flag("dpx").unwrap_err().contains("dpx"));
    assert!(ExportFormat::from_flag("gif").is_err());
}

#[test]
fn an_unknown_format_flag_is_named_lower_cased() {
    assert_eq!(
        ExportFormat::from_flag("GIF").unwrap_err(),
        "unknown format 'gif'; use tiff or png"
    );
    assert_eq!(ExportFormat::Tiff.ext(), "tif");
    assert_eq!(ExportFormat::Png.ext(), "png");
}

#[test]
fn test_validate_language() {
    assert!(validate_language("de-DE").is_ok());
    assert!(validate_language("en").is_ok());
    assert!(validate_language("zh-Hans-CN").is_ok());
    assert!(validate_language("").is_err());
    assert!(validate_language("de_DE").is_err());
    assert!(validate_language("-de").is_err());
    assert!(validate_language("123").is_err());
}

#[test]
fn app2e_picture_constraints_reject_invalid_essence() {
    assert!(validate_app2e_picture(1920, 1080, 12).is_ok());
    assert!(validate_app2e_picture(2048, 872, 12).is_err());
    assert!(validate_app2e_picture(2048, 1080, 16).is_err());
}

#[test]
fn hex_digest_becomes_base64() {
    assert_eq!(
        base64_digest_from_hex("37a15bc80b0243dde57f7469865579a5700c472c").unwrap(),
        "N6FbyAsCQ93lf3RphlV5pXAMRyw="
    );
}

#[test]
fn already_base64_is_rejected_not_re_encoded() {
    assert!(base64_digest_from_hex("N6FbyAsCQ93lf3RphlV5pXAMRyw=").is_err());
}

#[test]
fn non_hex_of_the_right_length_is_rejected() {
    assert!(base64_digest_from_hex(&"z".repeat(40)).is_err());
}

#[test]
fn a_track_file_named_by_two_resources_is_listed_once() {
    let cpl = "<Resource><TrackFileId>urn:uuid:aaa</TrackFileId></Resource>\
               <Resource><TrackFileId>urn:uuid:aaa</TrackFileId></Resource>\
               <Resource><TrackFileId>urn:uuid:bbb</TrackFileId></Resource>";
    assert_eq!(referenced_track_files(cpl), ["aaa", "bbb"]);
}

const PHOTON_SAMPLE: &str = "\
12:00:01.100 [main] INFO  c.n.imflibrary.app.IMPAnalyzer - CPL_8b8c.xml has 0 errors and 0 warnings
12:00:01.200 [main] INFO  c.n.imflibrary.app.IMPAnalyzer - PKL_1f2a.xml has 0 errors and 0 warnings
12:00:01.300 [main] INFO  c.n.imflibrary.app.IMPAnalyzer - ASSETMAP.xml has no errors or warnings
12:00:02.000 [main] INFO  c.n.imflibrary.app.IMPAnalyzer - VIDEO_c918.mxf has 2 errors and 1 warnings
12:00:02.100 [main] INFO  c.n.imflibrary.app.IMPAnalyzer - CPL_8b8c.xml Virtual Track Conformance has 1 errors and 0 warnings
12:00:02.200 [main] ERROR c.n.imflibrary.app.IMPAnalyzer - \t\tERROR-IMF_CORE_CONSTRAINTS: something is wrong";

#[test]
fn parses_error_and_warning_counts() {
    let r = parse_photon_output(PHOTON_SAMPLE);
    assert_eq!(r.errors.len(), 2);
    assert_eq!(r.warnings.len(), 1);
    assert!(r
        .errors
        .iter()
        .any(|e| e.contains("VIDEO_c918.mxf") && e.contains("2 error")));
    assert!(r
        .errors
        .iter()
        .any(|e| e.contains("Virtual Track Conformance")));
    assert!(r.warnings[0].contains("VIDEO_c918.mxf"));
}

#[test]
fn clean_package_yields_no_findings() {
    let clean = "10:00:00.000 [main] INFO x - CPL_a.xml has 0 errors and 0 warnings\n\
                 10:00:00.001 [main] INFO x - ASSETMAP.xml has no errors or warnings";
    let r = parse_photon_output(clean);
    assert!(r.errors.is_empty());
    assert!(r.warnings.is_empty());
}

#[test]
fn a_space_postkit_cannot_transform_is_not_a_spelling() {
    for value in ["rec601", "rec1886", "sgamut3", ""] {
        assert!(parse(value).is_err(), "{value} should not parse");
    }
}

#[test]
fn test_format_ttml_time() {
    assert_eq!(format_ttml_time(3_723_456), "01:02:03.456");
}

#[test]
fn a_plain_ttml_document_carries_each_cue() {
    let cues = vec![
        SrtCue {
            index: 1,
            start_ms: 1000,
            end_ms: 4000,
            text: "Hello world".to_string(),
        },
        SrtCue {
            index: 2,
            start_ms: 5000,
            end_ms: 8000,
            text: "Second cue".to_string(),
        },
    ];
    let ttml = ttml_document(&cues);
    assert!(ttml.contains(r#"<p begin="00:00:01.000" end="00:00:04.000">Hello world</p>"#));
    assert!(ttml.contains("Second cue"));
}

#[test]
fn parse_timecode_nondrop_2997() {
    assert_eq!(parse_timecode("00:00:01:00").unwrap(), 1001);
    assert_eq!(parse_timecode("00:00:03:00").unwrap(), 3003);
}

#[test]
fn a_drop_frame_timecode_skips_two_frames_a_minute() {
    // 00:01:00;02 is frame 1800 in drop-frame counting: 1802 less the two dropped
    assert_eq!(parse_timecode("00:01:00;02").unwrap(), 1800 * 1001 / 30);
    assert_eq!(
        parse_timecode("00:00:01").unwrap_err(),
        "invalid SCC timecode: 00:00:01"
    );
    assert!(parse_timecode("99999999999999999999:00:00:00").is_err());
}

#[test]
fn popon_caption_decodes() {
    let scc = "Scenarist_SCC V1.0\n\n\
00:00:01:00\t9420 9420 942e 942e 9470 9470 4845 4c4c 4f80 942f 942f\n\n\
00:00:03:00\t942c 942c\n";
    let cues = parse_scc(scc).unwrap();
    assert_eq!(cues.len(), 1);
    assert_eq!(cues[0].text, "HELLO");
    assert_eq!(cues[0].start_ms, 1001);
    assert_eq!(cues[0].end_ms, 3003);
}

#[test]
fn two_row_caption_joins_with_newline() {
    let scc = "Scenarist_SCC V1.0\n\n\
00:00:01:00\t9420 9420 9440 9440 4849 9470 9470 594f 5580 942f 942f\n\n\
00:00:04:00\t942c 942c\n";
    let cues = parse_scc(scc).unwrap();
    assert_eq!(cues.len(), 1);
    assert_eq!(cues[0].text, "HI\nYOU");
}

#[test]
fn rollup_fails_loud() {
    let scc = "Scenarist_SCC V1.0\n\n00:00:01:00\t9425 9425\n";
    let err = parse_scc(scc).unwrap_err();
    assert!(err.contains("roll-up"), "got: {err}");
}

#[test]
fn a_caption_left_on_screen_holds_two_seconds_and_words_must_be_hex() {
    let scc = "00:00:01:00\t9420 9420 4849 942f 942f\n";
    let cues = parse_scc(scc).unwrap();
    assert_eq!(cues.len(), 1);
    assert_eq!(cues[0].index, 1);
    assert_eq!(cues[0].start_ms, 1001);
    assert_eq!(cues[0].end_ms, 3001);
    assert_eq!(
        parse_scc("00:00:01:00\tzz20\n").unwrap_err(),
        "invalid SCC hex word: zz20"
    );
}

#[test]
fn the_rotation_and_flip_spellings_are_the_ones_the_help_names() {
    assert_eq!(parse_rotation("90"), Ok(Rotation::Clockwise90));
    assert_eq!(parse_rotation("180"), Ok(Rotation::Half));
    assert_eq!(parse_rotation("270"), Ok(Rotation::CounterClockwise90));
    assert!(parse_rotation("45").unwrap_err().contains("45"));

    assert_eq!(parse_flip("horizontal"), Ok((true, false)));
    assert_eq!(parse_flip("Vertical"), Ok((false, true)));
    assert_eq!(parse_flip("both"), Ok((true, true)));
    assert!(parse_flip("sideways").unwrap_err().contains("sideways"));
}

#[test]
fn a_raster_spelling_has_to_be_one_app_2e_allows() {
    for raster in [(1920, 1080), (2048, 1080), (3840, 2160), (4096, 2160)] {
        assert_eq!(
            parse_raster(&format!("{}x{}", raster.0, raster.1)),
            Ok(raster)
        );
    }
    assert!(parse_raster("1920").is_err());
    assert!(parse_raster("1920x").is_err());
    assert_eq!(
        parse_raster("1998x1080").unwrap_err(),
        "raster 1998x1080 is not one App 2E allows: pick 1920x1080, 2048x1080, 3840x2160 or 4096x2160"
    );
}

#[test]
fn every_named_rating_system_and_band_parses() {
    assert_eq!(
        rating_system_from_name("BBFC").unwrap(),
        RatingSystem::Bbfc,
        "the selector is case insensitive"
    );
    for name in ["mpaa", "bbfc", "fsk", "custom"] {
        rating_system_from_name(name).unwrap();
    }
    for name in ["green", "red", "yellow"] {
        band_from_name(name).unwrap();
    }
    assert_eq!(band_from_name("Red").unwrap(), TrailerBand::Red);
}

#[test]
fn an_unknown_selector_names_the_ones_that_work() {
    let error = rating_system_from_name("bbfg").unwrap_err();
    assert!(error.contains("bbfg") && error.contains("bbfc"), "{error}");
    let error = band_from_name("blue").unwrap_err();
    assert!(error.contains("blue") && error.contains("green"), "{error}");
    assert_eq!(rating_system_names(), "mpaa, bbfc, fsk, custom");
    assert_eq!(band_names(), "green, red, yellow");
}

#[test]
fn image_files_are_stills_and_videos_are_not() {
    assert!(is_still_image(true, Some("png")));
    assert!(is_still_image(true, Some("TIFF")));
    assert!(is_still_image(true, Some("exr")));
    assert!(!is_still_image(true, Some("mov")));
    assert!(!is_still_image(true, None));
    assert!(!is_still_image(false, Some("png")));
}

#[test]
fn any_finite_seconds_give_a_frame_count_capped_at_the_largest() {
    assert_eq!(parse_duration_frames("1e300s", 24, 1), Ok(u64::MAX));
    assert_eq!(parse_duration_frames("123456789012345678901234567890s", 24, 1), Ok(u64::MAX));
    assert_eq!(parse_duration_frames("1.7976931348623157e308s", 24, 1), Ok(u64::MAX));
    assert_eq!(
        parse_duration_frames("2.000000000000000000000000000000000001s", 24, 1),
        Ok(48)
    );
    assert_eq!(parse_duration_frames("0.0000000000000000000000000000000000000001s", 24, 1), Ok(0));
    assert_eq!(parse_duration_frames("0.50000000000000000000000000000001s", 24, 1), Ok(12));
}

#[test]
fn seconds_an_f64_reads_as_infinity_are_refused() {
    assert!(parse_duration_frames("1.8e308s", 24, 1).is_err());
    assert!(parse_duration_frames("1e400s", 24, 1).is_err());
    // the least decimal an f64 reads as infinity starts 1.79769313486231580793...e308
    assert!(parse_duration_frames("1.7976931348623159e308s", 24, 1).is_err());
    assert_eq!(parse_duration_frames("1.7976931348623158e308s", 24, 1), Ok(u64::MAX));
}

#[test]
fn two_outputs_joined_report_their_findings_in_turn() {
    let a = "x - VIDEO_c918.mxf has 2 errors and 1 warnings\nnoise";
    let b = "y - AUDIO_77.mxf has 0 errors and 3 warnings\nz - CPL.xml has 4 errors and 0 warnings";
    let joined = parse_photon_output(&format!("{a}\n{b}"));
    let ra = parse_photon_output(a);
    let rb = parse_photon_output(b);
    assert_eq!(joined.errors, [ra.errors.clone(), rb.errors.clone()].concat());
    assert_eq!(joined.warnings, [ra.warnings.clone(), rb.warnings.clone()].concat());
    assert_eq!(
        joined.errors,
        vec![
            "Photon: VIDEO_c918.mxf: 2 error(s)".to_string(),
            "Photon: CPL.xml: 4 error(s)".to_string()
        ]
    );
    assert_eq!(joined.warnings.len(), 2);
    let a = "x - A.mxf has 1 errors and 0 warnings\r";
    let joined = parse_photon_output(&format!("{a}\n{b}"));
    let ra = parse_photon_output(a);
    assert_eq!(joined.errors, [ra.errors.clone(), rb.errors.clone()].concat());
    assert_eq!(joined.errors[0], "Photon: A.mxf: 1 error(s)");
}
