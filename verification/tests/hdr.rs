use imfwizard_core::hdr_source::{check_source_matches_preset, classify, classify_stream, SourceHdr};
use imfwizard_core::hdr_wcg::{
    color_primaries_bt2020, color_primaries_p3d65, parse_mastering_display,
    transfer_characteristic_hlg, transfer_characteristic_st2084, HdrWcg,
};

#[test]
fn an_hdr_source_without_a_preset_names_the_preset_to_pass() {
    let error = check_source_matches_preset(SourceHdr::Hlg, None).unwrap_err();
    assert!(error.contains("hlg-bt2020"), "{error}");
    assert!(error.contains("Rec.709 SDR"), "{error}");

    let error = check_source_matches_preset(SourceHdr::Pq, None).unwrap_err();
    assert!(error.contains("pq-bt2020 or pq-p3d65"), "{error}");

    let error = check_source_matches_preset(SourceHdr::DolbyVision, None).unwrap_err();
    assert!(error.contains("Dolby Vision RPU"), "{error}");
    assert!(error.contains("the HDR panel control in the GUI"), "{error}");
}

#[test]
fn an_untagged_or_sdr_source_is_left_to_the_preset() {
    for source in [SourceHdr::Untagged, SourceHdr::Sdr] {
        assert_eq!(check_source_matches_preset(source, None), Ok(()));
        for preset in ["pq-bt2020", "hlg-bt2020"] {
            let hdr = HdrWcg::from_flags(preset, None).unwrap();
            assert_eq!(check_source_matches_preset(source, Some(&hdr)), Ok(()));
        }
    }
}

#[test]
fn a_transfer_the_preset_contradicts_is_refused_naming_both() {
    let hlg = HdrWcg::from_flags("hlg-bt2020", None).unwrap();
    let error = check_source_matches_preset(SourceHdr::Pq, Some(&hlg)).unwrap_err();
    assert!(error.contains("smpte2084"), "{error}");
    assert!(error.contains("hlg-bt2020"), "{error}");
    assert!(error.contains("pq-bt2020 or pq-p3d65"), "{error}");

    for preset in ["pq-bt2020", "pq-p3d65"] {
        let pq = HdrWcg::from_flags(preset, None).unwrap();
        let error = check_source_matches_preset(SourceHdr::Hlg, Some(&pq)).unwrap_err();
        assert!(error.contains("arib-std-b67"), "{error}");
        assert!(error.contains(preset), "{error}");
        assert!(error.contains("hlg-bt2020"), "{error}");
    }
}

#[test]
fn dolby_vision_agrees_with_a_pq_preset_only() {
    let pq = HdrWcg::from_flags("pq-bt2020", None).unwrap();
    assert_eq!(
        check_source_matches_preset(SourceHdr::DolbyVision, Some(&pq)),
        Ok(())
    );
    let hlg = HdrWcg::from_flags("hlg-bt2020", None).unwrap();
    let error = check_source_matches_preset(SourceHdr::DolbyVision, Some(&hlg)).unwrap_err();
    assert!(error.contains("Dolby Vision"), "{error}");
}

#[test]
fn the_transfer_tag_and_side_data_classify_a_stream() {
    let none: Vec<Option<String>> = Vec::new();
    assert_eq!(classify_stream(&none, Some("smpte2084")), SourceHdr::Pq);
    assert_eq!(classify_stream(&none, Some("arib-std-b67")), SourceHdr::Hlg);
    assert_eq!(classify_stream(&none, Some("bt709")), SourceHdr::Sdr);
    assert_eq!(classify_stream(&none, None), SourceHdr::Untagged);
    let dovi = vec![None, Some("DOVI configuration record".to_string())];
    assert_eq!(
        classify_stream(&dovi, Some("smpte2084")),
        SourceHdr::DolbyVision
    );
    let other = vec![Some("Mastering display metadata".to_string())];
    assert_eq!(classify_stream(&other, Some("smpte2084")), SourceHdr::Pq);
}

fn stream_json(fields: &str) -> String {
    format!("{{\"streams\":[{{{fields}}}]}}")
}

#[test]
fn transfer_tags_classify_the_source() {
    assert_eq!(
        classify(&stream_json("\"color_transfer\":\"smpte2084\"")),
        SourceHdr::Pq
    );
    assert_eq!(
        classify(&stream_json("\"color_transfer\":\"arib-std-b67\"")),
        SourceHdr::Hlg
    );
    assert_eq!(
        classify(&stream_json("\"color_transfer\":\"bt709\"")),
        SourceHdr::Sdr
    );
    // ffprobe leaves the key out for an untagged stream
    assert_eq!(
        classify(&stream_json("\"width\":1920")),
        SourceHdr::Untagged
    );
    assert_eq!(
        classify(&stream_json(
            "\"side_data_list\":[{\"side_data_type\":\"DOVI configuration record\",\
             \"dv_profile\":8}],\"color_transfer\":\"smpte2084\""
        )),
        SourceHdr::DolbyVision
    );
}

#[test]
fn output_that_is_not_json_reads_as_untagged() {
    assert_eq!(classify("ffprobe: not json"), SourceHdr::Untagged);
}

#[test]
fn preset_pq_bt2020_sets_st2084_and_bt2020() {
    let h = HdrWcg::from_flags("pq-bt2020", None).unwrap();
    assert_eq!(h.transfer, transfer_characteristic_st2084());
    assert_eq!(h.color_primaries, color_primaries_bt2020());
    assert!(h.mastering.is_none());
}

#[test]
fn preset_pq_p3d65_sets_p3d65_primaries() {
    let h = HdrWcg::from_flags("pq-p3d65", None).unwrap();
    assert_eq!(h.color_primaries, color_primaries_p3d65());
}

#[test]
fn preset_hlg_bt2020_sets_the_hlg_transfer_and_bt2020() {
    let h = HdrWcg::from_flags("hlg-bt2020", None).unwrap();
    assert_eq!(h.transfer, transfer_characteristic_hlg());
    assert_eq!(h.color_primaries, color_primaries_bt2020());
    assert!(h.is_hlg());
    assert_eq!(h.preset_name(), "hlg-bt2020");
}

#[test]
fn content_light_levels_are_refused_on_hlg() {
    let hlg = HdrWcg::from_flags("hlg-bt2020", None).unwrap();
    let error = hlg
        .clone()
        .with_content_light_levels(Some(993), None)
        .unwrap_err();
    assert!(error.contains("--max-cll"), "{error}");
    assert!(!error.contains("--max-fall"), "{error}");
    assert!(error.contains("COLOR.8"), "{error}");

    let error = hlg
        .clone()
        .with_content_light_levels(Some(993), Some(362))
        .unwrap_err();
    assert!(error.contains("--max-cll and --max-fall"), "{error}");

    assert!(hlg.with_content_light_levels(None, None).is_ok());
}

#[test]
fn unknown_preset_names_every_preset() {
    let error = HdrWcg::from_flags("hlg-p3d65", None).unwrap_err();
    assert!(error.contains("'hlg-p3d65'"), "{error}");
    assert!(error.contains("pq-bt2020, pq-p3d65, hlg-bt2020"), "{error}");
}

#[test]
fn master_display_parses_regardless_of_order() {
    let md = parse_mastering_display(
        "G(13250,34500)B(7500,3000)R(34000,16000)WP(15635,16450)L(40000000,50)",
    )
    .unwrap();
    assert_eq!(md.primaries[0], [34000, 16000]);
    assert_eq!(md.primaries[1], [13250, 34500]);
    assert_eq!(md.primaries[2], [7500, 3000]);
    assert_eq!(md.white_point, [15635, 16450]);
    assert_eq!(md.max_luminance, 40000000);
    assert_eq!(md.min_luminance, 50);
}

#[test]
fn master_display_rejects_missing_component() {
    let err = parse_mastering_display("R(34000,16000)G(13250,34500)B(7500,3000)WP(15635,16450)")
        .unwrap_err();
    assert!(err.contains("L luminance"), "got: {err}");
}

#[test]
fn a_preset_with_content_light_levels_keeps_them() {
    let pq = HdrWcg::from_flags("pq-bt2020", None)
        .unwrap()
        .with_content_light_levels(Some(1000), Some(400))
        .unwrap();
    assert_eq!(pq.max_cll, Some(1000));
    assert_eq!(pq.max_fall, Some(400));
    assert_eq!(pq.preset_name(), "pq-bt2020");
    assert!(!pq.is_hlg());
}

#[test]
fn a_primary_beyond_u16_is_a_bad_number() {
    let err = parse_mastering_display(
        "R(70000,16000)G(13250,34500)B(7500,3000)WP(15635,16450)L(40000000,50)",
    )
    .unwrap_err();
    assert_eq!(err, "bad number '70000' in 'R(...)'");
    let err = parse_mastering_display(
        "R(34000,16000)G(13250,34500)B(7500,3000)WP(15635,65536)L(40000000,50)",
    )
    .unwrap_err();
    assert_eq!(err, "bad number '65536' in 'WP(...)'");
    let md = parse_mastering_display(
        "R(65535,16000)G(13250,34500)B(7500,3000)WP(15635,16450)L(4000000000,50)",
    )
    .unwrap();
    assert_eq!(md.primaries[0], [65535, 16000]);
    assert_eq!(md.max_luminance, 4000000000);
}

#[test]
fn component_order_does_not_change_the_master_display() {
    let a = parse_mastering_display(
        "G(13250,34500)B(7500,3000)R(34000,16000)WP(15635,16450)L(10000000,1)",
    )
    .unwrap();
    let b = parse_mastering_display(
        "L(10000000,1)WP(15635,16450)R(34000,16000)B(7500,3000)G(13250,34500)",
    )
    .unwrap();
    assert_eq!(a, b);
    assert_eq!(a.primaries, [[34000, 16000], [13250, 34500], [7500, 3000]]);
    assert_eq!(a.white_point, [15635, 16450]);
    assert_eq!(a.max_luminance, 10000000);
    assert_eq!(a.min_luminance, 1);
}
