use imfwizard_core::adm::parse_adm_xml;

// the first text that reads as a number, as the import takes a coordinate
fn coordinate(texts: &[String], default: f32) -> f32 {
    texts.iter().find_map(|t| t.parse::<f32>().ok()).unwrap_or(default)
}

#[test]
fn parse_adm_extracts_beds_and_objects() {
    let xml = r#"<?xml version="1.0"?>
<audioFormatExtended>
  <audioProgramme audioProgrammeName="Main Mix"/>
  <audioChannelFormat audioChannelFormatID="AC_1" audioChannelFormatName="RoomCentricLeft" typeLabel="0001">
    <audioBlockFormat><speakerLabel>RC_L</speakerLabel></audioBlockFormat>
  </audioChannelFormat>
  <audioChannelFormat audioChannelFormatID="AC_9" audioChannelFormatName="Object1" typeLabel="0003">
    <audioBlockFormat><azimuth>30</azimuth><elevation>10</elevation><distance>0.5</distance></audioBlockFormat>
  </audioChannelFormat>
</audioFormatExtended>"#;
    let adm = parse_adm_xml(xml);
    assert_eq!(adm.programme_name, "Main Mix");
    assert_eq!(adm.total_channels, 2);
    assert_eq!(adm.beds.len(), 1);
    assert_eq!(adm.beds[0].speaker_label, "RC_L");
    assert_eq!(adm.objects.len(), 1);
    assert_eq!(coordinate(&adm.objects[0].azimuth, 0.0), 30.0);
    assert_eq!(coordinate(&adm.objects[0].distance, 1.0), 0.5);
}

#[test]
fn parse_adm_empty_is_safe() {
    let adm = parse_adm_xml("");
    assert_eq!(adm.total_channels, 0);
}

#[test]
fn every_channel_format_takes_a_track_and_only_beds_and_objects_are_kept() {
    let xml = r#"<audioFormatExtended>
  <audioChannelFormat audioChannelFormatID="AC_1" audioChannelFormatName="Left" typeLabel="0001">
    <audioBlockFormat><speakerLabel>M+030</speakerLabel><speakerLabel>ignored</speakerLabel></audioBlockFormat>
  </audioChannelFormat>
  <audioChannelFormat audioChannelFormatID="AC_2" audioChannelFormatName="Matrix" typeLabel="0002"/>
  <audioChannelFormat audioChannelFormatID="AC_3" audioChannelFormatName="Matrix2" typeLabel="0002"></audioChannelFormat>
  <audioChannelFormat audioChannelFormatID="AC_4" audioChannelFormatName="Fly" typeLabel="0003">
    <audioBlockFormat><azimuth>left</azimuth><azimuth> -45 </azimuth></audioBlockFormat>
  </audioChannelFormat>
</audioFormatExtended>"#;
    let adm = parse_adm_xml(xml);
    assert_eq!(adm.programme_name, "");
    assert_eq!(adm.total_channels, 3);
    assert_eq!(adm.beds.len(), 1);
    assert_eq!(adm.beds[0].label, "Left");
    assert_eq!(adm.beds[0].speaker_label, "M+030");
    assert_eq!(adm.beds[0].track_index, 0);
    assert_eq!(adm.objects.len(), 1);
    assert_eq!(adm.objects[0].id, "AC_4");
    assert_eq!(adm.objects[0].track_index, 2);
    assert_eq!(adm.objects[0].azimuth, vec!["left".to_string(), "-45".to_string()]);
    assert_eq!(coordinate(&adm.objects[0].azimuth, 0.0), -45.0);
    assert!(adm.objects[0].distance.is_empty());
}

#[test]
fn text_that_is_not_xml_holds_no_channels() {
    let adm = parse_adm_xml("<a><b></a>");
    assert!(adm.beds.is_empty());
}
