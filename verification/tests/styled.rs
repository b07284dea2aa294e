use imfwizard_core::styled_ttml::{
    region_attrs, render_runs, styled_ttml_document, HAlign, StyledCue, StyledRun, VAlign,
};

fn plain(text: &str) -> StyledRun {
    StyledRun { text: text.to_string(), italic: false, bold: false, underline: false, color: None }
}

fn cue(start_ms: u64, end_ms: u64, runs: Vec<StyledRun>) -> StyledCue {
    StyledCue { start_ms, end_ms, runs, align: None, valign: None, vposition: None }
}

#[test]
fn cues_sharing_a_placement_share_one_region() {
    let mut third = cue(3000, 4000, vec![plain("three")]);
    third.vposition = Some("12.5".to_string());
    third.align = Some(HAlign::Left);
    let cues = vec![cue(0, 1000, vec![plain("one")]), cue(1000, 2000, vec![plain("two")]), third];
    let doc = styled_ttml_document(&cues);
    let expected = [
        "<?xml version=\"1.0\" encoding=\"UTF-8\"?>",
        "<tt xmlns=\"http://www.w3.org/ns/ttml\" xmlns:tts=\"http://www.w3.org/ns/ttml#styling\" xmlns:ttp=\"http://www.w3.org/ns/ttml#parameter\">",
        "  <head>",
        "    <layout>",
        "      <region xml:id=\"r0\" tts:origin=\"10% 10%\" tts:extent=\"80% 80%\" tts:textAlign=\"center\" tts:displayAlign=\"after\"/>",
        "      <region xml:id=\"r1\" tts:origin=\"10% 12.5%\" tts:extent=\"80% 15%\" tts:textAlign=\"start\" tts:displayAlign=\"before\"/>",
        "    </layout>",
        "  </head>",
        "  <body>",
        "    <div>",
        "      <p begin=\"00:00:00.000\" end=\"00:00:01.000\" region=\"r0\">one</p>",
        "      <p begin=\"00:00:01.000\" end=\"00:00:02.000\" region=\"r0\">two</p>",
        "      <p begin=\"00:00:03.000\" end=\"00:00:04.000\" region=\"r1\">three</p>",
        "    </div>",
        "  </body>",
        "</tt>",
        "",
    ]
    .join("\n");
    assert_eq!(doc, expected);
}

#[test]
fn no_cues_give_an_empty_layout_and_body() {
    let doc = styled_ttml_document(&Vec::new());
    assert!(doc.contains("<layout>\n    </layout>"));
    assert!(doc.contains("<div>\n    </div>"));
}

#[test]
fn vertical_alignment_picks_the_display_alignment() {
    let mut c = cue(0, 1, vec![]);
    c.valign = Some(VAlign::Top);
    c.align = Some(HAlign::Right);
    let a: String = region_attrs(&c).into_iter().collect();
    assert_eq!(
        a,
        "tts:origin=\"10% 10%\" tts:extent=\"80% 80%\" tts:textAlign=\"end\" tts:displayAlign=\"before\""
    );
    c.valign = Some(VAlign::Middle);
    let a: String = region_attrs(&c).into_iter().collect();
    assert!(a.ends_with("tts:displayAlign=\"center\""));
}

#[test]
fn styled_runs_become_spans_and_breaks() {
    let styled = StyledRun {
        text: "a\nb".to_string(),
        italic: true,
        bold: true,
        underline: false,
        color: Some((255, 0, 10, 128)),
    };
    let r: String = render_runs(&vec![plain("x "), styled]).into_iter().collect();
    assert_eq!(
        r,
        "x <span tts:fontStyle=\"italic\" tts:fontWeight=\"bold\" tts:color=\"#FF000A80\">a<br/>b</span>"
    );
}
