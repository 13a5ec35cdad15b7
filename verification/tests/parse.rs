use upf::model::UPFData;

const SAMPLE: &str = r#"
<UPF version="2.0.1">
    <PP_HEADER element="Si" zp="4">
        <INFO>Some nested data</INFO>
    </PP_HEADER>
    <PP_R>
        0.0 1.1 2.2
    </PP_R>
</UPF>
        "#;

#[test]
fn test_parse_upf() {
    let upf_data = UPFData::parse(SAMPLE).unwrap();

    // Check version
    assert_eq!(upf_data.version, "2.0.1");

    // Check PP_HEADER
    let header = upf_data.field("PP_HEADER").unwrap();
    assert_eq!(header.attribute("element").unwrap(), "Si");
    assert_eq!(header.attribute("zp").unwrap(), "4");

    // Check nested subfield INFO
    let info_blocks = header.children("INFO").unwrap();
    assert_eq!(info_blocks[0].raw_content.trim(), "Some nested data");

    // Check PP_R
    let pp_r = upf_data.field("PP_R").unwrap();
    assert_eq!(pp_r.raw_content.trim(), "0.0 1.1 2.2");
}

#[test]
fn sample_has_exactly_the_described_shape() {
    let data = UPFData::parse(SAMPLE).unwrap();
    assert_eq!(data.fields.len(), 2);
    let header = data.field("PP_HEADER").unwrap();
    assert_eq!(header.attributes.len(), 2);
    assert_eq!(header.raw_content, "");
    assert_eq!(header.sub_blocks.len(), 1);
    let info = header.children("INFO").unwrap();
    assert_eq!(info.len(), 1);
    assert_eq!(info[0].raw_content, "Some nested data");
    assert!(info[0].attributes.is_empty());
    assert!(info[0].sub_blocks.is_empty());
    let r = data.field("PP_R").unwrap();
    assert_eq!(r.raw_content, "0.0 1.1 2.2");
    assert!(r.attributes.is_empty());
    assert!(data.field("UPF").is_none());
    assert!(data.field("INFO").is_none());
}

#[test]
fn version_is_empty_without_the_attribute() {
    let data = UPFData::parse("<UPF><A>1</A></UPF>").unwrap();
    assert_eq!(data.version, "");
    assert_eq!(data.field("A").unwrap().raw_content, "1");
}

#[test]
fn other_root_attributes_are_dropped() {
    let data = UPFData::parse(r#"<UPF kind="x" version="7"><A/></UPF>"#).unwrap();
    assert_eq!(data.version, "7");
    assert_eq!(data.fields.len(), 1);
    assert!(data.field("A").unwrap().attributes.is_empty());
}

#[test]
fn a_root_of_another_name_is_an_ordinary_field() {
    let data = UPFData::parse(r#"<DOC version="3"><A>x</A></DOC>"#).unwrap();
    assert_eq!(data.version, "");
    let doc = data.field("DOC").unwrap();
    assert_eq!(doc.attribute("version").unwrap(), "3");
    assert_eq!(doc.children("A").unwrap()[0].raw_content, "x");
}

#[test]
fn leaf_text_is_trimmed() {
    let data = UPFData::parse("<UPF><PP_R>  0.0 1.1 2.2  </PP_R></UPF>").unwrap();
    assert_eq!(data.field("PP_R").unwrap().raw_content, "0.0 1.1 2.2");
}

#[test]
fn nested_siblings_keep_their_number_and_order() {
    let text = "<UPF><P><INFO>a</INFO><X>x</X><INFO>b</INFO><INFO>c</INFO></P></UPF>";
    let data = UPFData::parse(text).unwrap();
    let parent = data.field("P").unwrap();
    let info = parent.children("INFO").unwrap();
    assert_eq!(info.len(), 3);
    assert_eq!(info[0].raw_content, "a");
    assert_eq!(info[1].raw_content, "b");
    assert_eq!(info[2].raw_content, "c");
    assert_eq!(parent.children("X").unwrap().len(), 1);
    assert_eq!(parent.sub_blocks.len(), 2);
    assert!(parent.children("Y").is_none());
}

#[test]
fn top_level_siblings_keep_only_the_last() {
    let text = r#"<UPF><F n="1">a</F><G/><F n="2">b</F><F n="3">c</F></UPF>"#;
    let data = UPFData::parse(text).unwrap();
    assert_eq!(data.fields.len(), 2);
    let f = data.field("F").unwrap();
    assert_eq!(f.raw_content, "c");
    assert_eq!(f.attribute("n").unwrap(), "3");
    assert_eq!(data.fields.iter().filter(|(name, _)| name == "F").count(), 1);
}

#[test]
fn unclosed_element_is_an_error() {
    assert!(UPFData::parse("<UPF><A>text</UPF>").is_err());
    assert!(UPFData::parse("<UPF><A>text").is_err());
    assert!(UPFData::parse("<UPF><A>").is_err());
}

#[test]
fn mismatched_close_is_an_error() {
    assert!(UPFData::parse("<UPF><A></B></UPF>").is_err());
}

#[test]
fn empty_input_is_an_error() {
    assert!(UPFData::parse("").is_err());
}

#[test]
fn element_without_text_or_children_is_empty() {
    let data = UPFData::parse(r#"<UPF><E k="v"></E><S/></UPF>"#).unwrap();
    let e = data.field("E").unwrap();
    assert_eq!(e.raw_content, "");
    assert!(e.sub_blocks.is_empty());
    assert_eq!(e.attribute("k").unwrap(), "v");
    let s = data.field("S").unwrap();
    assert_eq!(s.raw_content, "");
    assert!(s.sub_blocks.is_empty());
    assert!(s.attributes.is_empty());
}

#[test]
fn text_after_a_child_replaces_text_before_it() {
    let data = UPFData::parse("<UPF><A>first<B>inner</B>second</A></UPF>").unwrap();
    let a = data.field("A").unwrap();
    assert_eq!(a.raw_content, "second");
    assert_eq!(a.children("B").unwrap()[0].raw_content, "inner");
}

#[test]
fn text_before_a_child_stays_when_none_follows() {
    let data = UPFData::parse("<UPF><A> first <B>inner</B></A></UPF>").unwrap();
    assert_eq!(data.field("A").unwrap().raw_content, "first");
}

#[test]
fn text_directly_under_the_root_is_dropped() {
    let data = UPFData::parse("<UPF>loose<A>kept</A>more</UPF>").unwrap();
    assert_eq!(data.fields.len(), 1);
    assert_eq!(data.field("A").unwrap().raw_content, "kept");
}

#[test]
fn tags_are_taken_by_their_local_name() {
    let text = r#"<UPF xmlns:p="urn:p"><p:A p:k="v">t</p:A></UPF>"#;
    let data = UPFData::parse(text).unwrap();
    let a = data.field("A").unwrap();
    assert_eq!(a.raw_content, "t");
    assert_eq!(a.attribute("k").unwrap(), "v");
}

#[test]
fn parse_error_keeps_what_the_tokenizer_said() {
    let err = UPFData::parse("<UPF><A></B></UPF>").unwrap_err();
    assert!(!format!("{:?}", err).is_empty());
    assert!(!err.source.to_string().is_empty());
}

#[test]
fn tokenizer_error_is_handed_on_unchanged() {
    let error = xml::reader::EventReader::from_str("<UPF><A>").into_iter().find_map(|e| e.err()).unwrap();
    let outcome = upf::reader::document_of(Err(error.clone()));
    assert_eq!(outcome.unwrap_err().source, error);
    let parsed = UPFData::parse("<UPF><A>").unwrap_err();
    assert_eq!(parsed.source, error);
}

#[test]
fn document_of_events_is_their_build() {
    let events = vec![
        upf::event::Event::Open { tag: "A".to_string(), attributes: vec![] },
        upf::event::Event::Text { content: " x ".to_string() },
        upf::event::Event::Close { tag: "A".to_string() },
    ];
    let data = upf::reader::document_of(Ok(events)).unwrap();
    assert_eq!(data.field("A").unwrap().raw_content, "x");
}
