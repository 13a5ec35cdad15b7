use upf::assoc::{position, upsert};
use upf::builder::{build, collect_attributes, Builder};
use upf::event::Event;
use upf::model::{Block, UPFData};

fn open(tag: &str, attributes: &[(&str, &str)]) -> Event {
    Event::Open {
        tag: tag.to_string(),
        attributes: attributes.iter().map(|(k, v)| (k.to_string(), v.to_string())).collect(),
    }
}

fn text(content: &str) -> Event {
    Event::Text { content: content.to_string() }
}

fn close(tag: &str) -> Event {
    Event::Close { tag: tag.to_string() }
}

#[test]
fn build_of_no_events_is_the_empty_document() {
    let data = build(&vec![]);
    assert_eq!(data.version, "");
    assert!(data.fields.is_empty());
}

#[test]
fn default_document_is_empty() {
    let data = UPFData::default();
    assert_eq!(data.version, "");
    assert!(data.fields.is_empty());
}

#[test]
fn build_follows_the_events() {
    let events = vec![
        Event::Other,
        open("UPF", &[("version", "2.0.1")]),
        open("PP_HEADER", &[("element", "Si"), ("zp", "4")]),
        open("INFO", &[]),
        text("Some nested data"),
        close("INFO"),
        close("PP_HEADER"),
        open("PP_R", &[]),
        text("\n    0.0 1.1 2.2\n  "),
        close("PP_R"),
        close("UPF"),
        Event::Other,
    ];
    let data = build(&events);
    assert_eq!(data.version, "2.0.1");
    let header = data.field("PP_HEADER").unwrap();
    assert_eq!(header.attributes.len(), 2);
    assert_eq!(header.attribute("element").unwrap(), "Si");
    assert_eq!(header.attribute("zp").unwrap(), "4");
    assert_eq!(header.children("INFO").unwrap()[0].raw_content, "Some nested data");
    assert_eq!(data.field("PP_R").unwrap().raw_content, "0.0 1.1 2.2");
}

#[test]
fn text_event_is_trimmed_on_both_sides() {
    let data = build(&vec![open("L", &[]), text("  0.0 1.1 2.2  "), close("L")]);
    assert_eq!(data.field("L").unwrap().raw_content, "0.0 1.1 2.2");
}

#[test]
fn whitespace_only_text_becomes_empty() {
    let data = build(&vec![open("L", &[]), text("kept"), text(" \t\n "), close("L")]);
    assert_eq!(data.field("L").unwrap().raw_content, "");
}

#[test]
fn inner_whitespace_is_kept() {
    let data = build(&vec![open("L", &[]), text("\u{a0}a \n b\u{3000}"), close("L")]);
    assert_eq!(data.field("L").unwrap().raw_content, "a \n b");
}

#[test]
fn later_text_overwrites_earlier_text() {
    let data = build(&vec![open("L", &[]), text("one"), text("two"), close("L")]);
    assert_eq!(data.field("L").unwrap().raw_content, "two");
}

#[test]
fn repeated_attribute_takes_the_later_value() {
    let data = build(&vec![open("L", &[("k", "1"), ("j", "x"), ("k", "2")]), close("L")]);
    let l = data.field("L").unwrap();
    assert_eq!(l.attributes.len(), 2);
    assert_eq!(l.attribute("k").unwrap(), "2");
    assert_eq!(l.attribute("j").unwrap(), "x");
    assert!(l.attribute("i").is_none());
}

#[test]
fn collect_attributes_keeps_one_entry_per_name() {
    let pairs = vec![
        ("a".to_string(), "1".to_string()),
        ("b".to_string(), "2".to_string()),
        ("a".to_string(), "3".to_string()),
    ];
    let out = collect_attributes(&pairs);
    assert_eq!(out, vec![("a".to_string(), "3".to_string()), ("b".to_string(), "2".to_string())]);
}

#[test]
fn version_comes_from_the_root_only() {
    let data = build(&vec![
        open("UPF", &[("other", "x")]),
        open("A", &[("version", "9")]),
        close("A"),
        close("UPF"),
    ]);
    assert_eq!(data.version, "");
    assert_eq!(data.field("A").unwrap().attribute("version").unwrap(), "9");
}

#[test]
fn repeated_version_attribute_takes_the_later_value() {
    let data = build(&vec![open("UPF", &[("version", "1"), ("version", "2")]), close("UPF")]);
    assert_eq!(data.version, "2");
}

#[test]
fn stack_is_empty_before_and_after_well_nested_events() {
    let events = vec![
        open("UPF", &[]),
        open("A", &[]),
        open("B", &[]),
        text("t"),
        close("B"),
        open("C", &[]),
        close("C"),
        close("A"),
        close("UPF"),
    ];
    let mut builder = Builder::new();
    assert_eq!(builder.depth(), 0);
    let depths: Vec<usize> = events
        .iter()
        .map(|e| {
            builder.step(e);
            builder.depth()
        })
        .collect();
    assert_eq!(depths, vec![0, 1, 2, 2, 1, 2, 1, 0, 0]);
    let data = builder.finish();
    let a = data.field("A").unwrap();
    assert_eq!(a.children("B").unwrap()[0].raw_content, "t");
    assert_eq!(a.children("C").unwrap().len(), 1);
}

#[test]
fn close_with_nothing_open_changes_nothing() {
    let data = build(&vec![close("A"), open("B", &[]), close("B"), close("B")]);
    assert_eq!(data.fields.len(), 1);
    assert!(data.field("B").is_some());
}

#[test]
fn open_blocks_are_dropped_at_the_end() {
    let data = build(&vec![open("A", &[]), open("B", &[]), close("B")]);
    assert!(data.fields.is_empty());
}

#[test]
fn text_with_nothing_open_is_dropped() {
    let data = build(&vec![text("loose"), open("A", &[]), close("A"), text("more")]);
    assert_eq!(data.fields.len(), 1);
    assert_eq!(data.field("A").unwrap().raw_content, "");
}

#[test]
fn nested_siblings_are_appended_in_order() {
    let mut events = vec![open("P", &[])];
    for i in 0..5 {
        events.push(open("INFO", &[("n", &i.to_string())]));
        events.push(text(&format!(" item {} ", i)));
        events.push(close("INFO"));
    }
    events.push(close("P"));
    let data = build(&events);
    let info = data.field("P").unwrap().children("INFO").unwrap();
    assert_eq!(info.len(), 5);
    for (i, block) in info.iter().enumerate() {
        assert_eq!(block.raw_content, format!("item {}", i));
        assert_eq!(block.attribute("n").unwrap(), &i.to_string());
    }
}

#[test]
fn top_level_siblings_replace_each_other() {
    let mut events = Vec::new();
    for i in 0..4 {
        events.push(open("F", &[]));
        events.push(text(&i.to_string()));
        events.push(close("F"));
    }
    let data = build(&events);
    assert_eq!(data.fields.len(), 1);
    assert_eq!(data.field("F").unwrap().raw_content, "3");
}

#[test]
fn nested_root_tag_is_not_stored() {
    let data = build(&vec![
        open("UPF", &[("version", "1")]),
        open("A", &[]),
        open("UPF", &[("version", "2")]),
        text("inner"),
        close("UPF"),
        close("A"),
        close("UPF"),
    ]);
    assert_eq!(data.version, "2");
    let a = data.field("A").unwrap();
    assert_eq!(a.raw_content, "inner");
    assert!(a.sub_blocks.is_empty());
}

#[test]
fn attach_appends_under_the_tag() {
    let mut parent = Block::new(vec![]);
    let mut first = Block::new(vec![]);
    first.raw_content = "1".to_string();
    let mut second = Block::new(vec![]);
    second.raw_content = "2".to_string();
    parent.attach("T".to_string(), first);
    parent.attach("U".to_string(), Block::new(vec![]));
    parent.attach("T".to_string(), second);
    assert_eq!(parent.sub_blocks.len(), 2);
    let t = parent.children("T").unwrap();
    assert_eq!(t.len(), 2);
    assert_eq!(t[0].raw_content, "1");
    assert_eq!(t[1].raw_content, "2");
    assert_eq!(parent.children("U").unwrap().len(), 1);
}

#[test]
fn upsert_inserts_then_replaces() {
    let mut entries: Vec<(String, u32)> = Vec::new();
    upsert(&mut entries, "a".to_string(), 1);
    upsert(&mut entries, "b".to_string(), 2);
    upsert(&mut entries, "a".to_string(), 3);
    assert_eq!(entries, vec![("a".to_string(), 3), ("b".to_string(), 2)]);
    assert_eq!(position(&entries, &"b".to_string()), Some(1));
    assert_eq!(position(&entries, &"c".to_string()), None);
}
