use upnp_parser::events::{
    collect_attribute_values, collect_texts, last_attribute, last_start_attribute,
    last_text_inside, next_inside, read_document, read_events, Attribute, Event, Reading,
};
use upnp_parser::UpnpError;

fn start(name: &str, attributes: &[(&str, &str)]) -> Event {
    Event::Start {
        name: name.to_string(),
        attributes: attributes
            .iter()
            .map(|(n, v)| Attribute { name: n.to_string(), value: v.to_string() })
            .collect(),
    }
}

fn end(name: &str) -> Event {
    Event::End { name: name.to_string() }
}

fn text(text: &str) -> Event {
    Event::Text(text.to_string())
}

#[test]
fn events_of_a_small_document() {
    let events = read_events("<a x=\"1\"><b>hi</b><c/></a>").unwrap();
    assert_eq!(
        events,
        vec![
            Event::Other,
            start("a", &[("x", "1")]),
            start("b", &[]),
            text("hi"),
            end("b"),
            start("c", &[]),
            end("c"),
            end("a"),
        ]
    );
}

#[test]
fn events_carry_local_names_and_unescaped_text() {
    let events = read_events("<p:a xmlns:p=\"urn:p\" p:k=\"&lt;v&gt;\">x &amp; y</p:a>").unwrap();
    assert_eq!(
        events,
        vec![Event::Other, start("a", &[("k", "<v>")]), text("x & y"), end("a")]
    );
}

#[test]
fn events_skip_white_space_and_cdata_as_other() {
    let events = read_events("<a>\n  <b><![CDATA[raw]]></b>\n</a>").unwrap();
    assert_eq!(
        events,
        vec![
            Event::Other,
            start("a", &[]),
            Event::Other,
            start("b", &[]),
            Event::Other,
            end("b"),
            Event::Other,
            end("a"),
        ]
    );
}

#[test]
fn document_that_is_not_well_formed_is_malformed() {
    assert_eq!(read_events("<a><b>hi</b></c></a>"), Err(UpnpError::MalformedXml));
    assert_eq!(read_events("<a><b>hi</b>"), Err(UpnpError::MalformedXml));
    assert_eq!(read_events("<a>"), Err(UpnpError::MalformedXml));
    assert_eq!(read_events(""), Err(UpnpError::MalformedXml));
    assert_eq!(read_events("plain text"), Err(UpnpError::MalformedXml));
}

#[test]
fn reading_keeps_the_events_before_the_fault() {
    let reading = read_document("<a><b>hi</b></c></a>");
    assert_eq!(
        reading,
        Reading {
            events: vec![Event::Other, start("a", &[]), start("b", &[]), text("hi"), end("b")],
            fault: true,
        }
    );
    assert_eq!(read_document(""), Reading { events: Vec::new(), fault: true });
}

#[test]
fn reading_of_a_well_formed_document_has_no_fault() {
    let reading = read_document("<a><b>hi</b></a>");
    assert!(!reading.fault);
    assert_eq!(Ok(reading.events), read_events("<a><b>hi</b></a>"));
    assert_eq!(reading_last(&read_document("<a/>")), Some(end("a")));
}

fn reading_last(reading: &Reading) -> Option<Event> {
    reading.events.last().cloned()
}

#[test]
fn inside_follows_the_last_tag_of_the_name() {
    assert!(next_inside(false, &start("a", &[]), "a"));
    assert!(!next_inside(false, &start("b", &[]), "a"));
    assert!(next_inside(true, &start("b", &[]), "a"));
    assert!(!next_inside(true, &end("a"), "a"));
    assert!(next_inside(true, &end("b"), "a"));
    assert!(next_inside(true, &text("a"), "a"));
    assert!(!next_inside(false, &Event::Other, "a"));
}

#[test]
fn texts_are_collected_while_the_element_is_open() {
    let events = vec![
        text("before"),
        start("a", &[]),
        text("one"),
        start("b", &[]),
        text("two"),
        end("b"),
        end("a"),
        text("after"),
        start("a", &[]),
        end("a"),
        start("a", &[]),
        text("three"),
    ];
    assert_eq!(collect_texts(&events, "a"), vec!["one", "two", "three"]);
    assert_eq!(collect_texts(&events, "b"), vec!["two"]);
    assert_eq!(collect_texts(&events, "c"), Vec::<String>::new());
    assert_eq!(last_text_inside(&events, "a"), Some("three".to_string()));
    assert_eq!(last_text_inside(&events, "c"), None);
}

#[test]
fn an_element_stays_open_until_its_end_tag() {
    let events = vec![start("a", &[]), start("a", &[]), end("a"), text("late")];
    assert_eq!(collect_texts(&events, "a"), Vec::<String>::new());
    let events = vec![start("a", &[]), end("b"), text("still")];
    assert_eq!(collect_texts(&events, "a"), vec!["still"]);
}

#[test]
fn attribute_values_in_order() {
    let attributes = vec![
        Attribute { name: "id".to_string(), value: "1".to_string() },
        Attribute { name: "parentID".to_string(), value: "0".to_string() },
        Attribute { name: "id".to_string(), value: "2".to_string() },
    ];
    assert_eq!(collect_attribute_values(&attributes, "id"), vec!["1", "2"]);
    assert_eq!(last_attribute(&attributes, "id"), Some("2".to_string()));
    assert_eq!(last_attribute(&attributes, "parentID"), Some("0".to_string()));
    assert_eq!(last_attribute(&attributes, "ID"), None);
}

#[test]
fn last_attribute_of_the_named_start_tags() {
    let events = vec![
        start("x", &[("val", "a")]),
        start("y", &[("val", "b")]),
        start("x", &[("other", "c")]),
        end("x"),
    ];
    assert_eq!(last_start_attribute(&events, "x", "val"), Some("a".to_string()));
    assert_eq!(last_start_attribute(&events, "y", "val"), Some("b".to_string()));
    assert_eq!(last_start_attribute(&events, "z", "val"), None);
}
