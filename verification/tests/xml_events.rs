use game_translator::xml::{read_xml_events, XmlEvent};

#[test]
fn tags_carry_their_names_and_attributes() {
    let events = read_xml_events("<item id=\"c1\" href='c1.xhtml'><b/></item>", false);
    assert_eq!(events.len(), 4);
    match &events[0] {
        XmlEvent::Start(name, attributes) => {
            assert_eq!(name.as_slice(), b"item");
            assert_eq!(
                attributes,
                &vec![
                    Some((b"id".to_vec(), b"c1".to_vec())),
                    Some((b"href".to_vec(), b"c1.xhtml".to_vec())),
                ]
            );
        }
        _ => panic!("expected a start tag"),
    }
    match &events[1] {
        XmlEvent::Empty(name, attributes) => {
            assert_eq!(name.as_slice(), b"b");
            assert!(attributes.is_empty());
        }
        _ => panic!("expected an empty tag"),
    }
    assert!(matches!(&events[2], XmlEvent::End(name) if name.as_slice() == b"item"));
    assert!(matches!(events[3], XmlEvent::Eof));
}

#[test]
fn a_broken_attribute_is_reported_as_missing() {
    let events = read_xml_events("<item id=\"c1\" broken/>", false);
    match &events[0] {
        XmlEvent::Empty(_, attributes) => {
            assert_eq!(attributes.len(), 2);
            assert_eq!(attributes[0], Some((b"id".to_vec(), b"c1".to_vec())));
            assert_eq!(attributes[1], None);
        }
        _ => panic!("expected an empty tag"),
    }
}

#[test]
fn text_is_decoded_and_the_reader_stops_at_the_end() {
    let events = read_xml_events("<p>Hello</p>", true);
    assert!(matches!(&events[1], XmlEvent::Text(Ok(t)) if t == "Hello"));
    assert!(matches!(events.last(), Some(XmlEvent::Eof)));
}
