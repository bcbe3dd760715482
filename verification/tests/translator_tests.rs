use quick_xml::Reader;
use xml_events::events::{XmlError, XmlEvent};
use xml_events::translator::{QEvents, RawToken, StepResult, TranslatorCore};

fn events_of(input: &str) -> Vec<Result<XmlEvent, XmlError>> {
    let mut q = QEvents::from_reader(Reader::from_str(input));
    let mut out = Vec::new();
    while let Some(item) = q.next_event() {
        let failed = item.is_err();
        out.push(item);
        if failed {
            break;
        }
    }
    out
}

#[test]
fn self_closing_expansion() {
    let evs = events_of("<a x=\"1\"/>");
    assert_eq!(evs.len(), 2);
    match evs[0].as_ref().unwrap() {
        XmlEvent::StartElement { name, attributes, .. } => {
            assert_eq!(name.local, "a");
            assert!(name.prefix.is_none());
            assert_eq!(attributes.len(), 1);
            assert_eq!(attributes[0].name.local, "x");
            assert!(attributes[0].name.prefix.is_none());
            assert_eq!(attributes[0].value, "1");
        }
        _ => panic!("expected a start element"),
    }
    match evs[1].as_ref().unwrap() {
        XmlEvent::EndElement { name } => {
            assert_eq!(name.local, "a");
            assert!(name.prefix.is_none());
        }
        _ => panic!("expected an end element"),
    }
}

#[test]
fn nesting_round_trip() {
    let evs = events_of("<a><b>hello</b></a>");
    assert_eq!(evs.len(), 5);
    match evs[0].as_ref().unwrap() {
        XmlEvent::StartElement { name, .. } => assert_eq!(name.local, "a"),
        _ => panic!("expected start of a"),
    }
    match evs[1].as_ref().unwrap() {
        XmlEvent::StartElement { name, .. } => assert_eq!(name.local, "b"),
        _ => panic!("expected start of b"),
    }
    match evs[2].as_ref().unwrap() {
        XmlEvent::Characters(t) => assert_eq!(t, "hello"),
        _ => panic!("expected characters"),
    }
    match evs[3].as_ref().unwrap() {
        XmlEvent::EndElement { name } => assert_eq!(name.local, "b"),
        _ => panic!("expected end of b"),
    }
    match evs[4].as_ref().unwrap() {
        XmlEvent::EndElement { name } => assert_eq!(name.local, "a"),
        _ => panic!("expected end of a"),
    }
}

#[test]
fn entity_decoding_attribute_and_text() {
    let evs = events_of("<a x=\"&lt;ok&gt;\">a &amp; b</a>");
    match evs[0].as_ref().unwrap() {
        XmlEvent::StartElement { attributes, .. } => {
            assert_eq!(attributes[0].value, "<ok>");
        }
        _ => panic!("expected start element"),
    }
    // Text runs may arrive split around the reference; their concatenation is
    // the decoded content.
    let mut text = String::new();
    for ev in &evs[1..evs.len() - 1] {
        match ev.as_ref().unwrap() {
            XmlEvent::Characters(t) => text.push_str(t),
            _ => panic!("expected only characters between the tags"),
        }
    }
    assert_eq!(text, "a & b");
}

#[test]
fn numeric_character_references() {
    let evs = events_of("<a x=\"&#65;&#x42;\">&#60;</a>");
    match evs[0].as_ref().unwrap() {
        XmlEvent::StartElement { attributes, .. } => {
            assert_eq!(attributes[0].value, "AB");
        }
        _ => panic!("expected start element"),
    }
    match evs[1].as_ref().unwrap() {
        XmlEvent::Characters(t) => assert_eq!(t, "<"),
        _ => panic!("expected characters"),
    }
}

#[test]
fn sticky_termination() {
    let mut q = QEvents::from_reader(Reader::from_str("<a/>"));
    while let Some(item) = q.next_event() {
        assert!(item.is_ok());
    }
    for _ in 0..5 {
        assert!(q.next_event().is_none());
    }
}

#[test]
fn error_terminality_unterminated_tag() {
    let mut q = QEvents::from_reader(Reader::from_str("<a><b attr"));
    let mut saw_error = false;
    let mut events_before = 0;
    while let Some(item) = q.next_event() {
        match item {
            Ok(_) => {
                assert!(!saw_error);
                events_before += 1;
            }
            Err(e) => {
                assert!(matches!(e, XmlError::UnderlyingReadFailure(_)));
                saw_error = true;
                break;
            }
        }
    }
    assert!(saw_error);
    assert_eq!(events_before, 1);
    for _ in 0..5 {
        assert!(q.next_event().is_none());
    }
}

#[test]
fn namespace_propagation() {
    let evs = events_of("<a xmlns:p=\"urn:x\"><p:b/></a>");
    match evs[1].as_ref().unwrap() {
        XmlEvent::StartElement { name, namespace, .. } => {
            assert_eq!(name.local, "b");
            assert_eq!(name.prefix.as_deref(), Some("p"));
            assert_eq!(name.namespace.as_deref(), Some("urn:x"));
            assert!(namespace
                .iter()
                .any(|b| b.prefix == "p" && b.uri == "urn:x"));
        }
        _ => panic!("expected start of p:b"),
    }
}

#[test]
fn default_namespace_applies_to_unprefixed_names() {
    let evs = events_of("<a xmlns=\"urn:d\"><b/></a>");
    match evs[0].as_ref().unwrap() {
        XmlEvent::StartElement { name, attributes, .. } => {
            assert_eq!(name.namespace.as_deref(), Some("urn:d"));
            // The declaration itself is extracted from the attribute list.
            assert_eq!(attributes.len(), 0);
        }
        _ => panic!("expected start of a"),
    }
    match evs[1].as_ref().unwrap() {
        XmlEvent::StartElement { name, .. } => {
            assert_eq!(name.local, "b");
            assert_eq!(name.namespace.as_deref(), Some("urn:d"));
        }
        _ => panic!("expected start of b"),
    }
}

#[test]
fn empty_text_suppression() {
    let evs = events_of("<a><b/></a>");
    assert_eq!(evs.len(), 4);
    for ev in &evs {
        assert!(!matches!(ev.as_ref().unwrap(), XmlEvent::Characters(_)));
    }
}

#[test]
fn scope_underflow_on_stray_close() {
    let mut core = TranslatorCore::new();
    let r = core.step(RawToken::Close { name: b"a".to_vec() });
    assert!(matches!(r, StepResult::Fault(XmlError::ScopeUnderflow)));
    assert!(core.is_finished());
}

#[test]
fn invalid_entity_in_attribute() {
    let evs = events_of("<a x=\"&foo;\"/>");
    assert!(matches!(&evs[0], Err(XmlError::InvalidEntity)));
    assert_eq!(evs.len(), 1);
}

#[test]
fn surrogate_character_reference_is_rejected() {
    let mut core = TranslatorCore::new();
    let r = core.step(RawToken::Open {
        name: b"a".to_vec(),
        attrs: vec![xml_events::translator::RawAttr {
            key: b"x".to_vec(),
            value: b"&#xD800;".to_vec(),
        }],
    });
    assert!(matches!(r, StepResult::Fault(XmlError::InvalidEntity)));
}

#[test]
fn read_event_hands_out_raw_tokens() {
    let mut q = QEvents::from_reader(Reader::from_str("<a x=\"1\"/>rest"));
    let t = q.read_event();
    match t {
        RawToken::SelfClose { name, attrs } => {
            assert_eq!(name, b"a".to_vec());
            assert_eq!(attrs.len(), 1);
            assert_eq!(attrs[0].key, b"x".to_vec());
            assert_eq!(attrs[0].value, b"1".to_vec());
        }
        _ => panic!("expected a self-closing token"),
    }
}

#[test]
fn pending_end_keeps_scope_of_self_closing_tag() {
    // The frame of a self-closing tag is popped only when its buffered end
    // is emitted, so an outer binding stays visible afterwards.
    let evs = events_of("<a xmlns:p=\"urn:x\"><p:b/><p:c/></a>");
    match evs[3].as_ref().unwrap() {
        XmlEvent::StartElement { name, .. } => {
            assert_eq!(name.local, "c");
            assert_eq!(name.namespace.as_deref(), Some("urn:x"));
        }
        _ => panic!("expected start of p:c"),
    }
}

#[test]
fn comments_and_prolog_are_skipped() {
    let evs = events_of("<?xml version=\"1.0\"?><!-- note --><a/>");
    assert_eq!(evs.len(), 2);
    assert!(matches!(
        evs[0].as_ref().unwrap(),
        XmlEvent::StartElement { .. }
    ));
    assert!(matches!(evs[1].as_ref().unwrap(), XmlEvent::EndElement { .. }));
}

#[test]
fn empty_input_is_immediately_exhausted() {
    let mut q = QEvents::from_reader(Reader::from_str(""));
    assert!(q.next_event().is_none());
    assert!(q.next_event().is_none());
}

#[test]
fn prolog_and_epilog_whitespace_is_skipped() {
    let evs = events_of("<?xml version=\"1.0\"?>\n<a/>\n");
    assert_eq!(evs.len(), 2);
    assert!(matches!(
        evs[0].as_ref().unwrap(),
        XmlEvent::StartElement { .. }
    ));
    assert!(matches!(evs[1].as_ref().unwrap(), XmlEvent::EndElement { .. }));
}

#[test]
fn whitespace_inside_an_element_is_kept() {
    let evs = events_of("<a> </a>");
    assert_eq!(evs.len(), 3);
    match evs[1].as_ref().unwrap() {
        XmlEvent::Characters(t) => assert_eq!(t, " "),
        _ => panic!("expected characters"),
    }
}
