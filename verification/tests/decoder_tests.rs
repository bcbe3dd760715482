use xml_events::events::XmlError;
use xml_events::qname::split_name;
use xml_events::text::{decode_ref, decode_text};

#[test]
fn decode_text_resolves_named_entities() {
    assert_eq!(
        decode_text(&b"&lt;ok&gt; &amp; &quot;x&quot; &apos;y&apos;".to_vec()).unwrap(),
        "<ok> & \"x\" 'y'"
    );
}

#[test]
fn decode_text_resolves_numeric_references() {
    assert_eq!(decode_text(&b"&#65;&#x41;&#x2603;".to_vec()).unwrap(), "AA\u{2603}");
    assert_eq!(decode_text(&b"&#0000065;".to_vec()).unwrap(), "A");
}

#[test]
fn decode_text_keeps_plain_text() {
    assert_eq!(decode_text(&"snow \u{2603} man".as_bytes().to_vec()).unwrap(), "snow \u{2603} man");
}

#[test]
fn decode_text_rejects_unterminated_reference() {
    assert_eq!(decode_text(&b"a &amp b".to_vec()), Err(XmlError::InvalidEntity));
}

#[test]
fn decode_text_rejects_unknown_entity() {
    assert_eq!(decode_text(&b"&nbsp;".to_vec()), Err(XmlError::InvalidEntity));
}

#[test]
fn decode_text_rejects_out_of_range_reference() {
    assert_eq!(decode_text(&b"&#x110000;".to_vec()), Err(XmlError::InvalidEntity));
    assert_eq!(decode_text(&b"&#99999999999999999999;".to_vec()), Err(XmlError::InvalidEntity));
    assert_eq!(decode_text(&b"&#;".to_vec()), Err(XmlError::InvalidEntity));
    assert_eq!(decode_text(&b"&#x;".to_vec()), Err(XmlError::InvalidEntity));
}

#[test]
fn decode_text_rejects_invalid_utf8() {
    assert_eq!(decode_text(&vec![0xff, 0xfe]), Err(XmlError::InvalidUtf8));
}

#[test]
fn decode_ref_resolves_a_standalone_reference() {
    assert_eq!(decode_ref(&b"amp".to_vec()).unwrap(), "&");
    assert_eq!(decode_ref(&b"#x3C".to_vec()).unwrap(), "<");
    assert_eq!(decode_ref(&b"bogus".to_vec()), Err(XmlError::InvalidEntity));
}

#[test]
fn split_name_handles_prefixes() {
    let (p, l) = split_name(&b"p:b".to_vec()).unwrap();
    assert_eq!(p.as_deref(), Some("p"));
    assert_eq!(l, "b");
    let (p, l) = split_name(&b"plain".to_vec()).unwrap();
    assert!(p.is_none());
    assert_eq!(l, "plain");
}

#[test]
fn split_name_rejects_bad_syntax() {
    assert_eq!(split_name(&b"".to_vec()), Err(XmlError::InvalidName));
    assert_eq!(split_name(&b":x".to_vec()), Err(XmlError::InvalidName));
    assert_eq!(split_name(&b"x:".to_vec()), Err(XmlError::InvalidName));
    assert_eq!(split_name(&b"a:b:c".to_vec()), Err(XmlError::InvalidName));
    assert_eq!(split_name(&b"a b".to_vec()), Err(XmlError::InvalidName));
    assert_eq!(split_name(&vec![0x80, 0x81]), Err(XmlError::InvalidUtf8));
}
