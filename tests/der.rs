use suruga::der::{DerError, DerReader, DerResult, Element, SpannedElement, TagClass};

fn parse(input: &[u8]) -> DerResult<SpannedElement> {
    let mut reader = DerReader::new(input, 0);
    reader.read_element()
}

fn check(input: &[u8], expected: Element) {
    let elem = parse(input).unwrap();
    assert_eq!(elem.elem, expected);
}

fn check_eof(input: &[u8]) {
    match parse(input) {
        Err(DerError::UnexpectedEnd) => {}
        other => panic!("expected the end of the input, found {:?}", other),
    }
}

fn check_invalid(input: &[u8]) {
    match parse(input) {
        Err(DerError::InvalidValue) => {}
        other => panic!("expected InvalidValue, found {:?}", other),
    }
}

#[test]
fn test_bad_len() {
    check_eof(b"\x00\x01");
    check_eof(b"\x00\x02");

    check_eof(b"\x00\x71");
    check_eof(b"\x00\x72\x00");

    let mut long = vec![0x00, 0xFF];
    for _ in 0..0x7F {
        long.push(0x00);
    }
    check_invalid(&long);

    // indefinite
    check_invalid(b"\x00\x80");
}

#[test]
fn test_boolean() {
    check(b"\x01\x01\xFF", Element::Boolean(true));
    check(b"\x01\x01\x00", Element::Boolean(false));

    check_invalid(b"\x01\x00");
    check_invalid(b"\x01\x02\x00\x00");
    check_invalid(b"\x01\x01\x01");
}

#[test]
fn test_integer() {
    check(b"\x02\x01\x01", Element::Integer(vec![1]));
    check(b"\x02\x01\xFF", Element::Integer(vec![0xFF]));

    check_invalid(b"\x02\x00");
    check_invalid(b"\x02\x02\x00\x00");
    check_invalid(b"\x02\x02\xFF\x80");
}

#[test]
fn test_bit_string() {
    check(
        b"\x03\x07\x04\x0A\x3B\x5F\x29\x1C\xD0",
        Element::BitString(4, b"\x0A\x3B\x5F\x29\x1C\xD0".to_vec()),
    );

    check_invalid(b"\x03\x00");
}

#[test]
fn test_null() {
    check(b"\x05\x00", Element::Null);

    check_invalid(b"\x05\x01\x00");
}

#[test]
fn test_object_identifier() {
    let sha256: Vec<u64> = vec![2, 16, 840, 1, 101, 3, 4, 2, 1];
    check(b"\x06\x09\x60\x86\x48\x01\x65\x03\x04\x02\x01", Element::ObjectIdentifier(sha256));

    let rsa_sha1: Vec<u64> = vec![1, 2, 840, 113549, 1, 1, 5];
    check(b"\x06\x09\x2A\x86\x48\x86\xF7\x0D\x01\x01\x05", Element::ObjectIdentifier(rsa_sha1));

    check_invalid(b"\x06\x00");
}

#[test]
fn test_sequence() {
    let der = b"\x30\x0A\x16\x05Smith\x01\x01\xFF";
    let elem = parse(der).unwrap();
    assert_eq!(elem.start, 0);
    assert_eq!(elem.end, 12);
    match elem.elem {
        Element::Sequence(ref seq) => {
            assert_eq!(seq[0].start, 2);
            assert_eq!(seq[0].end, 9);
            assert_eq!(seq[0].elem, Element::IA5String(b"Smith".to_vec()));

            assert_eq!(seq[1].start, 9);
            assert_eq!(seq[1].end, 12);
            assert_eq!(seq[1].elem, Element::Boolean(true));
        }
        _ => panic!("expected sequence"),
    }
}

#[test]
fn reader_moves_past_each_element_and_stops_at_the_end() {
    let der = b"\x01\x01\xFF\x05\x00";
    let mut reader = DerReader::new(der, 0);
    let first = reader.read_element().unwrap();
    assert_eq!((first.start, first.end), (0, 3));
    assert_eq!(reader.offset(), 3);
    assert!(!reader.is_eof());
    let second = reader.read_element().unwrap();
    assert_eq!(second.elem, Element::Null);
    assert_eq!((second.start, second.end), (3, 5));
    assert!(reader.is_eof());
    assert_eq!(reader.read_element(), Err(DerError::UnexpectedEnd));
    assert_eq!(reader.offset(), 5);
}

#[test]
fn reader_does_not_move_on_failure() {
    let der = b"\x05\x00\x01\x01\x07";
    let mut reader = DerReader::new(der, 2);
    assert_eq!(reader.read_element(), Err(DerError::InvalidValue));
    assert_eq!(reader.offset(), 2);
}

#[test]
fn reader_spans_count_from_the_buffer_start() {
    let der = b"\xAA\xAA\x04\x01\x07";
    let elem = DerReader::new(der, 2).read_element().unwrap();
    assert_eq!(elem.elem, Element::OctetString(vec![7]));
    assert_eq!((elem.start, elem.end), (2, 5));
}

#[test]
fn long_form_length() {
    check(b"\x04\x81\x03\x01\x02\x03", Element::OctetString(vec![1, 2, 3]));
    check_eof(b"\x04\x82\x01\x00\x00");
    check_eof(b"\x04\x83\x01");
}

#[test]
fn long_form_tag() {
    check(
        b"\x9F\x81\x00\x01\xAA",
        Element::UnknownPrimitive(128, TagClass::ContextSpecific, vec![0xAA]),
    );
    check_eof(b"\x9F\x81");
    // the tag number does not fit in 64 bits
    check_invalid(b"\x9F\xFF\xFF\xFF\xFF\xFF\xFF\xFF\xFF\xFF\xFF\x7F\x00");
}

#[test]
fn tag_classes_and_unknown_types() {
    check(b"\x41\x01\x05", Element::UnknownPrimitive(1, TagClass::Application, vec![5]));
    check(b"\xC2\x00", Element::UnknownPrimitive(2, TagClass::Private, vec![]));
    check(
        b"\xA0\x03\x02\x01\x02",
        Element::UnknownConstructed(
            0,
            TagClass::ContextSpecific,
            vec![SpannedElement { elem: Element::Integer(vec![2]), start: 2, end: 5 }],
        ),
    );
    // GeneralizedTime is kept as bytes
    check(b"\x18\x01\x32", Element::UnknownPrimitive(24, TagClass::Universal, vec![0x32]));
    // universal tag numbers that do not exist, and end-of-contents
    check_invalid(b"\x1F\x40\x00");
    check_invalid(b"\x00\x00");
}

#[test]
fn constructed_and_primitive_forms_are_fixed() {
    // a constructed BOOLEAN, a primitive SEQUENCE
    check_invalid(b"\x21\x03\x01\x01\xFF");
    check_invalid(b"\x10\x00");
    check(
        b"\x31\x03\x01\x01\x00",
        Element::SetOf(vec![SpannedElement { elem: Element::Boolean(false), start: 2, end: 5 }]),
    );
}

#[test]
fn children_must_fill_the_content_exactly() {
    // the child runs past the end of its parent
    check_invalid(b"\x30\x02\x04\x05\x00\x00\x00\x00\x00");
    // the parent runs past the end of the input
    check_eof(b"\x30\x05\x04\x00");
    check(b"\x30\x00", Element::Sequence(vec![]));
}

#[test]
fn bit_string_unused_bits_at_most_seven() {
    check(b"\x03\x02\x07\x80", Element::BitString(7, vec![0x80]));
    check_invalid(b"\x03\x02\x08\x00");
}

#[test]
fn object_identifier_arcs_are_minimal_and_complete() {
    check_invalid(b"\x06\x03\x2A\x80\x01");
    check_invalid(b"\x06\x02\x2A\x86");
    check(b"\x06\x01\x55", Element::ObjectIdentifier(vec![2, 5]));
    check(b"\x06\x01\x00", Element::ObjectIdentifier(vec![0, 0]));
}

#[test]
fn character_strings() {
    check(b"\x0C\x02\xC3\xA9", Element::Utf8String("\u{e9}".to_string()));
    check_invalid(b"\x0C\x01\xFF");
    check(b"\x13\x04Ab1?", Element::PrintableString(b"Ab1?".to_vec()));
    check_invalid(b"\x13\x01*");
    check(b"\x16\x02a*", Element::IA5String(b"a*".to_vec()));
    check_invalid(b"\x16\x01\x80");
    check(b"\x17\x01Z", Element::UtcTime(b"Z".to_vec()));
}

#[test]
fn deep_clone_is_equal() {
    let der = b"\x30\x0A\x16\x05Smith\x01\x01\xFF";
    let elem = parse(der).unwrap();
    assert_eq!(elem.elem.deep_clone(), elem.elem);
}

#[test]
fn spanned_elements_compare_by_tree_not_by_span() {
    let at_zero = parse(b"\x30\x03\x01\x01\xFF").unwrap();
    let at_two = DerReader::new(b"\xAA\xAA\x30\x03\x01\x01\xFF", 2).read_element().unwrap();
    assert_ne!((at_zero.start, at_zero.end), (at_two.start, at_two.end));
    assert_eq!(at_zero, at_two);
    assert_eq!(at_zero.elem, at_two.elem);
    let other = parse(b"\x30\x03\x01\x01\x00").unwrap();
    assert_ne!(at_zero, other);
    let set = parse(b"\x31\x03\x01\x01\xFF").unwrap();
    assert_ne!(at_zero, set);
}

#[test]
fn children_fill_their_parent() {
    let elem = parse(b"\x30\x08\x05\x00\x30\x04\x02\x02\x01\x00").unwrap();
    assert_eq!((elem.start, elem.end), (0, 10));
    match elem.elem {
        Element::Sequence(ref kids) => {
            assert_eq!((kids[0].start, kids[0].end), (2, 4));
            assert_eq!((kids[1].start, kids[1].end), (4, 10));
            match kids[1].elem {
                Element::Sequence(ref inner) => {
                    assert_eq!((inner[0].start, inner[0].end), (6, 10));
                    assert_eq!(inner[0].elem, Element::Integer(vec![1, 0]));
                }
                _ => panic!("expected sequence"),
            }
        }
        _ => panic!("expected sequence"),
    }
}
