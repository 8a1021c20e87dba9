use suruga::der::{DerReader, DerResult, Element};
use suruga::fields::{boolean_default_at, null_at, octet_string_optional_at};

#[derive(Debug, PartialEq)]
struct OctetString(Vec<u8>);

#[derive(Debug, PartialEq)]
struct Null;

/// `SEQUENCE { default BOOLEAN DEFAULT FALSE, optional OCTET STRING OPTIONAL, null NULL }`
#[derive(Debug, PartialEq)]
struct DefaultOptional {
    default: bool,
    optional: Option<OctetString>,
    null: Null,
}

fn decode(elem: &Element) -> DerResult<DefaultOptional> {
    let children = match elem {
        Element::Sequence(children) => children,
        _ => panic!("expected sequence"),
    };
    let (default, i) = boolean_default_at(children, 0, false);
    let (optional, i) = octet_string_optional_at(children, i);
    let i = null_at(children, i)?;
    assert_eq!(i, children.len());
    Ok(DefaultOptional { default, optional: optional.map(OctetString), null: Null })
}

#[test]
fn test_default_optional() {
    let ders: Vec<(Vec<u8>, DefaultOptional)> = vec![
        (vec![0x30, 0x02, 0x05, 0x00], DefaultOptional {
            default: false,
            optional: None,
            null: Null,
        }),
        (vec![0x30, 0x05, 0x01, 0x01, 0xFF, 0x05, 0x00], DefaultOptional {
            default: true,
            optional: None,
            null: Null,
        }),
        (vec![0x30, 0x05, 0x04, 0x01, 0x12, 0x05, 0x00], DefaultOptional {
            default: false,
            optional: Some(OctetString(vec![0x12])),
            null: Null,
        }),
        (vec![0x30, 0x08, 0x01, 0x01, 0xFF, 0x04, 0x01, 0x12, 0x05, 0x00], DefaultOptional {
            default: true,
            optional: Some(OctetString(vec![0x12])),
            null: Null,
        }),
    ];

    for &(ref der, ref expected) in ders.iter() {
        let mut reader = DerReader::new(der, 0);
        let elem = reader.read_element().unwrap();
        let actual: DefaultOptional = decode(&elem.elem).unwrap();
        assert_eq!(expected, &actual);
        assert!(reader.is_eof());
    }
}

#[test]
fn missing_mandatory_null_is_refused() {
    let der = vec![0x30, 0x03, 0x01, 0x01, 0xFF];
    let elem = DerReader::new(&der, 0).read_element().unwrap();
    assert!(decode(&elem.elem).is_err());
}
