//! Structural admission of encoded values and message sections.

use amqp_engine::admission::{
    validate_array_constructor, value_extent, AdmissionError, Limits, Scan,
};
use amqp_engine::codec::Error;
use amqp_engine::message::{descriptor, prefix_offset, prefix_position, validate};

#[test]
fn count_depth_unicode_and_lengths_are_checked_before_materialization() {
    for b in [
        vec![0xd0, 255, 255, 255, 255],
        vec![0xc1, 2, 1, 0x40],
        vec![0xe0, 2, 5, 0x40],
        vec![0xc0, 3, 1, 0x40, 0x40],
        vec![0xa3, 1, 255],
    ] {
        assert!(Scan::new(&b).all().is_err());
    }
    assert_eq!(
        value_extent(&[0xb0, 255, 255, 255, 255]),
        Err(AdmissionError::Incomplete)
    );
    let mut b = vec![0x40];
    for _ in 0..70 {
        let mut next = vec![0xd0];
        next.extend_from_slice(&((b.len() + 4) as u32).to_be_bytes());
        next.extend_from_slice(&1u32.to_be_bytes());
        next.extend(b);
        b = next;
    }
    assert!(Scan::new(&b).all().is_err());
    // Zero-width true values are legal; the node budget, not encoded byte length, bounds expansion.
    assert!(Scan::new(&[0xe0, 2, 10, 0x41]).all().is_ok());
    assert!(Scan::new(&[0xe0, 2, 0, 0x70]).all().is_ok());
    assert!(
        Scan::with_limits(&[0xe0, 2, 10, 0x41], Limits { depth: 4, nodes: 8 })
            .all()
            .is_err()
    );
}

#[test]
fn each_admission_error_has_an_input() {
    assert_eq!(value_extent(&[]), Err(AdmissionError::Incomplete));
    assert_eq!(value_extent(&[0x70, 1, 2]), Err(AdmissionError::Incomplete));
    assert_eq!(value_extent(&[0x3f]), Err(AdmissionError::Invalid));
    assert_eq!(value_extent(&[0x56, 2]), Err(AdmissionError::Invalid));
    assert_eq!(value_extent(&[0x73, 0, 0, 0xd8, 0]), Err(AdmissionError::Invalid));
    assert_eq!(
        Scan::with_limits(&[0x40, 0x40], Limits { depth: 4, nodes: 1 }).all(),
        Err(AdmissionError::Limit)
    );
    // A count that no budget can cover is refused before any element is visited.
    assert_eq!(
        Scan::with_limits(&[0xe0, 2, 10, 0x41], Limits { depth: 4, nodes: 8 }).all(),
        Err(AdmissionError::Limit)
    );
    // An odd number of keys and values is malformed, whatever the budget.
    assert_eq!(
        Scan::with_limits(&[0xc1, 2, 1, 0x41], Limits { depth: 4, nodes: 8 }).all(),
        Err(AdmissionError::Invalid)
    );
    assert_eq!(
        Scan::with_limits(&[0xc1, 2, 9, 0x41], Limits { depth: 4, nodes: 8 }).all(),
        Err(AdmissionError::Invalid)
    );
    assert_eq!(
        Scan::with_limits(&[0xc0, 2, 1, 0x41], Limits { depth: 0, nodes: 8 }).all(),
        Err(AdmissionError::Limit)
    );
    assert_eq!(AdmissionError::Limit.describe(), "AMQP admission: Limit");
    assert_eq!(AdmissionError::Invalid.describe(), "AMQP admission: Invalid");
    assert_eq!(
        AdmissionError::Incomplete.describe(),
        "AMQP admission: Incomplete"
    );
}

#[test]
fn utf8_is_checked_in_strings() {
    assert_eq!(value_extent(&[0xa1, 2, 0xc3, 0xa9]), Ok(4));
    assert_eq!(value_extent(&[0xa1, 2, 0xc3, 0x28]), Err(AdmissionError::Invalid));
    assert_eq!(value_extent(&[0xa1, 1, 0xc3]), Err(AdmissionError::Invalid));
    // Binary values may hold anything.
    assert_eq!(value_extent(&[0xa0, 1, 0xc3]), Ok(3));
}

#[test]
fn nodes_are_counted_with_zero_width_elements() {
    let bytes = [0xe0, 2, 10, 0x41];
    let mut scan = Scan::new(&bytes);
    assert!(scan.value(0).is_ok());
    assert_eq!(scan.nodes(), 11);
    assert!(scan.remaining().is_empty());
}

#[test]
fn extents_ignore_what_follows_and_decisions_are_final() {
    let value = [0xc0, 3, 2, 0x41, 0x42];
    for cut in 0..value.len() {
        assert_eq!(value_extent(&value[..cut]), Err(AdmissionError::Incomplete));
    }
    let mut longer = value.to_vec();
    for more in [0u8, 0x40, 0xff] {
        longer.push(more);
        assert_eq!(value_extent(&longer), Ok(5));
    }
    // A described value: the descriptor is part of it.
    assert_eq!(value_extent(&[0, 0x53, 0x70, 0x45]), Ok(4));
    // What is refused stays refused.
    assert_eq!(value_extent(&[0x56, 2, 0x40]), Err(AdmissionError::Invalid));
}

#[test]
fn wider_limits_admit_the_same_value() {
    let bytes = [0xe0, 2, 10, 0x41];
    for nodes in [11, 12, 131072] {
        let mut scan = Scan::with_limits(&bytes, Limits { depth: 1, nodes });
        assert!(scan.value(0).is_ok());
        assert_eq!(scan.nodes(), 11);
    }
    assert!(Scan::with_limits(&bytes, Limits { depth: 1, nodes: 10 })
        .value(0)
        .is_err());
}

#[test]
fn array_constructors_are_checked_without_elements() {
    assert_eq!(validate_array_constructor(&[0x70]), Ok(()));
    assert_eq!(validate_array_constructor(&[0, 0x53, 0x24, 0xc0]), Ok(()));
    assert_eq!(validate_array_constructor(&[0x40]), Err(AdmissionError::Invalid));
    assert_eq!(validate_array_constructor(&[0x70, 0]), Err(AdmissionError::Invalid));
    assert_eq!(validate_array_constructor(&[]), Err(AdmissionError::Incomplete));
}

#[test]
fn fragmented_payload_header_lookalikes_are_not_sections() {
    let bytes = [
        0, 0x53, 0x75, 0xa0, 6, 0, 0x53, 0x75, 0, 255, 7, 0, 0x53, 0x75, 0xa0, 1, 9,
    ];
    for n in 0..11 {
        assert_eq!(prefix_position(&bytes[..n]).unwrap(), (0, n as u64));
    }
    assert_eq!(prefix_position(&bytes[..11]).unwrap(), (1, 0));
    for n in 12..17 {
        assert_eq!(prefix_position(&bytes[..n]).unwrap(), (1, (n - 11) as u64));
    }
    assert_eq!(prefix_position(&bytes).unwrap(), (2, 0));
    assert_eq!(prefix_offset(&bytes, 1, 3).unwrap(), 14);
    assert!(prefix_offset(&bytes, 0, 12).is_err());
    assert!(prefix_offset(&bytes[..13], 1, 3).is_err());
    validate(&bytes).unwrap();
}

#[test]
fn sections_stand_in_order_once_and_with_one_body() {
    let header = [0u8, 0x53, 0x70, 0x45];
    let properties = [0u8, 0x53, 0x73, 0x45];
    let data = [0u8, 0x53, 0x75, 0xa0, 1, 7];
    let sequence = [0u8, 0x53, 0x76, 0x45];
    let value = [0u8, 0x53, 0x77, 0x40];
    let footer = [0u8, 0x53, 0x78, 0xc1, 1, 0];
    let join = |parts: &[&[u8]]| -> Vec<u8> { parts.concat() };
    assert_eq!(validate(&join(&[&header, &properties, &data, &data, &footer])), Ok(()));
    assert_eq!(validate(&join(&[&header, &sequence, &sequence])), Ok(()));
    assert_eq!(validate(&join(&[&value])), Ok(()));
    assert_eq!(validate(&[]), Ok(()));
    for wrong in [
        join(&[&properties, &header]),
        join(&[&header, &header]),
        join(&[&value, &value]),
        join(&[&data, &sequence]),
        join(&[&data, &value]),
        join(&[&sequence, &value]),
        vec![0, 0x53, 0x70, 0xc1, 1, 0],
        vec![0, 0x53, 0x79, 0x40],
        vec![0x40],
    ] {
        assert_eq!(validate(&wrong), Err(Error::InvalidValue));
    }
}

#[test]
fn symbolic_descriptors_name_the_same_sections() {
    let mut bytes = vec![0u8, 0xa3, 16];
    bytes.extend_from_slice(b"amqp:data:binary");
    bytes.extend_from_slice(&[0xa0, 1, 7]);
    assert_eq!(validate(&bytes), Ok(()));
    assert_eq!(prefix_position(&bytes), Ok((1, 0)));
    bytes[18] = b'z';
    assert_eq!(validate(&bytes), Err(Error::InvalidValue));
    assert_eq!(prefix_position(&bytes), Err(Error::InvalidValue));
    assert_eq!(
        validate(&[0, 0x80, 0, 0, 0, 0, 0, 0, 0, 0x77, 0x40]),
        Ok(())
    );
}

#[test]
fn descriptors_read_alike_in_every_encoding() {
    let names = [
        "amqp:header:list",
        "amqp:delivery-annotations:map",
        "amqp:message-annotations:map",
        "amqp:properties:list",
        "amqp:application-properties:map",
        "amqp:data:binary",
        "amqp:amqp-sequence:list",
        "amqp:amqp-value:*",
        "amqp:footer:map",
    ];
    let body = [0xc1, 1, 0];
    for (at, name) in names.iter().enumerate() {
        let code = 0x70 + at as u64;
        let mut short_symbol = vec![0, 0xa3, name.len() as u8];
        short_symbol.extend_from_slice(name.as_bytes());
        let mut long_symbol = vec![0, 0xb3];
        long_symbol.extend_from_slice(&(name.len() as u32).to_be_bytes());
        long_symbol.extend_from_slice(name.as_bytes());
        let short_number = vec![0, 0x53, code as u8];
        let mut long_number = vec![0, 0x80];
        long_number.extend_from_slice(&code.to_be_bytes());
        for mut section in [short_symbol, long_symbol, short_number, long_number] {
            section.extend_from_slice(&body);
            assert_eq!(descriptor(&section), Ok((code, &body[..])));
        }
    }
    assert_eq!(
        descriptor(&[0, 0xa3, 3, b'a', b'm', b'q', 0x40]),
        Err(Error::InvalidValue)
    );
    assert_eq!(descriptor(&[0, 0x44, 0x40]), Err(Error::InvalidValue));
}

#[test]
fn valid_values_are_never_malformed_for_want_of_a_budget() {
    let value = [0xc0, 8, 2, 0xe0, 2, 10, 0x41, 0xc0, 1, 0];
    assert_eq!(value_extent(&value), Ok(10));
    for depth in 0..3 {
        for nodes in 0..16 {
            let admitted = Scan::with_limits(&value, Limits { depth, nodes }).all();
            assert!(matches!(admitted, Ok(()) | Err(AdmissionError::Limit)));
            assert_eq!(admitted.is_ok(), depth >= 2 && nodes >= 13);
        }
    }
}

#[test]
fn positions_are_resumption_points_of_their_own_prefix() {
    let bytes = [
        0, 0x53, 0x70, 0x45, 0, 0x53, 0x75, 0xa0, 2, 1, 2, 0, 0x53, 0x75, 0xa0, 1, 9,
    ];
    for n in 0..=bytes.len() {
        let prefix = &bytes[..n];
        let (number, offset) = prefix_position(prefix).unwrap();
        assert_eq!(prefix_offset(prefix, number, offset), Ok(n));
        for m in 0..=n {
            let (number, offset) = prefix_position(&bytes[..m]).unwrap();
            assert_eq!(prefix_offset(prefix, number, offset), Ok(m));
        }
    }
    assert_eq!(prefix_offset(&bytes, 4, 0), Err(Error::InvalidValue));
}

#[test]
fn admitted_values_may_move() {
    let list: [u8; 6] = [0xc0, 4, 2, 0x52, 7, 0x41];
    let array: [u8; 4] = [0xe0, 2, 3, 0x41];
    let described: [u8; 4] = [0, 0x53, 0x24, 0x45];
    for value in [&list[..], &array[..], &described[..]] {
        let mut alone = Scan::new(value);
        assert_eq!(alone.value(0), Ok(()));
        let nodes = alone.nodes();
        for before in 0..3usize {
            for depth in 0..3usize {
                let mut bytes = vec![0x40; before];
                bytes.extend_from_slice(value);
                bytes.push(0x3f);
                let limits = Limits { depth: 64 + depth, nodes: before + nodes };
                let mut scan = Scan::with_limits(&bytes, limits);
                for _ in 0..before {
                    assert_eq!(scan.value(0), Ok(()));
                }
                assert_eq!(scan.value(depth), Ok(()));
                assert_eq!(scan.nodes(), before + nodes);
                assert_eq!(scan.remaining(), &[0x3f]);
            }
        }
    }
}

#[test]
fn scans_agree_with_extents() {
    let bytes: [u8; 9] = [0x40, 0xc0, 3, 1, 0x50, 9, 0x43, 0xa1, 1];
    let mut scan = Scan::new(&bytes);
    for (length, nodes) in [(1, 1), (5, 3), (1, 4)] {
        let rest = scan.remaining();
        assert_eq!(scan.value(2), Ok(()));
        assert_eq!(scan.remaining(), &rest[length..]);
        assert_eq!(scan.nodes(), nodes);
        assert_eq!(value_extent(rest), Ok(length));
    }
    assert_eq!(scan.value(2), Err(AdmissionError::Incomplete));
}

#[test]
fn values_admitted_apart_are_admitted_together() {
    let values: [&[u8]; 3] = [&[0x52, 1], &[0xc0, 2, 1, 0x40], &[0xe0, 2, 2, 0x41]];
    let mut together = Vec::new();
    let mut nodes = 0;
    for value in values {
        let mut scan = Scan::new(value);
        assert_eq!(scan.value(0), Ok(()));
        assert!(scan.remaining().is_empty());
        nodes += scan.nodes();
        together.extend_from_slice(value);
    }
    assert_eq!(nodes, 6);
    assert_eq!(Scan::with_limits(&together, Limits { depth: 1, nodes }).all(), Ok(()));
    assert_eq!(
        Scan::with_limits(&together, Limits { depth: 1, nodes: nodes - 1 }).all(),
        Err(AdmissionError::Limit)
    );
}

#[test]
fn array_constructors_agree_with_empty_arrays() {
    let described = |depth: usize| {
        let mut bytes = [0, 0x53, 1].repeat(depth);
        bytes.push(0x70);
        bytes
    };
    let constructors = vec![
        vec![0x70],
        vec![0x40],
        vec![0x3f],
        vec![0, 0x53],
        vec![0x70, 0],
        vec![],
        described(2),
        described(63),
        described(64),
        described(65),
    ];
    for bytes in constructors {
        let mut array = vec![0xf0];
        array.extend_from_slice(&((bytes.len() + 4) as u32).to_be_bytes());
        array.extend_from_slice(&0u32.to_be_bytes());
        array.extend_from_slice(&bytes);
        let wider = Limits { depth: 65, nodes: 131073 };
        let expected = match validate_array_constructor(&bytes) {
            Ok(()) => Ok(()),
            Err(AdmissionError::Limit) => Err(AdmissionError::Limit),
            Err(_) => Err(AdmissionError::Invalid),
        };
        assert_eq!(Scan::with_limits(&array, wider).all(), expected);
    }
    // The array itself takes one level of those that the codec allows.
    assert_eq!(validate_array_constructor(&described(64)), Ok(()));
    assert_eq!(validate_array_constructor(&described(65)), Err(AdmissionError::Limit));
    let mut array = vec![0xe0, 194, 0];
    array.extend_from_slice(&described(64));
    assert_eq!(Scan::new(&array).all(), Err(AdmissionError::Limit));
}
