use zkinterface::decode;
use zkinterface::encode;
use zkinterface::read_framed;
use zkinterface::try_encode;
use zkinterface::write_framed;
use zkinterface::DecodeError;
use zkinterface::VariablesOwned;
use zkinterface::WitnessOwned;

fn two_assignment_witness() -> WitnessOwned {
    WitnessOwned {
        assigned_variables: VariablesOwned {
            ids: vec![1, 2],
            values: vec![vec![0x01], vec![0xFF, 0x00]],
        },
    }
}

#[test]
fn round_trip_empty() {
    let w = WitnessOwned::default();
    let envelope = encode(&w);
    let framed = write_framed(&envelope);
    let unframed = read_framed(&framed).unwrap();
    assert_eq!(unframed, envelope);
    let back = decode(&unframed).unwrap();
    assert!(back == w);
    assert_eq!(back.assigned_variables.ids.len(), 0);
    assert_eq!(back.assigned_variables.values.len(), 0);
}

#[test]
fn round_trip_two_assignments() {
    let w = two_assignment_witness();
    let envelope = encode(&w);
    let framed = write_framed(&envelope);
    let unframed = read_framed(&framed).unwrap();
    assert_eq!(unframed, envelope);
    let back = decode(&unframed).unwrap();
    assert!(back == w);
    assert_eq!(back.assigned_variables.ids, vec![1, 2]);
    assert_eq!(back.assigned_variables.values, vec![vec![0x01], vec![0xFF, 0x00]]);
}

#[test]
fn empty_witness_exact_bytes() {
    // For zero assignments the arena holds only the three tables and the
    // trailer: an all-zero variables table at offset 0, the witness table at
    // 12, the root at 17, and the trailer pointing at the root.
    let w = WitnessOwned::default();
    let expected: Vec<u8> = vec![
        0, 0, 0, 0, // count
        0, 0, 0, 0, // ids offset
        0, 0, 0, 0, // value-offsets offset
        1, 0, 0, 0, 0, // witness table: present, variables table at 0
        3, 12, 0, 0, 0, // root: witness tag, witness table at 12
        17, 0, 0, 0, // trailer: root at 17
    ];
    assert_eq!(encode(&w), expected);
}

#[test]
fn framing_exact_bytes() {
    let w = WitnessOwned::default();
    let envelope = encode(&w);
    let framed = write_framed(&envelope);
    assert_eq!(framed.len(), envelope.len() + 4);
    assert_eq!(&framed[0..4], &[26, 0, 0, 0]);
    assert_eq!(&framed[4..], &envelope[..]);
}

#[test]
fn encode_is_deterministic() {
    let w = two_assignment_witness();
    assert_eq!(encode(&w), encode(&w));
    let w2 = two_assignment_witness();
    assert_eq!(encode(&w), encode(&w2));
}

#[test]
fn framer_rejects_empty_input() {
    let r = read_framed(&[]);
    assert!(matches!(r, Err(DecodeError::Truncated)));
}

#[test]
fn framer_rejects_every_proper_prefix() {
    let w = two_assignment_witness();
    let framed = write_framed(&encode(&w));
    for k in 0..framed.len() {
        let r = read_framed(&framed[0..k]);
        assert!(matches!(r, Err(DecodeError::Truncated)), "prefix of {} bytes", k);
    }
}

#[test]
fn decoder_rejects_empty_buffer() {
    let r = decode(&[]);
    assert!(matches!(r, Err(DecodeError::Truncated)));
}

#[test]
fn unknown_tag_rejected() {
    let w = two_assignment_witness();
    let mut envelope = encode(&w);
    // The root's message_type tag sits 9 bytes before the end: 5 root bytes,
    // then the 4-byte trailer.
    let tag_pos = envelope.len() - 9;
    assert_eq!(envelope[tag_pos], 3);
    envelope[tag_pos] = 9;
    let r = decode(&envelope);
    assert!(matches!(r, Err(DecodeError::TypeMismatch)));
}

#[test]
fn other_valid_tag_rejected() {
    let w = two_assignment_witness();
    let mut envelope = encode(&w);
    let tag_pos = envelope.len() - 9;
    envelope[tag_pos] = 1;
    let r = decode(&envelope);
    assert!(matches!(r, Err(DecodeError::TypeMismatch)));
}

#[test]
fn absent_field_rejected() {
    let w = two_assignment_witness();
    let mut envelope = encode(&w);
    // The witness table's presence marker sits 14 bytes before the end.
    let present_pos = envelope.len() - 14;
    assert_eq!(envelope[present_pos], 1);
    envelope[present_pos] = 0;
    match decode(&envelope) {
        Err(DecodeError::MissingField(name)) => assert_eq!(name, "assigned_variables"),
        other => panic!("expected a missing-field error, got {:?}", other),
    }
}

#[test]
fn truncated_envelope_rejected() {
    let w = two_assignment_witness();
    let envelope = encode(&w);
    for k in 0..envelope.len() {
        let r = decode(&envelope[0..k]);
        assert!(r.is_err(), "prefix of {} bytes decoded", k);
    }
}

#[test]
fn duplicate_ids_preserved() {
    let w = WitnessOwned {
        assigned_variables: VariablesOwned {
            ids: vec![7, 7],
            values: vec![vec![0x0A], vec![0x0B]],
        },
    };
    let back = decode(&encode(&w)).unwrap();
    assert_eq!(back.assigned_variables.ids, vec![7, 7]);
    assert_eq!(back.assigned_variables.values, vec![vec![0x0A], vec![0x0B]]);
}

#[test]
fn large_witness_round_trips_in_order() {
    let mut vars = VariablesOwned::new();
    for i in 0..10_000u64 {
        vars.push(i, vec![(i % 256) as u8, (i / 256) as u8]);
    }
    let w = WitnessOwned { assigned_variables: vars };
    let framed = write_framed(&encode(&w));
    let back = decode(&read_framed(&framed).unwrap()).unwrap();
    assert!(back == w);
    assert_eq!(back.assigned_variables.ids.len(), 10_000);
    for i in 0..10_000usize {
        assert_eq!(back.assigned_variables.ids[i], i as u64);
        assert_eq!(
            back.assigned_variables.values[i],
            vec![(i % 256) as u8, (i / 256) as u8]
        );
    }
}

#[test]
fn try_encode_matches_encode() {
    let w = two_assignment_witness();
    assert_eq!(try_encode(&w).unwrap(), encode(&w));
}

#[test]
fn try_encode_rejects_unparallel_columns() {
    let w = WitnessOwned {
        assigned_variables: VariablesOwned { ids: vec![1], values: vec![] },
    };
    assert!(try_encode(&w).is_none());
}

#[test]
fn push_keeps_insertion_order() {
    let mut vars = VariablesOwned::new();
    vars.push(1, vec![0x01]);
    vars.push(2, vec![0xFF, 0x00]);
    let w = WitnessOwned { assigned_variables: vars };
    assert!(w == two_assignment_witness());
}

#[test]
fn empty_value_bytes_round_trip() {
    let w = WitnessOwned {
        assigned_variables: VariablesOwned {
            ids: vec![42],
            values: vec![vec![]],
        },
    };
    let back = decode(&encode(&w)).unwrap();
    assert!(back == w);
    assert_eq!(back.assigned_variables.values[0].len(), 0);
}
