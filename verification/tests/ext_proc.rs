use envoy_filters::ext_proc::{
    apply_mutations, decode_process_response, encode_grpc_frame, encode_process_request,
    FieldMutation, ACTION_CONTINUE, ACTION_MUTATE_FIELDS, ACTION_REJECT, DIRECTION_REQUEST,
    MUTATION_OP_ADD, MUTATION_OP_REMOVE, MUTATION_OP_SET,
};
use envoy_filters::proto_decode::{self, RawField, RawValue};
use envoy_filters::proto_encode;

#[test]
fn test_encode_process_request_roundtrip() {
    let request = encode_process_request(
        "my.Service",
        "MyMethod",
        DIRECTION_REQUEST,
        &[0x08, 0x96, 0x01],
        &[RawField {
            field_number: 1,
            value: RawValue::Varint(150),
        }],
    );
    let fields = proto_decode::decode_raw(&request);
    assert!(fields.len() >= 4);
    // field 1 = service_name
    assert_eq!(fields[0].field_number, 1);
    if let RawValue::LengthDelimited(v) = &fields[0].value {
        assert_eq!(v, b"my.Service");
    } else {
        panic!("expected string for service_name");
    }
}

#[test]
fn test_decode_process_response_continue() {
    // action = 0 (CONTINUE) encoded as varint field 1
    let data = proto_encode::encode_varint_field(1, ACTION_CONTINUE);
    let resp = decode_process_response(&data);
    assert_eq!(resp.action, ACTION_CONTINUE);
    assert!(resp.mutations.is_empty());
}

#[test]
fn test_decode_process_response_with_mutations() {
    let mut data = Vec::new();
    // action = MUTATE_FIELDS
    data.extend(proto_encode::encode_varint_field(1, ACTION_MUTATE_FIELDS));
    // mutation: SET field 5, varint, value encoded as varint(42)
    let mut mutation_msg = Vec::new();
    mutation_msg.extend(proto_encode::encode_varint_field(1, MUTATION_OP_SET));
    mutation_msg.extend(proto_encode::encode_varint_field(2, 5)); // field_number
    mutation_msg.extend(proto_encode::encode_varint_field(3, 0)); // field_type = VARINT
    mutation_msg.extend(proto_encode::encode_bytes_field(
        4,
        &proto_encode::encode_varint(42),
    ));
    data.extend(proto_encode::encode_bytes_field(2, &mutation_msg));

    let resp = decode_process_response(&data);
    assert_eq!(resp.action, ACTION_MUTATE_FIELDS);
    assert_eq!(resp.mutations.len(), 1);
    assert_eq!(resp.mutations[0].field_number, 5);
    assert_eq!(resp.mutations[0].operation, MUTATION_OP_SET);
}

#[test]
fn test_apply_mutations_set_existing() {
    let original = proto_encode::encode_varint_field(1, 100);
    let mutations = vec![FieldMutation {
        operation: MUTATION_OP_SET,
        field_number: 1,
        field_type: 0,
        value: proto_encode::encode_varint(200),
    }];
    let result = apply_mutations(&original, &mutations);
    let fields = proto_decode::decode_raw(&result);
    assert_eq!(fields.len(), 1);
    match &fields[0].value {
        RawValue::Varint(v) => assert_eq!(*v, 200),
        _ => panic!("expected varint"),
    }
}

#[test]
fn test_apply_mutations_set_new_field() {
    let original = proto_encode::encode_varint_field(1, 100);
    let mutations = vec![FieldMutation {
        operation: MUTATION_OP_SET,
        field_number: 2,
        field_type: 2,
        value: b"hello".to_vec(),
    }];
    let result = apply_mutations(&original, &mutations);
    let fields = proto_decode::decode_raw(&result);
    assert_eq!(fields.len(), 2);
    assert_eq!(fields[1].field_number, 2);
}

#[test]
fn test_apply_mutations_add() {
    let original = proto_encode::encode_varint_field(1, 100);
    let mutations = vec![FieldMutation {
        operation: MUTATION_OP_ADD,
        field_number: 2,
        field_type: 2,
        value: b"hello".to_vec(),
    }];
    let result = apply_mutations(&original, &mutations);
    let fields = proto_decode::decode_raw(&result);
    assert_eq!(fields.len(), 2);
    assert_eq!(fields[1].field_number, 2);
    if let RawValue::LengthDelimited(v) = &fields[1].value {
        assert_eq!(v, b"hello");
    } else {
        panic!("expected bytes");
    }
}

#[test]
fn test_apply_mutations_remove() {
    let mut original = proto_encode::encode_varint_field(1, 100);
    original.extend(proto_encode::encode_bytes_field(2, b"hello"));
    let mutations = vec![FieldMutation {
        operation: MUTATION_OP_REMOVE,
        field_number: 1,
        field_type: 0,
        value: Vec::new(),
    }];
    let result = apply_mutations(&original, &mutations);
    let fields = proto_decode::decode_raw(&result);
    assert_eq!(fields.len(), 1);
    assert_eq!(fields[0].field_number, 2);
}

#[test]
fn test_encode_grpc_frame() {
    let payload = vec![0x08, 0x96, 0x01];
    let frame = encode_grpc_frame(&payload);
    assert_eq!(frame[0], 0); // not compressed
    assert_eq!(
        u32::from_be_bytes([frame[1], frame[2], frame[3], frame[4]]),
        3
    );
    assert_eq!(&frame[5..], &payload);
}

#[test]
fn test_apply_multiple_mutations() {
    let mut original = Vec::new();
    original.extend(proto_encode::encode_varint_field(1, 10));
    original.extend(proto_encode::encode_bytes_field(2, b"old"));
    original.extend(proto_encode::encode_varint_field(3, 99));

    let mutations = vec![
        FieldMutation {
            operation: MUTATION_OP_SET,
            field_number: 2,
            field_type: 2,
            value: b"new".to_vec(),
        },
        FieldMutation {
            operation: MUTATION_OP_REMOVE,
            field_number: 3,
            field_type: 0,
            value: Vec::new(),
        },
        FieldMutation {
            operation: MUTATION_OP_ADD,
            field_number: 4,
            field_type: 0,
            value: proto_encode::encode_varint(777),
        },
    ];
    let result = apply_mutations(&original, &mutations);
    let fields = proto_decode::decode_raw(&result);
    assert_eq!(fields.len(), 3); // field 1 (unchanged), field 2 (set), field 4 (added)
    assert_eq!(fields[0].field_number, 1);
    assert_eq!(fields[1].field_number, 2);
    if let RawValue::LengthDelimited(v) = &fields[1].value {
        assert_eq!(v, b"new");
    }
    assert_eq!(fields[2].field_number, 4);
}

#[test]
fn encoded_request_holds_every_part_in_order() {
    let request = encode_process_request(
        "s",
        "m",
        DIRECTION_REQUEST,
        &[0x08, 0x01],
        &[RawField { field_number: 1, value: RawValue::Varint(1) }],
    );
    let fields = proto_decode::decode_raw(&request);
    let numbers: Vec<u32> = fields.iter().map(|f| f.field_number).collect();
    assert_eq!(numbers, vec![1, 2, 3, 4, 5]);
    assert!(matches!(fields[2].value, RawValue::Varint(1)));
    // the ProtoField sub-message: number, wire type, raw bytes, display text
    let sub = match &fields[4].value {
        RawValue::LengthDelimited(v) => proto_decode::decode_raw(v),
        _ => panic!("expected sub-message"),
    };
    assert_eq!(sub.len(), 4);
    assert!(matches!(sub[0].value, RawValue::Varint(1)));
    assert!(matches!(sub[1].value, RawValue::Varint(0)));
    match &sub[2].value {
        RawValue::LengthDelimited(v) => assert_eq!(v, &vec![0x01]),
        _ => panic!("expected raw bytes"),
    }
    match &sub[3].value {
        RawValue::LengthDelimited(v) => assert_eq!(v, b"varint(1)"),
        _ => panic!("expected display text"),
    }
}

#[test]
fn empty_parts_are_left_out_of_the_request() {
    let request = encode_process_request("", "", 0, &[], &[]);
    assert!(request.is_empty());
}

#[test]
fn fixed_width_fields_encode_little_endian_in_request() {
    let request = encode_process_request(
        "",
        "",
        0,
        &[],
        &[RawField { field_number: 7, value: RawValue::Fixed32(0x0102_0304) }],
    );
    let fields = proto_decode::decode_raw(&request);
    let sub = match &fields[0].value {
        RawValue::LengthDelimited(v) => proto_decode::decode_raw(v),
        _ => panic!("expected sub-message"),
    };
    assert!(matches!(sub[1].value, RawValue::Varint(5)));
    match &sub[2].value {
        RawValue::LengthDelimited(v) => assert_eq!(v, &vec![4, 3, 2, 1]),
        _ => panic!("expected raw bytes"),
    }
}

#[test]
fn response_carries_body_and_headers() {
    let mut data = proto_encode::encode_varint_field(1, ACTION_REJECT);
    data.extend(proto_encode::encode_bytes_field(3, b"new body"));
    let mut entry = proto_encode::encode_bytes_field(1, b"x-k");
    entry.extend(proto_encode::encode_bytes_field(2, b"v"));
    data.extend(proto_encode::encode_bytes_field(4, &entry));
    // an entry without a value is dropped
    data.extend(proto_encode::encode_bytes_field(4, &proto_encode::encode_bytes_field(1, b"k")));
    // an entry with a key that is not UTF-8 is dropped
    let mut bad = proto_encode::encode_bytes_field(1, &[0xff]);
    bad.extend(proto_encode::encode_bytes_field(2, b"v"));
    data.extend(proto_encode::encode_bytes_field(4, &bad));
    let resp = decode_process_response(&data);
    assert_eq!(resp.action, ACTION_REJECT);
    assert_eq!(resp.replaced_body, Some(b"new body".to_vec()));
    assert_eq!(resp.headers_to_add, vec![("x-k".to_string(), "v".to_string())]);
}

#[test]
fn mutation_without_field_number_is_dropped_unless_it_removes() {
    let mut data = Vec::new();
    data.extend(proto_encode::encode_bytes_field(
        2,
        &proto_encode::encode_varint_field(1, MUTATION_OP_ADD),
    ));
    data.extend(proto_encode::encode_bytes_field(
        2,
        &proto_encode::encode_varint_field(1, MUTATION_OP_REMOVE),
    ));
    let resp = decode_process_response(&data);
    assert_eq!(resp.mutations.len(), 1);
    assert_eq!(resp.mutations[0].operation, MUTATION_OP_REMOVE);
    assert_eq!(resp.mutations[0].field_number, 0);
}

#[test]
fn later_action_field_wins_and_wrong_wire_types_are_ignored() {
    let mut data = proto_encode::encode_varint_field(1, ACTION_MUTATE_FIELDS);
    data.extend(proto_encode::encode_bytes_field(1, b"x"));
    data.extend(proto_encode::encode_varint_field(1, ACTION_REJECT));
    data.extend(proto_encode::encode_varint_field(3, 5));
    let resp = decode_process_response(&data);
    assert_eq!(resp.action, ACTION_REJECT);
    assert_eq!(resp.replaced_body, None);
}

#[test]
fn set_replaces_only_the_first_occurrence() {
    let mut original = proto_encode::encode_varint_field(1, 1);
    original.extend(proto_encode::encode_varint_field(1, 2));
    let mutations = vec![FieldMutation {
        operation: MUTATION_OP_SET,
        field_number: 1,
        field_type: 0,
        value: proto_encode::encode_varint(9),
    }];
    let fields = proto_decode::decode_raw(&apply_mutations(&original, &mutations));
    assert_eq!(fields.len(), 2);
    assert!(matches!(fields[0].value, RawValue::Varint(9)));
    assert!(matches!(fields[1].value, RawValue::Varint(2)));
}

#[test]
fn remove_drops_every_occurrence() {
    let mut original = proto_encode::encode_varint_field(1, 1);
    original.extend(proto_encode::encode_varint_field(2, 2));
    original.extend(proto_encode::encode_varint_field(1, 3));
    let mutations = vec![FieldMutation {
        operation: MUTATION_OP_REMOVE,
        field_number: 1,
        field_type: 0,
        value: Vec::new(),
    }];
    let result = apply_mutations(&original, &mutations);
    assert_eq!(result, proto_encode::encode_varint_field(2, 2));
}

#[test]
fn short_fixed_values_become_zero_and_unknown_types_become_bytes() {
    let mutations = vec![
        FieldMutation { operation: MUTATION_OP_ADD, field_number: 1, field_type: 1, value: vec![1, 2] },
        FieldMutation { operation: MUTATION_OP_ADD, field_number: 2, field_type: 5, value: vec![1, 0, 0, 0] },
        FieldMutation { operation: MUTATION_OP_ADD, field_number: 3, field_type: 9, value: vec![7] },
        FieldMutation { operation: MUTATION_OP_ADD, field_number: 4, field_type: 0, value: vec![0x80] },
        FieldMutation { operation: 7, field_number: 5, field_type: 0, value: vec![1] },
    ];
    let fields = proto_decode::decode_raw(&apply_mutations(&[], &mutations));
    assert_eq!(fields.len(), 4);
    assert!(matches!(fields[0].value, RawValue::Fixed64(0)));
    assert!(matches!(fields[1].value, RawValue::Fixed32(1)));
    match &fields[2].value {
        RawValue::LengthDelimited(v) => assert_eq!(v, &vec![7]),
        _ => panic!("expected bytes"),
    }
    assert!(matches!(fields[3].value, RawValue::Varint(0)));
}

#[test]
fn no_mutations_reencodes_the_payload() {
    let mut original = proto_encode::encode_varint_field(1, 150);
    original.extend(proto_encode::encode_bytes_field(2, b"abc"));
    assert_eq!(apply_mutations(&original, &[]), original);
}
