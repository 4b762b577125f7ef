use abyss::msg::envelope::{Envelope, Header, MessageKind, RawHandle};
use abyss::msg::error::WireError;
use abyss::msg::value::{MAX_DEPTH, Value};
use abyss::msg::wire::{Bytes, HandleSink, HandleStore, Wire};

// ---- golden vectors -----------------------------------------------------------

#[test]
fn golden_scalars() {
    assert_eq!(Value::Bool(false).encode(), [0x01, 0x00]);
    assert_eq!(Value::Bool(true).encode(), [0x01, 0x01]);
    assert_eq!(Value::Int(1).encode(), [0x02, 1, 0, 0, 0, 0, 0, 0, 0]);
    assert_eq!(
        Value::Int(-1).encode(),
        [0x02, 0xff, 0xff, 0xff, 0xff, 0xff, 0xff, 0xff, 0xff]
    );
    assert_eq!(
        Value::Float(1.0f64.to_bits()).encode(),
        [0x03, 0, 0, 0, 0, 0, 0, 0xf0, 0x3f]
    );
    assert_eq!(Value::Handle(7).encode(), [0x09, 7, 0, 0, 0]);
}

#[test]
fn golden_composites() {
    assert_eq!(
        Value::Str("hi".to_owned()).encode(),
        [0x04, 2, 0, 0, 0, b'h', b'i']
    );
    assert_eq!(Value::Bytes(vec![0xAA]).encode(), [0x05, 1, 0, 0, 0, 0xAA]);
    assert_eq!(
        Value::List(vec![Value::Bool(true)]).encode(),
        [0x06, 1, 0, 0, 0, 0x01, 0x01]
    );
    assert_eq!(
        Value::Dict(vec![("a".to_owned(), Value::Bool(false))]).encode(),
        [0x07, 1, 0, 0, 0, 1, 0, 0, 0, b'a', 0x01, 0x00]
    );
    assert_eq!(
        Value::Variant {
            tag: "X".to_owned(),
            value: None
        }
        .encode(),
        [0x08, 1, 0, 0, 0, b'X', 0x00]
    );
    assert_eq!(
        Value::Variant {
            tag: "X".to_owned(),
            value: Some(Box::new(Value::Bool(true)))
        }
        .encode(),
        [0x08, 1, 0, 0, 0, b'X', 0x01, 0x01, 0x01]
    );
}

#[test]
fn golden_envelope() {
    let env = Envelope {
        header: Header {
            kind: MessageKind::Command,
            interface_id: 0x11,
            method_id: 0x22,
        },
        payload: Value::Bool(true),
        handles: vec![],
    };
    assert_eq!(
        env.encode(),
        [
            0x01, 0x02, 0x00, 0x00, 0x11, 0x00, 0x00, 0x00, 0x22, 0x00, 0x00, 0x00, 0x02, 0x00,
            0x00, 0x00, 0x01, 0x01,
        ]
    );
}

#[test]
fn golden_decode_side() {
    assert_eq!(
        Value::decode(&[0x02, 42, 0, 0, 0, 0, 0, 0, 0]),
        Ok(Value::Int(42))
    );
}

// ---- round trips --------------------------------------------------------------

#[test]
fn value_roundtrip_explicit() {
    let cases = [
        Value::Bool(true),
        Value::Bool(false),
        Value::Int(0),
        Value::Int(i64::MIN),
        Value::Int(i64::MAX),
        Value::Float(0.0f64.to_bits()),
        Value::Float((-1.5f64).to_bits()),
        Value::Float(f64::INFINITY.to_bits()),
        Value::Str(String::new()),
        Value::Str("héllo, αβγ".to_owned()),
        Value::Bytes(vec![]),
        Value::Bytes(vec![0, 1, 255]),
        Value::List(vec![Value::Int(1), Value::Bool(true)]),
        Value::Dict(vec![
            ("a".to_owned(), Value::Int(1)),
            ("b".to_owned(), Value::Str("x".to_owned())),
        ]),
        Value::Variant {
            tag: "None".to_owned(),
            value: None,
        },
        Value::Variant {
            tag: "Some".to_owned(),
            value: Some(Box::new(Value::Int(9))),
        },
        Value::Handle(42),
    ];
    for case in cases {
        let bytes = case.encode();
        assert_eq!(Value::decode(&bytes), Ok(case.clone()), "roundtrip {case:?}");
    }
}

#[test]
fn envelope_roundtrip() {
    let env = Envelope {
        header: Header {
            kind: MessageKind::Request,
            interface_id: 7,
            method_id: 3,
        },
        payload: Value::Dict(vec![("path".to_owned(), Value::Str("a.b".to_owned()))]),
        handles: vec![
            RawHandle {
                kind: 1,
                body: vec![0xDE, 0xAD],
            },
            RawHandle {
                kind: 2,
                body: vec![],
            },
        ],
    };
    let bytes = env.encode();
    assert_eq!(Envelope::decode(&bytes), Ok(env));
}

#[test]
fn envelope_roundtrip_with_handle_references() {
    let env = Envelope {
        header: Header {
            kind: MessageKind::Event,
            interface_id: 1,
            method_id: 1,
        },
        payload: Value::List(vec![Value::Handle(0), Value::Handle(1)]),
        handles: vec![
            RawHandle {
                kind: 1,
                body: vec![1],
            },
            RawHandle {
                kind: 2,
                body: vec![2, 3],
            },
        ],
    };
    let bytes = env.encode();
    assert_eq!(Envelope::decode(&bytes), Ok(env));
}

fn wire_roundtrip<T: Wire<u32> + PartialEq + std::fmt::Debug>(value: T) {
    let mut sink: HandleSink<u32> = HandleSink::new();
    let encoded = value.to_wire(&mut sink);
    let (handles, fds) = sink.into_parts();
    let mut store = HandleStore::new(handles, fds).expect("handle/fd counts match");
    assert_eq!(T::from_wire(&encoded, &mut store), Ok(value));
}

#[test]
fn handle_sink_collects_metadata_and_its_fd_together() {
    let mut sink: HandleSink<u32> = HandleSink::new();
    let index = sink.push(
        RawHandle {
            kind: 1,
            body: vec![9],
        },
        17,
    );
    assert_eq!(index, 0);
    let (handles, fds) = sink.into_parts();
    let mut store = HandleStore::new(handles, fds).expect("handle/fd counts match");
    let (handle, fd) = store.take(0).expect("the capability is in the store");
    assert_eq!(
        handle,
        RawHandle {
            kind: 1,
            body: vec![9],
        },
    );
    assert_eq!(fd, 17);
}

#[test]
fn handle_store_rejects_a_handle_fd_count_mismatch() {
    let mismatch = HandleStore::<u32>::new(
        vec![RawHandle {
            kind: 1,
            body: vec![],
        }],
        vec![],
    );
    assert!(matches!(
        mismatch,
        Err(WireError::HandleFdMismatch { handles: 1, fds: 0 }),
    ));
}

#[test]
fn from_message_and_into_message_round_trip_a_payload() {
    let header = Header {
        kind: MessageKind::Event,
        interface_id: 4,
        method_id: 2,
    };
    let (envelope, fds): (Envelope, Vec<u32>) = Envelope::from_message(header, &1234_i64);
    assert!(fds.is_empty(), "an i64 payload carries no capabilities");
    assert_eq!(envelope.into_message::<i64, u32>(fds), Ok(1234));
}

#[test]
fn wire_primitives_roundtrip() {
    wire_roundtrip(true);
    wire_roundtrip(false);
    wire_roundtrip(0_i64);
    wire_roundtrip(i64::MIN);
    wire_roundtrip(i64::MAX);
    wire_roundtrip(-128_i8);
    wire_roundtrip(i16::MIN);
    wire_roundtrip(i32::MAX);
    wire_roundtrip(0_u8);
    wire_roundtrip(u8::MAX);
    wire_roundtrip(u16::MAX);
    wire_roundtrip(u32::MAX);
    wire_roundtrip("abyss".to_owned());
    wire_roundtrip(Bytes(vec![1, 2, 3]));
    wire_roundtrip(vec![1_i64, 2, 3]);
    wire_roundtrip(vec!["a".to_owned(), "b".to_owned()]);
    wire_roundtrip(Value::Dict(vec![("k".to_owned(), Value::Int(1))]));
}

#[test]
fn narrow_int_out_of_range_is_rejected() {
    let mut store = HandleStore::<u32>::new(vec![], vec![]).expect("an empty store");

    let too_big = Value::Int(i64::from(u32::MAX) + 1);
    assert!(matches!(
        u32::from_wire(&too_big, &mut store),
        Err(WireError::IntOutOfRange { .. })
    ));

    let negative = Value::Int(-1);
    assert!(matches!(
        u8::from_wire(&negative, &mut store),
        Err(WireError::IntOutOfRange { .. })
    ));
}

#[test]
fn wire_type_mismatch_is_rejected() {
    let mut store = HandleStore::<u32>::new(vec![], vec![]).expect("an empty store");
    assert!(matches!(
        bool::from_wire(&Value::Int(1), &mut store),
        Err(WireError::TypeMismatch {
            expected: "bool",
            ..
        })
    ));
    assert!(matches!(
        String::from_wire(&Value::Bool(true), &mut store),
        Err(WireError::TypeMismatch {
            expected: "string",
            ..
        })
    ));
}

// ---- robustness ---------------------------------------------------------------

#[test]
fn specific_malformed_values() {
    assert_eq!(Value::decode(&[]), Err(WireError::Truncated));
    assert_eq!(Value::decode(&[0xFF]), Err(WireError::BadTag(0xFF)));
    assert_eq!(Value::decode(&[0x00]), Err(WireError::BadTag(0x00)));
    assert_eq!(Value::decode(&[0x01, 0x02]), Err(WireError::BadBool(0x02)));
    assert_eq!(
        Value::decode(&[0x01, 0x01, 0x99]),
        Err(WireError::TrailingBytes)
    );
    assert_eq!(
        Value::decode(&[0x04, 0x01, 0, 0, 0, 0xFF]),
        Err(WireError::BadUtf8)
    );
    let dup = [
        0x07, 0x02, 0, 0, 0, 0x01, 0, 0, 0, b'a', 0x01, 0x01, 0x01, 0, 0, 0, b'a', 0x01, 0x00,
    ];
    assert_eq!(
        Value::decode(&dup),
        Err(WireError::DuplicateKey("a".to_owned()))
    );
}

#[test]
fn deep_nesting_is_rejected() {
    let mut bytes = Vec::new();
    for _ in 0..MAX_DEPTH + 5 {
        bytes.push(0x06);
        bytes.extend_from_slice(&1_u32.to_le_bytes());
    }
    bytes.extend_from_slice(&[0x01, 0x01]);
    assert_eq!(Value::decode(&bytes), Err(WireError::DepthExceeded));
}

#[test]
fn envelope_header_is_validated() {
    let env = Envelope {
        header: Header {
            kind: MessageKind::Command,
            interface_id: 1,
            method_id: 1,
        },
        payload: Value::Bool(true),
        handles: vec![],
    };
    let good = env.encode();
    assert!(Envelope::decode(&good).is_ok());

    let mut bad_version = good.clone();
    bad_version[0] = 9;
    assert_eq!(
        Envelope::decode(&bad_version),
        Err(WireError::BadVersion(9))
    );

    let mut bad_kind = good.clone();
    bad_kind[1] = 0;
    assert_eq!(Envelope::decode(&bad_kind), Err(WireError::BadKind(0)));

    let mut bad_flags = good.clone();
    bad_flags[2] = 1;
    assert_eq!(Envelope::decode(&bad_flags), Err(WireError::BadFlags(1)));

    assert_eq!(Envelope::decode(&good[..10]), Err(WireError::Truncated));
}

#[test]
fn envelope_rejects_dangling_handle_index() {
    let env = Envelope {
        header: Header {
            kind: MessageKind::Event,
            interface_id: 1,
            method_id: 1,
        },
        payload: Value::Handle(0),
        handles: vec![],
    };
    let bytes = env.encode();
    assert_eq!(
        Envelope::decode(&bytes),
        Err(WireError::BadHandleIndex { index: 0, count: 0 })
    );
}

#[test]
fn handle_store_take_is_move_once() {
    let mut store = HandleStore::new(
        vec![RawHandle {
            kind: 1,
            body: vec![7],
        }],
        vec![3_u32],
    )
    .expect("one handle, one descriptor");
    assert_eq!(
        store.take(0),
        Ok((
            RawHandle {
                kind: 1,
                body: vec![7]
            },
            3
        ))
    );
    assert_eq!(store.take(0), Err(WireError::HandleTaken(0)));
    assert!(matches!(
        store.take(5),
        Err(WireError::BadHandleIndex { index: 5, .. })
    ));
}

/// SplitMix64: a tiny deterministic generator, so any failure reproduces
/// from its seed.
struct Rng(u64);

impl Rng {
    fn next_u64(&mut self) -> u64 {
        self.0 = self.0.wrapping_add(0x9E37_79B9_7F4A_7C15);
        let mut z = self.0;
        z = (z ^ (z >> 30)).wrapping_mul(0xBF58_476D_1CE4_E5B9);
        z = (z ^ (z >> 27)).wrapping_mul(0x94D0_49BB_1331_11EB);
        z ^ (z >> 31)
    }

    /// A value in `0..n`.
    fn below(&mut self, n: u32) -> u32 {
        (self.next_u64() % u64::from(n)) as u32
    }

    fn coin(&mut self) -> bool {
        self.next_u64() & 1 == 1
    }
}

/// A random value; composites recur only while `budget` allows. Floats
/// are finite and integer-valued.
fn gen_value(rng: &mut Rng, budget: u32) -> Value {
    let kinds = if budget == 0 { 5 } else { 9 };
    match rng.below(kinds) {
        0 => Value::Bool(rng.coin()),
        1 => Value::Int(rng.next_u64() as i64),
        2 => Value::Float(f64::from(rng.next_u64() as i32).to_bits()),
        3 => Value::Str(gen_string(rng)),
        4 => Value::Bytes((0..rng.below(6)).map(|_| rng.below(256) as u8).collect()),
        5 => Value::List((0..rng.below(4)).map(|_| gen_value(rng, budget - 1)).collect()),
        6 => {
            let entries = (0..rng.below(4))
                .map(|i| (format!("k{i}"), gen_value(rng, budget - 1)))
                .collect();
            Value::Dict(entries)
        }
        7 => Value::Variant {
            tag: gen_string(rng),
            value: if rng.coin() {
                Some(Box::new(gen_value(rng, budget - 1)))
            } else {
                None
            },
        },
        _ => Value::Handle(rng.below(8)),
    }
}

fn gen_string(rng: &mut Rng) -> String {
    (0..rng.below(8))
        .map(|_| char::from(b'a' + rng.below(26) as u8))
        .collect()
}

#[test]
fn every_truncation_of_a_valid_value_is_an_error() {
    let mut rng = Rng(0x7777);
    for _ in 0..2_000 {
        let bytes = gen_value(&mut rng, 4).encode();
        for cut in 0..bytes.len() {
            assert!(
                Value::decode(&bytes[..cut]).is_err(),
                "a strict prefix decoded as complete"
            );
        }
    }
}

#[test]
fn a_nested_value_survives_and_no_prefix_of_it_decodes() {
    let value = Value::Dict(vec![
        ("list".to_owned(), Value::List(vec![Value::Int(5), Value::Str("s".to_owned())])),
        (
            "v".to_owned(),
            Value::Variant {
                tag: "T".to_owned(),
                value: Some(Box::new(Value::Bytes(vec![1, 2]))),
            },
        ),
    ]);
    let bytes = value.encode();
    for cut in 0..bytes.len() {
        assert!(Value::decode(&bytes[..cut]).is_err(), "a strict prefix decoded");
    }
    assert_eq!(Value::decode(&bytes), Ok(value));
}

#[test]
fn decode_random_bytes_never_panics() {
    let mut rng = Rng(0xF0F0);
    for _ in 0..200_000 {
        let len = rng.below(48) as usize;
        let bytes: Vec<u8> = (0..len).map(|_| rng.below(256) as u8).collect();
        let _ = Value::decode(&bytes);
        let _ = Envelope::decode(&bytes);
    }
}

#[test]
fn decode_mutated_valid_never_panics() {
    let mut rng = Rng(0x0102_0304);
    for _ in 0..50_000 {
        let mut bytes = gen_value(&mut rng, 4).encode();
        if !bytes.is_empty() {
            let i = rng.below(bytes.len() as u32) as usize;
            bytes[i] ^= 1_u8 << rng.below(8);
        }
        let _ = Value::decode(&bytes);
        let _ = Envelope::decode(&bytes);
    }
}

#[test]
fn value_roundtrip_random() {
    let mut rng = Rng(0x5EED);
    for _ in 0..5_000 {
        let value = gen_value(&mut rng, 5);
        let bytes = value.encode();
        assert_eq!(Value::decode(&bytes), Ok(value.clone()), "roundtrip {value:?}");
    }
}

#[test]
fn a_clone_is_equal_and_a_missing_kind_names_itself() {
    let v = Value::List(vec![Value::Handle(1), Value::Float(2.5f64.to_bits())]);
    assert_eq!(v.clone(), v);
    assert_eq!(v.kind_name(), "list");
    assert_eq!(Value::Float(0).kind_name(), "float");
}

#[test]
fn wire_errors_read_as_their_messages() {
    assert_eq!(WireError::Truncated.message(), "input ended mid-value");
    assert_eq!(WireError::BadTag(0xFF).message(), "unknown value tag 0xff");
    assert_eq!(WireError::BadBool(2).message(), "bad boolean byte 0x02");
    assert_eq!(WireError::BadVersion(9).message(), "unsupported wire version 9");
    assert_eq!(
        WireError::BadFlags(1).message(),
        "reserved flags must be zero, got 0x0001"
    );
    assert_eq!(WireError::DepthExceeded.message(), "value nested deeper than 64");
    assert_eq!(
        WireError::DuplicateKey("a\"b".to_owned()).message(),
        "duplicate dict key \"a\\\"b\""
    );
    assert_eq!(
        WireError::BadHandleIndex { index: 5, count: 2 }.message(),
        "handle index 5 out of range (count 2)"
    );
    assert_eq!(
        WireError::TypeMismatch {
            expected: "dict",
            found: "int"
        }
        .message(),
        "expected dict, found int"
    );
    assert_eq!(
        WireError::MissingField("outcome").message(),
        "missing required field \"outcome\""
    );
    assert_eq!(
        WireError::IntOutOfRange {
            value: i64::MIN,
            target: "u8"
        }
        .message(),
        "integer -9223372036854775808 out of range for u8"
    );
    assert_eq!(
        WireError::HandleFdMismatch { handles: 2, fds: 1 }.message(),
        "handle table has 2 entries but 1 descriptors arrived"
    );
    assert_eq!(WireError::HandleTaken(3).message(), "handle 3 already taken");
}

#[test]
fn a_wire_message_writes_the_quoted_text_where_the_string_goes() {
    assert_eq!(
        WireError::DuplicateKey("k".to_owned()).message_quoting("<k>"),
        "duplicate dict key <k>"
    );
    assert_eq!(
        WireError::MissingField("outcome").message_quoting("'outcome'"),
        "missing required field 'outcome'"
    );
    assert_eq!(
        WireError::UnknownVariant("Gone".to_owned()).message_quoting("\"Gone\""),
        "unknown variant \"Gone\""
    );
    assert_eq!(
        WireError::Truncated.message_quoting("unused"),
        "input ended mid-value"
    );
    assert_eq!(
        WireError::UnknownVariant("x\ny".to_owned()).message(),
        WireError::UnknownVariant("x\ny".to_owned()).message_quoting("\"x\\ny\"")
    );
}
