use abyss::bundle::{
    Bundle, CasperChannel, Grant, KEY_CAPABILITY, KEY_CASPER_CHANNELS, KEY_CHANNEL, KEY_GRANTS,
    KEY_INTERFACE, KEY_OUTCOME, KEY_ROLE, KEY_SERVICE, KIND_CASPER_CHANNEL, PeerRestarted,
    ROLE_CLIENT, Role, SpawnChild, SpawnReply,
};
use abyss::bootstrap::Startup;
use abyss::cap::{CapBody, KIND_FD_CAPABILITY};
use abyss::msg::envelope::{Envelope, Header, MessageKind, RawHandle};
use abyss::msg::error::WireError;
use abyss::msg::value::Value;
use abyss::msg::wire::{HandleSink, HandleStore, Wire};

/// A throwaway descriptor number; the schema does not care what the
/// descriptor is, only that one rides each grant.
fn a_descriptor() -> i32 {
    7
}

/// A `CapBody` stamped with a recognisable byte.
fn rights(mark: u8) -> CapBody {
    CapBody {
        cap_rights: [mark; 16],
        object_rights: u32::from(mark),
    }
}

fn sample_bundle() -> Bundle<i32> {
    Bundle {
        grants: vec![
            Grant {
                interface: "input".to_owned(),
                role: Role::Client,
                rights: rights(0x11),
                endpoint: a_descriptor(),
            },
            Grant {
                interface: "display".to_owned(),
                role: Role::Server,
                rights: rights(0x22),
                endpoint: a_descriptor(),
            },
        ],
        casper_channels: Vec::new(),
    }
}

fn assert_matches_sample(decoded: &Bundle<i32>) {
    assert_eq!(decoded.grants.len(), 2);
    assert_eq!(decoded.grants[0].interface, "input");
    assert_eq!(decoded.grants[0].role, Role::Client);
    assert_eq!(decoded.grants[0].rights, rights(0x11));
    assert_eq!(decoded.grants[1].interface, "display");
    assert_eq!(decoded.grants[1].role, Role::Server);
    assert_eq!(decoded.grants[1].rights, rights(0x22));
}

#[test]
fn a_bundle_round_trips_through_the_handle_table() {
    let mut sink = HandleSink::new();
    let value = sample_bundle().to_wire(&mut sink);
    let (handles, fds) = sink.into_parts();

    // One handle and one descriptor per grant.
    assert_eq!(handles.len(), 2);
    assert_eq!(fds.len(), 2);
    assert!(handles.iter().all(|h| h.kind == KIND_FD_CAPABILITY));

    let mut store = HandleStore::new(handles, fds).expect("the handle store builds");
    let decoded = Bundle::from_wire(&value, &mut store).expect("the bundle decodes");
    assert_matches_sample(&decoded);
}

#[test]
fn a_bundle_survives_a_full_envelope_round_trip() {
    let header = Header {
        kind: MessageKind::Event,
        interface_id: 0,
        method_id: 0,
    };
    let (envelope, fds) = Envelope::from_message(header, &sample_bundle());
    let decoded = envelope
        .into_message::<Bundle<i32>, i32>(fds)
        .expect("the bundle decodes from its envelope");
    assert_matches_sample(&decoded);
}

#[test]
fn an_empty_bundle_round_trips() {
    let mut sink = HandleSink::new();
    let value = Bundle::<i32> {
        grants: Vec::new(),
        casper_channels: Vec::new(),
    }
    .to_wire(&mut sink);
    let (handles, fds) = sink.into_parts();
    assert!(handles.is_empty());

    let mut store = HandleStore::new(handles, fds).expect("store");
    let decoded = Bundle::<i32>::from_wire(&value, &mut store).expect("decode");
    assert!(decoded.grants.is_empty());
    assert!(decoded.casper_channels.is_empty());
}

/// A bundle's wire form holding one grant dict and no Casper channels.
fn bundle_value_with_one_grant(grant: Value) -> Value {
    Value::Dict(vec![
        (KEY_GRANTS.to_owned(), Value::List(vec![grant])),
        (KEY_CASPER_CHANNELS.to_owned(), Value::List(Vec::new())),
    ])
}

#[test]
fn a_grant_handle_of_the_wrong_kind_is_rejected() {
    let value = bundle_value_with_one_grant(Value::Dict(vec![
        (KEY_INTERFACE.to_owned(), Value::Str("input".to_owned())),
        (KEY_ROLE.to_owned(), Value::Str(ROLE_CLIENT.to_owned())),
        (KEY_CAPABILITY.to_owned(), Value::Handle(0)),
    ]));
    let handles = vec![RawHandle {
        kind: KIND_FD_CAPABILITY + 1,
        body: rights(0).encode(),
    }];
    let mut store = HandleStore::new(handles, vec![a_descriptor()]).expect("store");

    match Bundle::from_wire(&value, &mut store) {
        Err(WireError::MalformedHandle(_)) => {}
        other => panic!("expected MalformedHandle, got {other:?}"),
    }
}

#[test]
fn an_unknown_role_token_is_rejected() {
    let value = bundle_value_with_one_grant(Value::Dict(vec![
        (KEY_INTERFACE.to_owned(), Value::Str("input".to_owned())),
        (KEY_ROLE.to_owned(), Value::Str("bystander".to_owned())),
        (KEY_CAPABILITY.to_owned(), Value::Handle(0)),
    ]));
    let handles = vec![RawHandle {
        kind: KIND_FD_CAPABILITY,
        body: rights(0).encode(),
    }];
    let mut store = HandleStore::new(handles, vec![a_descriptor()]).expect("store");

    match Bundle::from_wire(&value, &mut store) {
        Err(WireError::UnknownVariant(token)) => assert_eq!(token, "bystander"),
        other => panic!("expected UnknownVariant, got {other:?}"),
    }
}

#[test]
fn a_peer_restarted_round_trips_through_the_handle_table() {
    let restarted = PeerRestarted {
        grant: Grant {
            interface: "input".to_owned(),
            role: Role::Client,
            rights: rights(0x33),
            endpoint: a_descriptor(),
        },
    };
    let mut sink = HandleSink::new();
    let value = restarted.to_wire(&mut sink);
    let (handles, fds) = sink.into_parts();
    assert_eq!(handles.len(), 1, "the fresh ring rides one handle");

    let mut store = HandleStore::new(handles, fds).expect("the handle store builds");
    let decoded = PeerRestarted::from_wire(&value, &mut store).expect("the message decodes");
    assert_eq!(decoded.grant.interface, "input");
    assert_eq!(decoded.grant.role, Role::Client);
    assert_eq!(decoded.grant.rights, rights(0x33));
}

#[test]
fn a_spawn_child_request_round_trips() {
    let request = SpawnChild {
        manifest: "text-editor".to_owned(),
    };
    let mut sink: HandleSink<i32> = HandleSink::new();
    let value = request.to_wire(&mut sink);
    let (handles, fds) = sink.into_parts();
    assert!(handles.is_empty(), "a SpawnChild carries no descriptors");

    let mut store = HandleStore::new(handles, fds).expect("the handle store builds");
    let decoded = SpawnChild::from_wire(&value, &mut store).expect("the request decodes");
    assert_eq!(decoded, request);
}

#[test]
fn a_spawn_reply_round_trips_both_outcomes() {
    for reply in [
        SpawnReply::Spawned,
        SpawnReply::Refused("no such spawnable manifest".to_owned()),
    ] {
        let mut sink: HandleSink<i32> = HandleSink::new();
        let value = reply.to_wire(&mut sink);
        let (handles, fds) = sink.into_parts();
        let mut store = HandleStore::new(handles, fds).expect("the handle store builds");
        let decoded = SpawnReply::from_wire(&value, &mut store).expect("the reply decodes");
        assert_eq!(decoded, reply);
    }
}

#[test]
fn an_unknown_spawn_outcome_is_rejected() {
    let value = Value::Dict(vec![(KEY_OUTCOME.to_owned(), Value::Str("maybe".to_owned()))]);
    let mut store = HandleStore::<i32>::new(vec![], vec![]).expect("store");
    match SpawnReply::from_wire(&value, &mut store) {
        Err(WireError::UnknownVariant(token)) => assert_eq!(token, "maybe"),
        other => panic!("expected UnknownVariant, got {other:?}"),
    }
}

#[test]
fn a_casper_channel_round_trips_through_the_handle_table() {
    let channel = CasperChannel {
        service: "system.dns".to_owned(),
        channel: a_descriptor(),
    };
    let mut sink = HandleSink::new();
    let value = channel.to_wire(&mut sink);
    let (handles, fds) = sink.into_parts();
    assert_eq!(handles.len(), 1, "the channel rides one handle");
    assert_eq!(
        handles[0].kind, KIND_CASPER_CHANNEL,
        "kind tags it a Casper channel, not an fd capability",
    );
    assert!(handles[0].body.is_empty(), "no rights metadata of its own");

    let mut store = HandleStore::new(handles, fds).expect("the handle store builds");
    let decoded = CasperChannel::from_wire(&value, &mut store).expect("the channel decodes");
    assert_eq!(decoded.service, "system.dns");
}

#[test]
fn a_bundle_carries_grants_and_casper_channels_side_by_side() {
    let bundle = Bundle {
        grants: vec![Grant {
            interface: "input".to_owned(),
            role: Role::Client,
            rights: rights(0x55),
            endpoint: a_descriptor(),
        }],
        casper_channels: vec![CasperChannel {
            service: "system.dns".to_owned(),
            channel: a_descriptor(),
        }],
    };
    let mut sink = HandleSink::new();
    let value = bundle.to_wire(&mut sink);
    let (handles, fds) = sink.into_parts();
    // One handle per grant and one per Casper channel; their kinds tell
    // them apart on the wire.
    assert_eq!(handles.len(), 2);
    assert_eq!(fds.len(), 2);
    let kinds: Vec<u8> = handles.iter().map(|h| h.kind).collect();
    assert!(kinds.contains(&KIND_FD_CAPABILITY));
    assert!(kinds.contains(&KIND_CASPER_CHANNEL));

    let mut store = HandleStore::new(handles, fds).expect("the handle store builds");
    let decoded = Bundle::from_wire(&value, &mut store).expect("the bundle decodes");
    assert_eq!(decoded.grants.len(), 1);
    assert_eq!(decoded.grants[0].interface, "input");
    assert_eq!(decoded.casper_channels.len(), 1);
    assert_eq!(decoded.casper_channels[0].service, "system.dns");
}

#[test]
fn a_casper_handle_of_the_wrong_kind_is_rejected() {
    let value = Value::Dict(vec![
        (KEY_SERVICE.to_owned(), Value::Str("system.dns".to_owned())),
        (KEY_CHANNEL.to_owned(), Value::Handle(0)),
    ]);
    let handles = vec![RawHandle {
        kind: KIND_FD_CAPABILITY,
        body: Vec::new(),
    }];
    let mut store = HandleStore::new(handles, vec![a_descriptor()]).expect("store");
    match CasperChannel::from_wire(&value, &mut store) {
        Err(WireError::MalformedHandle(_)) => {}
        other => panic!("expected MalformedHandle, got {other:?}"),
    }
}

#[test]
fn a_decoded_bundle_takes_each_handle_once() {
    // Decoding the same value twice against one store finds the handles
    // already taken.
    let mut sink = HandleSink::new();
    let value = sample_bundle().to_wire(&mut sink);
    let (handles, fds) = sink.into_parts();
    let mut store = HandleStore::new(handles, fds).expect("store");
    assert!(Bundle::from_wire(&value, &mut store).is_ok());
    assert_eq!(
        Bundle::<i32>::from_wire(&value, &mut store).err(),
        Some(WireError::HandleTaken(0))
    );
    // A grant whose capability is not a handle is a type mismatch.
    let not_a_handle = bundle_value_with_one_grant(Value::Dict(vec![
        (KEY_INTERFACE.to_owned(), Value::Str("input".to_owned())),
        (KEY_ROLE.to_owned(), Value::Str(ROLE_CLIENT.to_owned())),
        (KEY_CAPABILITY.to_owned(), Value::Int(0)),
    ]));
    assert_eq!(
        Bundle::<i32>::from_wire(&not_a_handle, &mut store).err(),
        Some(WireError::TypeMismatch {
            expected: "handle",
            found: "int"
        })
    );
}

#[test]
fn take_casper_channel_claims_by_service_exactly_once() {
    let mut startup = Startup::new(
        Bundle {
            grants: Vec::new(),
            casper_channels: vec![CasperChannel {
                service: "system.dns".to_owned(),
                channel: a_descriptor(),
            }],
        },
        3,
    );
    assert_eq!(startup.casper_channels().len(), 1);

    let claimed = startup
        .take_casper_channel("system.dns")
        .expect("a system.dns channel was offered");
    assert_eq!(claimed.service, "system.dns");

    // The channel is removed from the bundle on claim: the next take for
    // the same service finds nothing.
    assert!(startup.take_casper_channel("system.dns").is_none());
    assert!(startup.casper_channels().is_empty());
}

#[test]
fn grants_are_claimed_by_role_and_interface_exactly_once() {
    let mut startup = Startup::new(sample_bundle(), 3);
    assert_eq!(startup.grants().len(), 2);
    // `input` is held as a client, not a server.
    assert!(startup.take_server_grant("input").is_none());
    let client = startup.take_client_grant("input").expect("the input client end");
    assert_eq!(client.rights, rights(0x11));
    assert!(startup.take_client_grant("input").is_none());
    let server = startup.take_server_grant("display").expect("the display service end");
    assert_eq!(server.role, Role::Server);
    assert!(startup.grants().is_empty());
    assert_eq!(startup.bootstrap, 3);
}
