use abyss::cap::{CAP_BODY_LEN, CapBody, CapBodyError};

fn sample() -> CapBody {
    CapBody {
        cap_rights: [
            0x01, 0x02, 0x03, 0x04, 0x05, 0x06, 0x07, 0x08, 0x09, 0x0a, 0x0b, 0x0c, 0x0d, 0x0e,
            0x0f, 0x10,
        ],
        object_rights: 0xDEAD_BEEF,
    }
}

#[test]
fn round_trips_through_its_body_bytes() {
    let body = sample();
    let bytes = body.encode();
    assert_eq!(bytes.len(), CAP_BODY_LEN);
    assert_eq!(CapBody::decode(&bytes), Ok(body));
}

#[test]
fn object_rights_is_little_endian_after_the_rights_mask() {
    let bytes = sample().encode();
    assert_eq!(&bytes[16..], &0xDEAD_BEEF_u32.to_le_bytes());
}

#[test]
fn decode_rejects_a_body_of_the_wrong_length() {
    for len in [0, CAP_BODY_LEN - 1, CAP_BODY_LEN + 1] {
        assert_eq!(
            CapBody::decode(&vec![0u8; len]),
            Err(CapBodyError::WrongLength { found: len }),
        );
    }
}

#[test]
fn the_rights_mask_leads_the_body_unchanged() {
    let bytes = sample().encode();
    assert_eq!(&bytes[..16], &sample().cap_rights);
    let decoded = CapBody::decode(&bytes).unwrap();
    assert_eq!(decoded.object_rights, 0xDEAD_BEEF);
}
