//! The capability layer's plain parts: rights as compile-time typestate,
//! and the handle-table body an fd capability serializes to when it
//! crosses a process boundary.

use vstd::prelude::*;
use crate::msg::bytes::{le32, push_all, push_u32, u32_at, lemma_u32_roundtrip};

verus! {

/// The `RawHandle` kind of an fd capability.
pub const KIND_FD_CAPABILITY: u8 = 1;

/// The encoded length of a [`CapBody`].
pub const CAP_BODY_LEN: usize = 20;

/// A set of object rights, fixed at compile time.
pub trait Rights {
    /// The object-rights bits this set grants.
    const MASK: u32;
}

/// A rights set contained in `Whole`: what a capability of rights `Whole`
/// may be narrowed to.
pub trait SubsetOf<Whole: Rights>: Rights {
}

impl<R: Rights> SubsetOf<R> for R {
}

/// An interface: the messages a capability of this interface carries.
pub trait Interface {
    /// The message type carried by this interface's ring.
    type Message;

    /// This interface's id, stamped into the header of every envelope on
    /// its ring.
    const ID: u32;
}

/// The handle-table body of an fd capability: the Capsicum rights mask
/// the fd is limited to, and the object rights it carries.
#[derive(Debug, Clone, Copy, PartialEq, Eq)]
pub struct CapBody {
    /// The `cap_rights_t` words, as raw bytes.
    pub cap_rights: [u8; 16],
    /// The interface-level object-rights mask.
    pub object_rights: u32,
}

/// A capability body that could not be decoded.
#[derive(Debug, Clone, Copy, PartialEq, Eq, Structural)]
pub enum CapBodyError {
    /// The body was not exactly [`CAP_BODY_LEN`] bytes.
    WrongLength { found: usize },
}

/// The body bytes of a capability: the rights mask, then the object
/// rights little-endian.
pub open spec fn body_bytes(cap_rights: Seq<u8>, object_rights: u32) -> Seq<u8> {
    cap_rights + le32(object_rights)
}

/// What decoding `body` yields.
pub open spec fn body_decoded(body: Seq<u8>) -> Result<(Seq<u8>, u32), CapBodyError> {
    if body.len() != CAP_BODY_LEN {
        Err(CapBodyError::WrongLength { found: body.len() as usize })
    } else {
        Ok((body.subrange(0, 16), u32_at(body, 16)))
    }
}

impl CapBody {
    /// Encode to the handle-table body bytes.
    pub fn encode(&self) -> (out: Vec<u8>)
        ensures
            out@ == body_bytes(self.cap_rights@, self.object_rights),
            out@.len() == CAP_BODY_LEN,
    {
        let mut out: Vec<u8> = Vec::new();
        push_all(&mut out, self.cap_rights.as_slice());
        push_u32(&mut out, self.object_rights);
        assert(out@ =~= body_bytes(self.cap_rights@, self.object_rights));
        out
    }

    /// Decode handle-table body bytes; any length but [`CAP_BODY_LEN`] is
    /// rejected.
    pub fn decode(body: &[u8]) -> (r: Result<CapBody, CapBodyError>)
        ensures
            match body_decoded(body@) {
                Ok((rights, object)) => r matches Ok(b) && b.cap_rights@ == rights
                    && b.object_rights == object,
                Err(e) => r == Err::<CapBody, CapBodyError>(e),
            },
    {
        if body.len() != CAP_BODY_LEN {
            return Err(CapBodyError::WrongLength { found: body.len() });
        }
        let cap_rights: [u8; 16] = [
            body[0],
            body[1],
            body[2],
            body[3],
            body[4],
            body[5],
            body[6],
            body[7],
            body[8],
            body[9],
            body[10],
            body[11],
            body[12],
            body[13],
            body[14],
            body[15],
        ];
        let object_rights = (body[16] as u32) | ((body[17] as u32) << 8u32) | ((body[18] as u32)
            << 16u32) | ((body[19] as u32) << 24u32);
        assert(cap_rights@ =~= body@.subrange(0, 16));
        Ok(CapBody { cap_rights, object_rights })
    }
}

/// Decoding the bytes of an encoded body gives the body back.
pub proof fn lemma_body_roundtrip(cap_rights: Seq<u8>, object_rights: u32)
    requires
        cap_rights.len() == 16,
    ensures
        body_decoded(body_bytes(cap_rights, object_rights)) == Ok::<
            (Seq<u8>, u32),
            CapBodyError,
        >((cap_rights, object_rights)),
{
    let b = body_bytes(cap_rights, object_rights);
    assert(b.subrange(0, 16) =~= cap_rights);
    assert(b[16] == le32(object_rights)[0]);
    assert(b[17] == le32(object_rights)[1]);
    assert(b[18] == le32(object_rights)[2]);
    assert(b[19] == le32(object_rights)[3]);
    lemma_u32_roundtrip(object_rights);
}

impl CapBodyError {
    /// The message this rejection reads as.
    pub fn message(&self) -> (m: String)
        ensures
            m@ == (match self {
                CapBodyError::WrongLength { found } => "a capability body must be 20 bytes, got "@
                    + crate::log::decimal(*found as nat),
            }),
    {
        let mut out: Vec<char> = Vec::new();
        match self {
            CapBodyError::WrongLength { found } => {
                crate::text::put_str(&mut out, "a capability body must be 20 bytes, got ");
                crate::text::put_decimal(&mut out, *found as u64);
            },
        }
        crate::text::string_of(out.as_slice())
    }
}

} // verus!
