//! The cross-process envelope: header, payload value, and handle table.

use vstd::prelude::*;
use crate::msg::bytes::{le16, le32, push_all, push_u16, push_u32, u16_at, u32_at};
use crate::msg::cursor::{Decoder, parse_blob};
use crate::msg::decode::decode_spec;
use crate::msg::error::{WireError, WireFault};
use crate::msg::value::{Value, ValueView, blob, enc, encodable, write_blob};

verus! {

/// The wire-format version this build speaks.
pub const WIRE_VERSION: u8 = 1;

/// The kind of a message.
#[derive(Debug, Clone, Copy, PartialEq, Eq)]
pub enum MessageKind {
    Request,
    Command,
    Event,
}

/// The byte a message kind travels as.
pub open spec fn kind_byte(kind: MessageKind) -> u8 {
    match kind {
        MessageKind::Request => 1,
        MessageKind::Command => 2,
        MessageKind::Event => 3,
    }
}

/// The message kind a byte names, if any.
pub open spec fn kind_of_byte(byte: u8) -> Option<MessageKind> {
    if byte == 1 {
        Some(MessageKind::Request)
    } else if byte == 2 {
        Some(MessageKind::Command)
    } else if byte == 3 {
        Some(MessageKind::Event)
    } else {
        None
    }
}

impl MessageKind {
    /// The byte this kind travels as.
    pub fn to_byte(self) -> (b: u8)
        ensures
            b == kind_byte(self),
    {
        match self {
            MessageKind::Request => 1,
            MessageKind::Command => 2,
            MessageKind::Event => 3,
        }
    }

    /// The kind a byte names; any other byte is a `BadKind`.
    pub fn from_byte(byte: u8) -> (r: Result<MessageKind, WireError>)
        ensures
            match kind_of_byte(byte) {
                Some(k) => r == Ok::<MessageKind, WireError>(k),
                None => r matches Err(e) && e@ == WireFault::BadKind(byte),
            },
    {
        match byte {
            1 => Ok(MessageKind::Request),
            2 => Ok(MessageKind::Command),
            3 => Ok(MessageKind::Event),
            other => Err(WireError::BadKind(other)),
        }
    }
}

/// The semantic fields of an envelope header. `version` and `flags` are
/// format-level constants the codec handles.
#[derive(Debug, Clone, Copy, PartialEq, Eq)]
pub struct Header {
    pub kind: MessageKind,
    pub interface_id: u32,
    pub method_id: u16,
}

/// One handle-table entry, opaque to the envelope: a kind and a body.
#[derive(Debug, Clone, PartialEq, Eq)]
pub struct RawHandle {
    pub kind: u8,
    pub body: Vec<u8>,
}

impl View for RawHandle {
    type V = (u8, Seq<u8>);

    open spec fn view(&self) -> (u8, Seq<u8>) {
        (self.kind, self.body@)
    }
}

/// A complete envelope: header, payload value, and handle table.
#[derive(Debug, Clone, PartialEq)]
pub struct Envelope {
    pub header: Header,
    pub payload: Value,
    pub handles: Vec<RawHandle>,
}

/// The mathematical form of an [`Envelope`].
pub struct EnvelopeView {
    pub header: Header,
    pub payload: ValueView,
    pub handles: Seq<(u8, Seq<u8>)>,
}

impl View for Envelope {
    type V = EnvelopeView;

    open spec fn view(&self) -> EnvelopeView {
        EnvelopeView { header: self.header, payload: self.payload@, handles: self.handles@.map_values(|h: RawHandle| h@) }
    }
}

impl Envelope {
    /// Encode to bytes. The envelope must fit its own limits: at most
    /// 65535 handles and every section within 4 GiB.
    pub fn encode(&self) -> (out: Vec<u8>)
        requires
            envelope_encodable(self@),
        ensures
            out@ == enc_envelope(self@),
    {
        let payload = self.payload.encode();
        let handle_count = self.handles.len() as u16;
        let payload_len = payload.len() as u32;
        let mut out: Vec<u8> = Vec::new();
        out.push(WIRE_VERSION);
        out.push(self.header.kind.to_byte());
        push_u16(&mut out, 0);
        push_u32(&mut out, self.header.interface_id);
        push_u16(&mut out, self.header.method_id);
        push_u16(&mut out, handle_count);
        push_u32(&mut out, payload_len);
        push_all(&mut out, payload.as_slice());
        let ghost head = out@;
        assert(head =~= enc_header(self.header, handle_count, payload_len) + enc(self.payload@));
        let ghost hs = self@.handles;
        let mut i: usize = 0;
        while i < self.handles.len()
            invariant
                i <= self.handles@.len(),
                hs == self@.handles,
                hs.len() == self.handles@.len(),
                envelope_encodable(self@),
                out@ == head + enc_handles(hs.subrange(0, i as int)),
            decreases self.handles@.len() - i,
        {
            let handle = &self.handles[i];
            assert(hs[i as int] == handle@);
            out.push(handle.kind);
            write_blob(&mut out, handle.body.as_slice());
            assert(hs.subrange(0, i + 1).subrange(0, i as int) =~= hs.subrange(0, i as int));
            i = i + 1;
            assert(out@ =~= head + enc_handles(hs.subrange(0, i as int)));
        }
        assert(hs.subrange(0, hs.len() as int) =~= hs);
        assert(out@ =~= enc_envelope(self@));
        out
    }

    /// Decode an envelope. Total: malformed input yields an error, never
    /// a panic.
    #[verifier::loop_isolation(false)]
    pub fn decode(bytes: &[u8]) -> (r: Result<Envelope, WireError>)
        ensures
            match decode_envelope_spec(bytes@) {
                Ok(e) => r matches Ok(x) && x@ == e,
                Err(e) => r matches Err(x) && x@ == e,
            },
    {
        let mut d = Decoder::new(bytes);
        let version = d.u8()?;
        if version != WIRE_VERSION {
            return Err(WireError::BadVersion(version));
        }
        let kind = MessageKind::from_byte(d.u8()?)?;
        let flags = d.u16()?;
        if flags != 0 {
            return Err(WireError::BadFlags(flags));
        }
        let interface_id = d.u32()?;
        let method_id = d.u16()?;
        let handle_count = d.u16()?;
        let payload_len = d.u32()? as usize;
        let payload = Value::decode(d.take(payload_len)?)?;
        let ghost buf = bytes@;
        let ghost start = d.pos as int;
        let mut handles: Vec<RawHandle> = Vec::new();
        let mut n: u16 = 0;
        assert(handles@.map_values(|h: RawHandle| h@) =~= Seq::<(u8, Seq<u8>)>::empty());
        while n < handle_count
            invariant
                d.wf(),
                d.buf@ == buf,
                n <= handle_count,
                parse_handles(buf, start, n as int) == Ok::<(Seq<(u8, Seq<u8>)>, int), WireFault>(
                    (handles@.map_values(|h: RawHandle| h@), d.pos as int),
                ),
            decreases handle_count - n,
        {
            let ghost before = handles@.map_values(|h: RawHandle| h@);
            proof {
                reveal_with_fuel(parse_handles, 2);
            }
            let k = match d.u8() {
                Ok(k) => k,
                Err(e) => {
                    proof {
                        lemma_parse_handles_err_persists(buf, start, n + 1, handle_count as int);
                    }
                    return Err(e);
                },
            };
            let body = match d.blob() {
                Ok(b) => vstd::slice::slice_to_vec(b),
                Err(e) => {
                    proof {
                        lemma_parse_handles_err_persists(buf, start, n + 1, handle_count as int);
                    }
                    return Err(e);
                },
            };
            handles.push(RawHandle { kind: k, body });
            n = n + 1;
            assert(handles@.map_values(|h: RawHandle| h@) =~= before.push((k, body@)));
        }
        if !d.at_end() {
            return Err(WireError::TrailingBytes);
        }
        check_handle_indices(&payload, handle_count)?;
        Ok(Envelope { header: Header { kind, interface_id, method_id }, payload, handles })
    }
}

/// A failed handle table stays failed, with the same error, however many
/// more entries were announced.
pub proof fn lemma_parse_handles_err_persists(buf: Seq<u8>, pos: int, k: int, j: int)
    requires
        0 <= k <= j,
        parse_handles(buf, pos, k) is Err,
    ensures
        parse_handles(buf, pos, j) == parse_handles(buf, pos, k),
    decreases j - k,
{
    if k < j {
        lemma_parse_handles_err_persists(buf, pos, k, j - 1);
    }
}

/// The encoded handle table.
pub open spec fn enc_handles(hs: Seq<(u8, Seq<u8>)>) -> Seq<u8>
    decreases hs.len(),
{
    if hs.len() == 0 {
        Seq::empty()
    } else {
        enc_handles(hs.subrange(0, hs.len() - 1)) + seq![hs[hs.len() - 1].0] + blob(
            hs[hs.len() - 1].1,
        )
    }
}

/// The sixteen header bytes.
pub open spec fn enc_header(h: Header, handle_count: u16, payload_len: u32) -> Seq<u8> {
    seq![WIRE_VERSION, kind_byte(h.kind)] + le16(0) + le32(h.interface_id) + le16(h.method_id)
        + le16(handle_count) + le32(payload_len)
}

/// The byte encoding of an envelope.
pub open spec fn enc_envelope(e: EnvelopeView) -> Seq<u8> {
    enc_header(e.header, e.handles.len() as u16, enc(e.payload).len() as u32) + enc(e.payload)
        + enc_handles(e.handles)
}

/// The envelope's own limits: at most 65535 handles, and every section
/// within 4 GiB.
pub open spec fn envelope_encodable(e: EnvelopeView) -> bool {
    &&& encodable(e.payload)
    &&& enc(e.payload).len() <= u32::MAX
    &&& e.handles.len() <= u16::MAX
    &&& forall|i: int| 0 <= i < e.handles.len() ==> (#[trigger] e.handles[i]).1.len() <= u32::MAX
}

/// The handle table read from `pos`: `count` entries, each a kind byte
/// and a blob.
pub open spec fn parse_handles(buf: Seq<u8>, pos: int, count: int) -> Result<
    (Seq<(u8, Seq<u8>)>, int),
    WireFault,
>
    decreases count,
{
    if count <= 0 {
        Ok((Seq::empty(), pos))
    } else {
        match parse_handles(buf, pos, count - 1) {
            Err(e) => Err(e),
            Ok((hs, q)) => if q + 1 > buf.len() {
                Err(WireFault::Truncated)
            } else {
                match parse_blob(buf, q + 1) {
                    Err(e) => Err(e),
                    Ok((b, r)) => Ok((hs.push((buf[q], b)), r)),
                }
            },
        }
    }
}

/// The first `Value::Handle` index, in reading order, that names no
/// entry of a `count`-entry handle table.
pub open spec fn handle_check(v: ValueView, count: u16) -> Result<(), WireFault>
    decreases v,
{
    match v {
        ValueView::Handle(index) => if count as u32 <= index {
            Err(WireFault::BadHandleIndex { index, count })
        } else {
            Ok(())
        },
        ValueView::List(items) => handle_check_list(items, count),
        ValueView::Dict(entries) => handle_check_entries(entries, count),
        ValueView::Variant(_, Some(inner)) => handle_check(*inner, count),
        _ => Ok(()),
    }
}

pub open spec fn handle_check_list(items: Seq<ValueView>, count: u16) -> Result<(), WireFault>
    decreases items,
{
    if items.len() == 0 {
        Ok(())
    } else {
        match handle_check_list(items.subrange(0, items.len() - 1), count) {
            Err(e) => Err(e),
            Ok(()) => handle_check(items[items.len() - 1], count),
        }
    }
}

pub open spec fn handle_check_entries(entries: Seq<(Seq<char>, ValueView)>, count: u16) -> Result<
    (),
    WireFault,
>
    decreases entries,
{
    if entries.len() == 0 {
        Ok(())
    } else {
        match handle_check_entries(entries.subrange(0, entries.len() - 1), count) {
            Err(e) => Err(e),
            Ok(()) => handle_check(entries[entries.len() - 1].1, count),
        }
    }
}

/// What decoding an envelope from `bytes` yields.
pub open spec fn decode_envelope_spec(bytes: Seq<u8>) -> Result<EnvelopeView, WireFault> {
    if bytes.len() < 1 {
        Err(WireFault::Truncated)
    } else if bytes[0] != WIRE_VERSION {
        Err(WireFault::BadVersion(bytes[0]))
    } else if bytes.len() < 2 {
        Err(WireFault::Truncated)
    } else if kind_of_byte(bytes[1]) is None {
        Err(WireFault::BadKind(bytes[1]))
    } else if bytes.len() < 4 {
        Err(WireFault::Truncated)
    } else if u16_at(bytes, 2) != 0 {
        Err(WireFault::BadFlags(u16_at(bytes, 2)))
    } else if bytes.len() < 16 {
        Err(WireFault::Truncated)
    } else {
        let kind = kind_of_byte(bytes[1])->0;
        let interface_id = u32_at(bytes, 4);
        let method_id = u16_at(bytes, 8);
        let handle_count = u16_at(bytes, 10);
        let payload_len = u32_at(bytes, 12) as int;
        if 16 + payload_len > bytes.len() {
            Err(WireFault::Truncated)
        } else {
            match decode_spec(bytes.subrange(16, 16 + payload_len)) {
                Err(e) => Err(e),
                Ok(payload) => match parse_handles(bytes, 16 + payload_len, handle_count as int) {
                    Err(e) => Err(e),
                    Ok((handles, end)) => if end != bytes.len() {
                        Err(WireFault::TrailingBytes)
                    } else {
                        match handle_check(payload, handle_count) {
                            Err(e) => Err(e),
                            Ok(()) => Ok(
                                EnvelopeView {
                                    header: Header { kind, interface_id, method_id },
                                    payload,
                                    handles,
                                },
                            ),
                        }
                    },
                },
            }
        }
    }
}

/// Every `Value::Handle` in the payload must name a real handle-table
/// entry. The payload tree is depth-bounded by decoding, so this
/// recursion is bounded too.
pub fn check_handle_indices(value: &Value, count: u16) -> (r: Result<(), WireError>)
    ensures
        match handle_check(value@, count) {
            Ok(()) => r is Ok,
            Err(e) => r matches Err(x) && x@ == e,
        },
    decreases value,
{
    match value {
        Value::Handle(index) => {
            if (count as u32) <= *index {
                Err(WireError::BadHandleIndex { index: *index, count })
            } else {
                Ok(())
            }
        },
        Value::List(items) => {
            let mut i: usize = 0;
            while i < items.len()
                invariant
                    *value == Value::List(*items),
                    i <= items@.len(),
                    handle_check_list(
                        crate::msg::value::values_view(items@.subrange(0, i as int)),
                        count,
                    ) is Ok,
                decreases items@.len() - i,
            {
                proof {
                    assert(decreases_to!(*value => *items));
                    assert(decreases_to!(items => items@));
                    assert(decreases_to!(items@ => items@[i as int]));
                    crate::msg::value::lemma_values_view_take_push(items@, i as int);
                    let s = crate::msg::value::values_view(items@.subrange(0, i as int)).push(
                        items@[i as int]@,
                    );
                    assert(s.subrange(0, s.len() - 1) =~= crate::msg::value::values_view(
                        items@.subrange(0, i as int),
                    ));
                }
                match check_handle_indices(&items[i], count) {
                    Ok(()) => {},
                    Err(e) => {
                        proof {
                            lemma_handle_check_list_err(items@, i as int, count);
                        }
                        return Err(e);
                    },
                }
                i = i + 1;
            }
            assert(items@.subrange(0, items@.len() as int) =~= items@);
            Ok(())
        },
        Value::Dict(entries) => {
            let mut i: usize = 0;
            while i < entries.len()
                invariant
                    *value == Value::Dict(*entries),
                    i <= entries@.len(),
                    handle_check_entries(
                        crate::msg::value::entries_view(entries@.subrange(0, i as int)),
                        count,
                    ) is Ok,
                decreases entries@.len() - i,
            {
                proof {
                    assert(decreases_to!(*value => *entries));
                    assert(decreases_to!(entries => entries@));
                    assert(decreases_to!(entries@ => entries@[i as int]));
                    assert(decreases_to!(entries@[i as int] => entries@[i as int].1));
                    crate::msg::value::lemma_entries_view_take_push(entries@, i as int);
                    let s = crate::msg::value::entries_view(entries@.subrange(0, i as int)).push(
                        (entries@[i as int].0@, entries@[i as int].1@),
                    );
                    assert(s.subrange(0, s.len() - 1) =~= crate::msg::value::entries_view(
                        entries@.subrange(0, i as int),
                    ));
                }
                match check_handle_indices(&entries[i].1, count) {
                    Ok(()) => {},
                    Err(e) => {
                        proof {
                            lemma_handle_check_entries_err(entries@, i as int, count);
                        }
                        return Err(e);
                    },
                }
                i = i + 1;
            }
            assert(entries@.subrange(0, entries@.len() as int) =~= entries@);
            Ok(())
        },
        Value::Variant { value: Some(inner), .. } => check_handle_indices(inner, count),
        _ => Ok(()),
    }
}

proof fn lemma_handle_check_list_err(items: Seq<Value>, i: int, count: u16)
    requires
        0 <= i < items.len(),
        handle_check_list(crate::msg::value::values_view(items.subrange(0, i)), count) is Ok,
        handle_check(items[i]@, count) is Err,
    ensures
        handle_check_list(crate::msg::value::values_view(items), count) == handle_check(
            items[i]@,
            count,
        ),
    decreases items.len() - i,
{
    crate::msg::value::lemma_values_view_take_push(items, i);
    let s = crate::msg::value::values_view(items.subrange(0, i + 1));
    assert(s.subrange(0, s.len() - 1) =~= crate::msg::value::values_view(items.subrange(0, i)));
    lemma_handle_check_list_err_extends(items, i + 1, count);
}

proof fn lemma_handle_check_list_err_extends(items: Seq<Value>, k: int, count: u16)
    requires
        0 < k <= items.len(),
        handle_check_list(crate::msg::value::values_view(items.subrange(0, k)), count) is Err,
    ensures
        handle_check_list(crate::msg::value::values_view(items), count) == handle_check_list(
            crate::msg::value::values_view(items.subrange(0, k)),
            count,
        ),
    decreases items.len() - k,
{
    if k < items.len() {
        crate::msg::value::lemma_values_view_take_push(items, k);
        let s = crate::msg::value::values_view(items.subrange(0, k + 1));
        assert(s.subrange(0, s.len() - 1) =~= crate::msg::value::values_view(
            items.subrange(0, k),
        ));
        lemma_handle_check_list_err_extends(items, k + 1, count);
    } else {
        assert(items.subrange(0, k) =~= items);
    }
}

proof fn lemma_handle_check_entries_err(entries: Seq<(String, Value)>, i: int, count: u16)
    requires
        0 <= i < entries.len(),
        handle_check_entries(crate::msg::value::entries_view(entries.subrange(0, i)), count) is Ok,
        handle_check(entries[i].1@, count) is Err,
    ensures
        handle_check_entries(crate::msg::value::entries_view(entries), count) == handle_check(
            entries[i].1@,
            count,
        ),
{
    crate::msg::value::lemma_entries_view_take_push(entries, i);
    let s = crate::msg::value::entries_view(entries.subrange(0, i + 1));
    assert(s.subrange(0, s.len() - 1) =~= crate::msg::value::entries_view(
        entries.subrange(0, i),
    ));
    lemma_handle_check_entries_err_extends(entries, i + 1, count);
}

proof fn lemma_handle_check_entries_err_extends(entries: Seq<(String, Value)>, k: int, count: u16)
    requires
        0 < k <= entries.len(),
        handle_check_entries(crate::msg::value::entries_view(entries.subrange(0, k)), count) is Err,
    ensures
        handle_check_entries(crate::msg::value::entries_view(entries), count)
            == handle_check_entries(crate::msg::value::entries_view(entries.subrange(0, k)), count),
    decreases entries.len() - k,
{
    if k < entries.len() {
        crate::msg::value::lemma_entries_view_take_push(entries, k);
        let s = crate::msg::value::entries_view(entries.subrange(0, k + 1));
        assert(s.subrange(0, s.len() - 1) =~= crate::msg::value::entries_view(
            entries.subrange(0, k),
        ));
        lemma_handle_check_entries_err_extends(entries, k + 1, count);
    } else {
        assert(entries.subrange(0, k) =~= entries);
    }
}

} // verus!
