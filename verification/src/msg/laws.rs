//! The codec's laws: what decoding gives back of an encoding.

use vstd::prelude::*;
use vstd::utf8::{decode_utf8, encode_utf8, valid_utf8, encode_utf8_decode_utf8, encode_utf8_valid_utf8};
use crate::msg::bytes::{
    le16, u16_at, lemma_u16_roundtrip, le32, le64, u32_at, u32_of, u64_at, u64_of, lemma_u32_roundtrip, lemma_u64_roundtrip,
    lemma_i64_bits, lemma_split_at,
};
use crate::msg::cursor::{parse_blob, parse_string};
use crate::msg::decode::{keys_of, parse_dict, parse_list, parse_value, decode_spec};
use crate::msg::envelope::{
    EnvelopeView, Header, decode_envelope_spec, enc_envelope, enc_handles, enc_header,
    envelope_encodable, handle_check, kind_byte, kind_of_byte, parse_handles,
};
use crate::msg::error::WireFault;
use crate::msg::value::{
    ValueView, MAX_DEPTH, TAG_BOOL, TAG_BYTES, TAG_DICT, TAG_FLOAT, TAG_HANDLE, TAG_INT, TAG_LIST,
    TAG_STR, TAG_VARIANT, blob, enc, enc_entries, enc_list,
};

verus! {

/// A value the codec carries faithfully when read at nesting `depth`:
/// every section fits a `u32` length, no dict repeats a name, and nothing
/// is nested deeper than `MAX_DEPTH`.
pub open spec fn wire_ok(v: ValueView, depth: int) -> bool
    decreases v,
{
    depth <= MAX_DEPTH && match v {
        ValueView::Str(s) => encode_utf8(s).len() <= u32::MAX,
        ValueView::Bytes(b) => b.len() <= u32::MAX,
        ValueView::List(items) => items.len() <= u32::MAX && wire_ok_list(items, depth + 1),
        ValueView::Dict(entries) => entries.len() <= u32::MAX && keys_of(entries).no_duplicates()
            && wire_ok_entries(entries, depth + 1),
        ValueView::Variant(tag, value) => encode_utf8(tag).len() <= u32::MAX && match value {
            Some(inner) => wire_ok(*inner, depth + 1),
            None => true,
        },
        _ => true,
    }
}

pub open spec fn wire_ok_list(items: Seq<ValueView>, depth: int) -> bool
    decreases items,
{
    if items.len() == 0 {
        true
    } else {
        wire_ok_list(items.subrange(0, items.len() - 1), depth) && wire_ok(
            items[items.len() - 1],
            depth,
        )
    }
}

pub open spec fn wire_ok_entries(entries: Seq<(Seq<char>, ValueView)>, depth: int) -> bool
    decreases entries,
{
    if entries.len() == 0 {
        true
    } else {
        wire_ok_entries(entries.subrange(0, entries.len() - 1), depth) && encode_utf8(
            entries[entries.len() - 1].0,
        ).len() <= u32::MAX && wire_ok(entries[entries.len() - 1].1, depth)
    }
}

/// `buf[pos..]` begins with `bytes`.
pub open spec fn holds_at(buf: Seq<u8>, pos: int, bytes: Seq<u8>) -> bool {
    0 <= pos && pos + bytes.len() <= buf.len() && buf.subrange(pos, pos + bytes.len()) == bytes
}

proof fn lemma_holds_index(buf: Seq<u8>, pos: int, bytes: Seq<u8>, k: int)
    requires
        holds_at(buf, pos, bytes),
        0 <= k < bytes.len(),
    ensures
        buf[pos + k] == bytes[k],
{
    assert(buf.subrange(pos, pos + bytes.len())[k] == buf[pos + k]);
}

proof fn lemma_holds_split(buf: Seq<u8>, pos: int, a: Seq<u8>, b: Seq<u8>)
    requires
        holds_at(buf, pos, a + b),
    ensures
        holds_at(buf, pos, a),
        holds_at(buf, pos + a.len(), b),
{
    lemma_split_at(buf, pos, a, b);
}

proof fn lemma_u32_at_le(buf: Seq<u8>, pos: int, x: u32)
    requires
        holds_at(buf, pos, le32(x)),
    ensures
        u32_at(buf, pos) == x,
{
    lemma_holds_index(buf, pos, le32(x), 0);
    lemma_holds_index(buf, pos, le32(x), 1);
    lemma_holds_index(buf, pos, le32(x), 2);
    lemma_holds_index(buf, pos, le32(x), 3);
    lemma_u32_roundtrip(x);
}

proof fn lemma_u64_at_le(buf: Seq<u8>, pos: int, x: u64)
    requires
        holds_at(buf, pos, le64(x)),
    ensures
        u64_at(buf, pos) == x,
{
    assert(buf.subrange(pos, pos + 8) =~= le64(x));
    lemma_u64_roundtrip(x);
}

/// A blob reads back as its bytes.
pub proof fn lemma_parse_blob(buf: Seq<u8>, pos: int, b: Seq<u8>)
    requires
        b.len() <= u32::MAX,
        holds_at(buf, pos, blob(b)),
    ensures
        parse_blob(buf, pos) == Ok::<(Seq<u8>, int), WireFault>((b, pos + blob(b).len())),
{
    lemma_holds_split(buf, pos, le32(b.len() as u32), b);
    lemma_u32_at_le(buf, pos, b.len() as u32);
}

/// A string's UTF-8 blob reads back as the string.
pub proof fn lemma_parse_string(buf: Seq<u8>, pos: int, s: Seq<char>)
    requires
        encode_utf8(s).len() <= u32::MAX,
        holds_at(buf, pos, blob(encode_utf8(s))),
    ensures
        parse_string(buf, pos) == Ok::<(Seq<char>, int), WireFault>(
            (s, pos + blob(encode_utf8(s)).len()),
        ),
{
    lemma_parse_blob(buf, pos, encode_utf8(s));
    encode_utf8_valid_utf8(s);
    encode_utf8_decode_utf8(s);
}

/// Decoding what was encoded gives the value back: wherever the encoding
/// of a well-formed `v` stands in a buffer, the parser reads exactly `v`
/// and stops just past it.
pub proof fn lemma_parse_enc(v: ValueView, buf: Seq<u8>, pos: int, depth: int)
    requires
        wire_ok(v, depth),
        holds_at(buf, pos, enc(v)),
    ensures
        parse_value(buf, pos, depth) == Ok::<(ValueView, int), WireFault>(
            (v, pos + enc(v).len()),
        ),
    decreases v,
{
    lemma_holds_index(buf, pos, enc(v), 0);
    let p = pos + 1;
    match v {
        ValueView::Bool(b) => {
            lemma_holds_index(buf, pos, enc(v), 1);
        },
        ValueView::Int(i) => {
            lemma_holds_split(buf, pos, seq![TAG_INT], le64(i as u64));
            lemma_u64_at_le(buf, p, i as u64);
            lemma_i64_bits(i);
        },
        ValueView::Float(x) => {
            lemma_holds_split(buf, pos, seq![TAG_FLOAT], le64(x));
            lemma_u64_at_le(buf, p, x);
        },
        ValueView::Str(s) => {
            lemma_holds_split(buf, pos, seq![TAG_STR], blob(encode_utf8(s)));
            lemma_parse_string(buf, p, s);
        },
        ValueView::Bytes(b) => {
            lemma_holds_split(buf, pos, seq![TAG_BYTES], blob(b));
            lemma_parse_blob(buf, p, b);
        },
        ValueView::List(items) => {
            let head = seq![TAG_LIST] + le32(items.len() as u32);
            assert(enc(v) == head + enc_list(items));
            lemma_holds_split(buf, pos, head, enc_list(items));
            lemma_holds_split(buf, pos, seq![TAG_LIST], le32(items.len() as u32));
            lemma_u32_at_le(buf, p, items.len() as u32);
            lemma_parse_enc_list(items, buf, p + 4, depth);
        },
        ValueView::Dict(entries) => {
            let head = seq![TAG_DICT] + le32(entries.len() as u32);
            assert(enc(v) == head + enc_entries(entries));
            lemma_holds_split(buf, pos, head, enc_entries(entries));
            lemma_holds_split(buf, pos, seq![TAG_DICT], le32(entries.len() as u32));
            lemma_u32_at_le(buf, p, entries.len() as u32);
            lemma_parse_enc_entries(entries, buf, p + 4, depth);
        },
        ValueView::Variant(tag, value) => {
            let head = seq![TAG_VARIANT] + blob(encode_utf8(tag));
            match value {
                Some(inner) => {
                    assert(enc(v) == head + seq![1u8] + enc(*inner));
                    lemma_holds_split(buf, pos, head + seq![1u8], enc(*inner));
                    lemma_holds_split(buf, pos, head, seq![1u8]);
                    lemma_holds_split(buf, pos, seq![TAG_VARIANT], blob(encode_utf8(tag)));
                    lemma_parse_string(buf, p, tag);
                    lemma_holds_index(buf, pos + head.len(), seq![1u8], 0);
                    lemma_parse_enc(*inner, buf, pos + head.len() + 1, depth + 1);
                },
                None => {
                    assert(enc(v) == head + seq![0u8]);
                    lemma_holds_split(buf, pos, head, seq![0u8]);
                    lemma_holds_split(buf, pos, seq![TAG_VARIANT], blob(encode_utf8(tag)));
                    lemma_parse_string(buf, p, tag);
                    lemma_holds_index(buf, pos + head.len(), seq![0u8], 0);
                },
            }
        },
        ValueView::Handle(i) => {
            lemma_holds_split(buf, pos, seq![TAG_HANDLE], le32(i));
            lemma_u32_at_le(buf, p, i);
        },
    }
}

pub proof fn lemma_parse_enc_list(items: Seq<ValueView>, buf: Seq<u8>, pos: int, depth: int)
    requires
        depth <= MAX_DEPTH,
        wire_ok_list(items, depth + 1),
        holds_at(buf, pos, enc_list(items)),
    ensures
        parse_list(buf, pos, items.len() as int, depth) == Ok::<
            (Seq<ValueView>, int),
            WireFault,
        >((items, pos + enc_list(items).len())),
    decreases items,
{
    if items.len() > 0 {
        let init = items.subrange(0, items.len() - 1);
        let last = items[items.len() - 1];
        lemma_holds_split(buf, pos, enc_list(init), enc(last));
        lemma_parse_enc_list(init, buf, pos, depth);
        lemma_parse_enc(last, buf, pos + enc_list(init).len(), depth + 1);
        assert(init.push(last) =~= items);
    } else {
        assert(items =~= Seq::<ValueView>::empty());
    }
}

pub proof fn lemma_parse_enc_entries(
    entries: Seq<(Seq<char>, ValueView)>,
    buf: Seq<u8>,
    pos: int,
    depth: int,
)
    requires
        depth <= MAX_DEPTH,
        keys_of(entries).no_duplicates(),
        wire_ok_entries(entries, depth + 1),
        holds_at(buf, pos, enc_entries(entries)),
    ensures
        parse_dict(buf, pos, entries.len() as int, depth) == Ok::<
            (Seq<(Seq<char>, ValueView)>, int),
            WireFault,
        >((entries, pos + enc_entries(entries).len())),
    decreases entries,
{
    if entries.len() > 0 {
        let n = entries.len() - 1;
        let init = entries.subrange(0, n);
        let last = entries[n];
        let name_blob = blob(encode_utf8(last.0));
        assert(enc_entries(entries) == enc_entries(init) + name_blob + enc(last.1));
        lemma_holds_split(buf, pos, enc_entries(init) + name_blob, enc(last.1));
        lemma_holds_split(buf, pos, enc_entries(init), name_blob);
        assert(keys_of(init) =~= keys_of(entries).subrange(0, n));
        assert(keys_of(init).no_duplicates());
        lemma_parse_enc_entries(init, buf, pos, depth);
        lemma_parse_string(buf, pos + enc_entries(init).len(), last.0);
        assert(!keys_of(init).contains(last.0)) by {
            if keys_of(init).contains(last.0) {
                let k = choose|k: int| 0 <= k < keys_of(init).len() && keys_of(init)[k] == last.0;
                assert(keys_of(entries)[k] == keys_of(entries)[n]);
            }
        }
        lemma_parse_enc(
            last.1,
            buf,
            pos + enc_entries(init).len() + name_blob.len(),
            depth + 1,
        );
        assert(init.push(last) =~= entries);
    } else {
        assert(entries =~= Seq::<(Seq<char>, ValueView)>::empty());
    }
}

/// Decoding the encoding of a well-formed value gives the value back.
pub proof fn lemma_decode_encode(v: ValueView)
    requires
        wire_ok(v, 0),
    ensures
        decode_spec(enc(v)) == Ok::<ValueView, WireFault>(v),
{
    assert(enc(v).subrange(0, enc(v).len() as int) =~= enc(v));
    lemma_parse_enc(v, enc(v), 0, 0);
}

} // verus!

verus! {

/// `b1` and `b2` hold the same bytes on `[lo, hi)`, and both reach `hi`.
pub open spec fn agree(b1: Seq<u8>, b2: Seq<u8>, lo: int, hi: int) -> bool {
    &&& 0 <= lo <= hi
    &&& hi <= b1.len()
    &&& hi <= b2.len()
    &&& forall|k: int| lo <= k < hi ==> b1[k] == b2[k]
}

proof fn lemma_agree_narrow(b1: Seq<u8>, b2: Seq<u8>, lo: int, hi: int, lo2: int, hi2: int)
    requires
        agree(b1, b2, lo, hi),
        lo <= lo2 <= hi2 <= hi,
    ensures
        agree(b1, b2, lo2, hi2),
{
}

proof fn lemma_parse_blob_bounds(buf: Seq<u8>, pos: int)
    requires
        0 <= pos,
        parse_blob(buf, pos) is Ok,
    ensures
        pos + 4 <= parse_blob(buf, pos)->Ok_0.1 <= buf.len(),
        parse_blob(buf, pos)->Ok_0.1 == pos + 4 + parse_blob(buf, pos)->Ok_0.0.len(),
{
}

proof fn lemma_parse_blob_local(b1: Seq<u8>, b2: Seq<u8>, pos: int)
    requires
        0 <= pos,
        parse_blob(b1, pos) is Ok,
        agree(b1, b2, pos, parse_blob(b1, pos)->Ok_0.1),
    ensures
        parse_blob(b2, pos) == parse_blob(b1, pos),
{
    let q = parse_blob(b1, pos)->Ok_0.1;
    assert(b1.subrange(pos + 4, q) =~= b2.subrange(pos + 4, q));
}

proof fn lemma_parse_string_local(b1: Seq<u8>, b2: Seq<u8>, pos: int)
    requires
        0 <= pos,
        parse_string(b1, pos) is Ok,
        agree(b1, b2, pos, parse_string(b1, pos)->Ok_0.1),
    ensures
        parse_string(b2, pos) == parse_string(b1, pos),
{
    lemma_parse_blob_local(b1, b2, pos);
}

/// A value read from `pos` spans a nonempty stretch of the buffer.
pub proof fn lemma_parse_bounds(buf: Seq<u8>, pos: int, depth: int)
    requires
        0 <= pos,
        parse_value(buf, pos, depth) is Ok,
    ensures
        pos < parse_value(buf, pos, depth)->Ok_0.1 <= buf.len(),
    decreases 65 - depth, crate::msg::decode::count_bound(), 0int,
{
    let p = pos + 1;
    let tag = buf[pos];
    if tag == TAG_STR || tag == TAG_BYTES {
        lemma_parse_blob_bounds(buf, p);
    } else if tag == TAG_LIST {
        lemma_parse_list_bounds(buf, p + 4, u32_at(buf, p) as int, depth);
    } else if tag == TAG_DICT {
        lemma_parse_dict_bounds(buf, p + 4, u32_at(buf, p) as int, depth);
    } else if tag == TAG_VARIANT {
        lemma_parse_blob_bounds(buf, p);
        let q = parse_string(buf, p)->Ok_0.1;
        if buf[q] == 1 {
            lemma_parse_bounds(buf, q + 1, depth + 1);
        }
    }
}

pub proof fn lemma_parse_list_bounds(buf: Seq<u8>, pos: int, count: int, depth: int)
    requires
        0 <= pos <= buf.len(),
        0 <= count < crate::msg::decode::count_bound(),
        parse_list(buf, pos, count, depth) is Ok,
    ensures
        pos <= parse_list(buf, pos, count, depth)->Ok_0.1 <= buf.len(),
    decreases 65 - depth, count, 1int,
{
    if count > 0 {
        lemma_parse_list_bounds(buf, pos, count - 1, depth);
        let q = parse_list(buf, pos, count - 1, depth)->Ok_0.1;
        lemma_parse_bounds(buf, q, depth + 1);
    }
}

pub proof fn lemma_parse_dict_bounds(buf: Seq<u8>, pos: int, count: int, depth: int)
    requires
        0 <= pos <= buf.len(),
        0 <= count < crate::msg::decode::count_bound(),
        parse_dict(buf, pos, count, depth) is Ok,
    ensures
        pos <= parse_dict(buf, pos, count, depth)->Ok_0.1 <= buf.len(),
    decreases 65 - depth, count, 1int,
{
    if count > 0 {
        lemma_parse_dict_bounds(buf, pos, count - 1, depth);
        let q = parse_dict(buf, pos, count - 1, depth)->Ok_0.1;
        lemma_parse_blob_bounds(buf, q);
        let r = parse_string(buf, q)->Ok_0.1;
        lemma_parse_bounds(buf, r, depth + 1);
    }
}

/// A value read from `pos` depends only on the bytes it spans: any buffer
/// that agrees on that stretch reads the same value.
pub proof fn lemma_parse_local(b1: Seq<u8>, b2: Seq<u8>, pos: int, depth: int)
    requires
        0 <= pos,
        parse_value(b1, pos, depth) is Ok,
        agree(b1, b2, pos, parse_value(b1, pos, depth)->Ok_0.1),
    ensures
        parse_value(b2, pos, depth) == parse_value(b1, pos, depth),
    decreases 65 - depth, crate::msg::decode::count_bound(), 0int,
{
    lemma_parse_bounds(b1, pos, depth);
    let q = parse_value(b1, pos, depth)->Ok_0.1;
    let p = pos + 1;
    let tag = b1[pos];
    assert(b2[pos] == tag);
    if tag == TAG_BOOL {
        assert(b2[p] == b1[p]);
    } else if tag == TAG_INT || tag == TAG_FLOAT {
        assert(b1.subrange(p, p + 8) =~= b2.subrange(p, p + 8));
    } else if tag == TAG_STR {
        lemma_parse_string_local(b1, b2, p);
    } else if tag == TAG_BYTES {
        lemma_parse_blob_local(b1, b2, p);
    } else if tag == TAG_LIST {
        lemma_parse_list_bounds(b1, p + 4, u32_at(b1, p) as int, depth);
        assert(b1[p] == b2[p] && b1[p + 1] == b2[p + 1] && b1[p + 2] == b2[p + 2] && b1[p + 3]
            == b2[p + 3]);
        lemma_parse_list_local(b1, b2, p + 4, u32_at(b1, p) as int, depth);
    } else if tag == TAG_DICT {
        lemma_parse_dict_bounds(b1, p + 4, u32_at(b1, p) as int, depth);
        assert(b1[p] == b2[p] && b1[p + 1] == b2[p + 1] && b1[p + 2] == b2[p + 2] && b1[p + 3]
            == b2[p + 3]);
        lemma_parse_dict_local(b1, b2, p + 4, u32_at(b1, p) as int, depth);
    } else if tag == TAG_VARIANT {
        lemma_parse_blob_bounds(b1, p);
        let r = parse_string(b1, p)->Ok_0.1;
        if b1[r] == 1 {
            lemma_parse_bounds(b1, r + 1, depth + 1);
        }
        lemma_parse_string_local(b1, b2, p);
        assert(b2[r] == b1[r]);
        if b1[r] == 1 {
            lemma_parse_local(b1, b2, r + 1, depth + 1);
        }
    } else if tag == TAG_HANDLE {
        assert(b1[p] == b2[p] && b1[p + 1] == b2[p + 1] && b1[p + 2] == b2[p + 2] && b1[p + 3]
            == b2[p + 3]);
    }
}

pub proof fn lemma_parse_list_local(b1: Seq<u8>, b2: Seq<u8>, pos: int, count: int, depth: int)
    requires
        0 <= pos <= b1.len(),
        0 <= count < crate::msg::decode::count_bound(),
        parse_list(b1, pos, count, depth) is Ok,
        agree(b1, b2, pos, parse_list(b1, pos, count, depth)->Ok_0.1),
    ensures
        parse_list(b2, pos, count, depth) == parse_list(b1, pos, count, depth),
    decreases 65 - depth, count, 1int,
{
    if count > 0 {
        lemma_parse_list_bounds(b1, pos, count - 1, depth);
        let q = parse_list(b1, pos, count - 1, depth)->Ok_0.1;
        lemma_parse_bounds(b1, q, depth + 1);
        let r = parse_value(b1, q, depth + 1)->Ok_0.1;
        lemma_agree_narrow(b1, b2, pos, r, pos, q);
        lemma_parse_list_local(b1, b2, pos, count - 1, depth);
        lemma_agree_narrow(b1, b2, pos, r, q, r);
        lemma_parse_local(b1, b2, q, depth + 1);
    }
}

pub proof fn lemma_parse_dict_local(b1: Seq<u8>, b2: Seq<u8>, pos: int, count: int, depth: int)
    requires
        0 <= pos <= b1.len(),
        0 <= count < crate::msg::decode::count_bound(),
        parse_dict(b1, pos, count, depth) is Ok,
        agree(b1, b2, pos, parse_dict(b1, pos, count, depth)->Ok_0.1),
    ensures
        parse_dict(b2, pos, count, depth) == parse_dict(b1, pos, count, depth),
    decreases 65 - depth, count, 1int,
{
    if count > 0 {
        lemma_parse_dict_bounds(b1, pos, count - 1, depth);
        let q = parse_dict(b1, pos, count - 1, depth)->Ok_0.1;
        lemma_parse_blob_bounds(b1, q);
        let r = parse_string(b1, q)->Ok_0.1;
        lemma_parse_bounds(b1, r, depth + 1);
        let t = parse_value(b1, r, depth + 1)->Ok_0.1;
        lemma_agree_narrow(b1, b2, pos, t, pos, q);
        lemma_parse_dict_local(b1, b2, pos, count - 1, depth);
        lemma_agree_narrow(b1, b2, pos, t, q, r);
        lemma_parse_string_local(b1, b2, q);
        lemma_agree_narrow(b1, b2, pos, t, r, t);
        lemma_parse_local(b1, b2, r, depth + 1);
    }
}

/// No strict prefix of a well-formed value's encoding decodes: every
/// truncation is an error.
pub proof fn lemma_truncation_is_an_error(v: ValueView, k: int)
    requires
        wire_ok(v, 0),
        0 <= k < enc(v).len(),
    ensures
        decode_spec(enc(v).subrange(0, k)) is Err,
{
    let full = enc(v);
    let pre = full.subrange(0, k);
    assert(full.subrange(0, full.len() as int) =~= full);
    lemma_parse_enc(v, full, 0, 0);
    if parse_value(pre, 0, 0) is Ok {
        lemma_parse_bounds(pre, 0, 0);
        let q = parse_value(pre, 0, 0)->Ok_0.1;
        if q == pre.len() {
            lemma_parse_local(pre, full, 0, 0);
        }
    }
}

proof fn lemma_u16_at_le(buf: Seq<u8>, pos: int, x: u16)
    requires
        holds_at(buf, pos, le16(x)),
    ensures
        u16_at(buf, pos) == x,
{
    lemma_holds_index(buf, pos, le16(x), 0);
    lemma_holds_index(buf, pos, le16(x), 1);
    lemma_u16_roundtrip(x);
}

/// An encoded handle table reads back entry for entry.
pub proof fn lemma_parse_enc_handles(hs: Seq<(u8, Seq<u8>)>, buf: Seq<u8>, pos: int)
    requires
        forall|i: int| 0 <= i < hs.len() ==> (#[trigger] hs[i]).1.len() <= u32::MAX,
        holds_at(buf, pos, enc_handles(hs)),
    ensures
        parse_handles(buf, pos, hs.len() as int) == Ok::<(Seq<(u8, Seq<u8>)>, int), WireFault>(
            (hs, pos + enc_handles(hs).len()),
        ),
    decreases hs.len(),
{
    if hs.len() > 0 {
        let init = hs.subrange(0, hs.len() - 1);
        let last = hs[hs.len() - 1];
        lemma_holds_split(buf, pos, enc_handles(init) + seq![last.0], blob(last.1));
        lemma_holds_split(buf, pos, enc_handles(init), seq![last.0]);
        assert forall|i: int| 0 <= i < init.len() implies (#[trigger] init[i]).1.len()
            <= u32::MAX by {
            assert(init[i] == hs[i]);
        }
        lemma_parse_enc_handles(init, buf, pos);
        let q = pos + enc_handles(init).len();
        lemma_holds_index(buf, q, seq![last.0], 0);
        lemma_parse_blob(buf, q + 1, last.1);
        assert(init.push(last) =~= hs);
    } else {
        assert(hs =~= Seq::<(u8, Seq<u8>)>::empty());
    }
}

proof fn lemma_header_fields(b: Seq<u8>, h: Header, n: u16, plen: u32)
    requires
        holds_at(b, 0, enc_header(h, n, plen)),
    ensures
        b.len() >= 16,
        b[0] == crate::msg::envelope::WIRE_VERSION,
        b[1] == kind_byte(h.kind),
        u16_at(b, 2) == 0,
        u32_at(b, 4) == h.interface_id,
        u16_at(b, 8) == h.method_id,
        u16_at(b, 10) == n,
        u32_at(b, 12) == plen,
{
    let s2 = seq![crate::msg::envelope::WIRE_VERSION, kind_byte(h.kind)];
    lemma_holds_split(b, 0, s2 + le16(0) + le32(h.interface_id) + le16(h.method_id) + le16(n),
        le32(plen));
    lemma_holds_split(b, 0, s2 + le16(0) + le32(h.interface_id) + le16(h.method_id), le16(n));
    lemma_holds_split(b, 0, s2 + le16(0) + le32(h.interface_id), le16(h.method_id));
    lemma_holds_split(b, 0, s2 + le16(0), le32(h.interface_id));
    lemma_holds_split(b, 0, s2, le16(0));
    lemma_holds_index(b, 0, s2, 0);
    lemma_holds_index(b, 0, s2, 1);
    lemma_u16_at_le(b, 2, 0);
    lemma_u32_at_le(b, 4, h.interface_id);
    lemma_u16_at_le(b, 8, h.method_id);
    lemma_u16_at_le(b, 10, n);
    lemma_u32_at_le(b, 12, plen);
}

/// Decoding an encoded envelope gives the envelope back, whenever its
/// payload is one the codec carries faithfully and every handle index in
/// it names an entry of its handle table.
#[verifier::rlimit(40)]
pub proof fn lemma_envelope_roundtrip(e: EnvelopeView)
    requires
        envelope_encodable(e),
        wire_ok(e.payload, 0),
        handle_check(e.payload, e.handles.len() as u16) is Ok,
    ensures
        decode_envelope_spec(enc_envelope(e)) == Ok::<EnvelopeView, WireFault>(e),
{
    let b = enc_envelope(e);
    let n = e.handles.len() as u16;
    let p = enc(e.payload);
    let plen = p.len() as u32;
    let head = enc_header(e.header, n, plen);
    assert(b.subrange(0, b.len() as int) =~= b);
    lemma_holds_split(b, 0, head + p, enc_handles(e.handles));
    lemma_holds_split(b, 0, head, p);
    lemma_header_fields(b, e.header, n, plen);
    lemma_decode_encode(e.payload);
    assert(b.subrange(16, 16 + plen as int) == p);
    assert(decode_spec(b.subrange(16, 16 + plen as int)) == Ok::<ValueView, WireFault>(e.payload));
    lemma_parse_enc_handles(e.handles, b, 16 + p.len() as int);
    assert(n as int == e.handles.len());
    lemma_envelope_decode_from_parts(b, e);
}

proof fn lemma_envelope_decode_from_parts(b: Seq<u8>, e: EnvelopeView)
    requires
        b.len() >= 16,
        b[0] == crate::msg::envelope::WIRE_VERSION,
        b[1] == kind_byte(e.header.kind),
        u16_at(b, 2) == 0,
        u32_at(b, 4) == e.header.interface_id,
        u16_at(b, 8) == e.header.method_id,
        u16_at(b, 10) == e.handles.len(),
        16 + u32_at(b, 12) <= b.len(),
        decode_spec(b.subrange(16, 16 + u32_at(b, 12) as int)) == Ok::<ValueView, WireFault>(
            e.payload,
        ),
        parse_handles(b, 16 + u32_at(b, 12) as int, e.handles.len() as int) == Ok::<
            (Seq<(u8, Seq<u8>)>, int),
            WireFault,
        >((e.handles, b.len() as int)),
        handle_check(e.payload, e.handles.len() as u16) is Ok,
    ensures
        decode_envelope_spec(b) == Ok::<EnvelopeView, WireFault>(e),
{
    assert(kind_of_byte(kind_byte(e.header.kind)) == Some(e.header.kind));
}

} // verus!
