//! Decoding a value from bytes: the grammar as a specification, and the
//! decoder proved to follow it exactly.

use vstd::prelude::*;
use crate::msg::bytes::{u32_at, u64_at};
use crate::msg::cursor::{Decoder, parse_blob, parse_string};
use crate::msg::error::{WireError, WireFault};
use crate::msg::value::{
    Value, ValueView, MAX_DEPTH, TAG_BOOL, TAG_BYTES, TAG_DICT, TAG_FLOAT, TAG_HANDLE, TAG_INT,
    TAG_LIST, TAG_STR, TAG_VARIANT, entries_view, values_view, lemma_values_view_take_push,
    lemma_entries_view_take_push, lemma_entries_view_len, lemma_entries_view_index,
};

verus! {

/// One past the largest list or dict count: the rank of a value above any
/// of its element sequences.
pub open spec fn count_bound() -> int {
    0x1_0000_0000
}

/// The names of a dict's entries.
pub open spec fn keys_of(entries: Seq<(Seq<char>, ValueView)>) -> Seq<Seq<char>> {
    entries.map_values(|e: (Seq<char>, ValueView)| e.0)
}

/// The value encoded at `buf[pos..]`, read at nesting `depth`, and the
/// position just past it — or the first fault the reading meets.
pub open spec fn parse_value(buf: Seq<u8>, pos: int, depth: int) -> Result<
    (ValueView, int),
    WireFault,
>
    decreases 65 - depth, count_bound(), 0int,
{
    if depth > MAX_DEPTH {
        Err(WireFault::DepthExceeded)
    } else if pos + 1 > buf.len() {
        Err(WireFault::Truncated)
    } else {
        let tag = buf[pos];
        let p = pos + 1;
        if tag == TAG_BOOL {
            if p + 1 > buf.len() {
                Err(WireFault::Truncated)
            } else if buf[p] == 0 {
                Ok((ValueView::Bool(false), p + 1))
            } else if buf[p] == 1 {
                Ok((ValueView::Bool(true), p + 1))
            } else {
                Err(WireFault::BadBool(buf[p]))
            }
        } else if tag == TAG_INT {
            if p + 8 > buf.len() {
                Err(WireFault::Truncated)
            } else {
                Ok((ValueView::Int(u64_at(buf, p) as i64), p + 8))
            }
        } else if tag == TAG_FLOAT {
            if p + 8 > buf.len() {
                Err(WireFault::Truncated)
            } else {
                Ok((ValueView::Float(u64_at(buf, p)), p + 8))
            }
        } else if tag == TAG_STR {
            match parse_string(buf, p) {
                Err(e) => Err(e),
                Ok((s, q)) => Ok((ValueView::Str(s), q)),
            }
        } else if tag == TAG_BYTES {
            match parse_blob(buf, p) {
                Err(e) => Err(e),
                Ok((b, q)) => Ok((ValueView::Bytes(b), q)),
            }
        } else if tag == TAG_LIST {
            if p + 4 > buf.len() {
                Err(WireFault::Truncated)
            } else {
                match parse_list(buf, p + 4, u32_at(buf, p) as int, depth) {
                    Err(e) => Err(e),
                    Ok((items, q)) => Ok((ValueView::List(items), q)),
                }
            }
        } else if tag == TAG_DICT {
            if p + 4 > buf.len() {
                Err(WireFault::Truncated)
            } else {
                match parse_dict(buf, p + 4, u32_at(buf, p) as int, depth) {
                    Err(e) => Err(e),
                    Ok((entries, q)) => Ok((ValueView::Dict(entries), q)),
                }
            }
        } else if tag == TAG_VARIANT {
            match parse_string(buf, p) {
                Err(e) => Err(e),
                Ok((t, q)) => if q + 1 > buf.len() {
                    Err(WireFault::Truncated)
                } else if buf[q] == 0 {
                    Ok((ValueView::Variant(t, None), q + 1))
                } else if buf[q] == 1 {
                    match parse_value(buf, q + 1, depth + 1) {
                        Err(e) => Err(e),
                        Ok((inner, r)) => Ok((ValueView::Variant(t, Some(Box::new(inner))), r)),
                    }
                } else {
                    Err(WireFault::BadBool(buf[q]))
                },
            }
        } else if tag == TAG_HANDLE {
            if p + 4 > buf.len() {
                Err(WireFault::Truncated)
            } else {
                Ok((ValueView::Handle(u32_at(buf, p)), p + 4))
            }
        } else {
            Err(WireFault::BadTag(tag))
        }
    }
}

/// The first `count` items of a list whose items start at `pos`.
pub open spec fn parse_list(buf: Seq<u8>, pos: int, count: int, depth: int) -> Result<
    (Seq<ValueView>, int),
    WireFault,
>
    decreases 65 - depth, count, 1int,
{
    if depth > MAX_DEPTH {
        Err(WireFault::DepthExceeded)
    } else if count <= 0 {
        Ok((Seq::empty(), pos))
    } else {
        match parse_list(buf, pos, count - 1, depth) {
            Err(e) => Err(e),
            Ok((items, q)) => match parse_value(buf, q, depth + 1) {
                Err(e) => Err(e),
                Ok((v, r)) => Ok((items.push(v), r)),
            },
        }
    }
}

/// The first `count` entries of a dict whose entries start at `pos`; a
/// name seen before is a fault.
pub open spec fn parse_dict(buf: Seq<u8>, pos: int, count: int, depth: int) -> Result<
    (Seq<(Seq<char>, ValueView)>, int),
    WireFault,
>
    decreases 65 - depth, count, 1int,
{
    if depth > MAX_DEPTH {
        Err(WireFault::DepthExceeded)
    } else if count <= 0 {
        Ok((Seq::empty(), pos))
    } else {
        match parse_dict(buf, pos, count - 1, depth) {
            Err(e) => Err(e),
            Ok((entries, q)) => match parse_string(buf, q) {
                Err(e) => Err(e),
                Ok((name, r)) => if keys_of(entries).contains(name) {
                    Err(WireFault::DuplicateKey(name))
                } else {
                    match parse_value(buf, r, depth + 1) {
                        Err(e) => Err(e),
                        Ok((v, t)) => Ok((entries.push((name, v)), t)),
                    }
                },
            },
        }
    }
}

/// What decoding exactly one value from `bytes` yields.
pub open spec fn decode_spec(bytes: Seq<u8>) -> Result<ValueView, WireFault> {
    match parse_value(bytes, 0, 0) {
        Err(e) => Err(e),
        Ok((v, q)) => if q == bytes.len() {
            Ok(v)
        } else {
            Err(WireFault::TrailingBytes)
        },
    }
}

pub proof fn lemma_parse_list_err_persists(buf: Seq<u8>, pos: int, k: int, j: int, depth: int)
    requires
        0 <= k <= j,
        parse_list(buf, pos, k, depth) is Err,
    ensures
        parse_list(buf, pos, j, depth) == parse_list(buf, pos, k, depth),
    decreases j - k,
{
    if j > k {
        lemma_parse_list_err_persists(buf, pos, k, j - 1, depth);
    }
}

pub proof fn lemma_parse_dict_err_persists(buf: Seq<u8>, pos: int, k: int, j: int, depth: int)
    requires
        0 <= k <= j,
        parse_dict(buf, pos, k, depth) is Err,
    ensures
        parse_dict(buf, pos, j, depth) == parse_dict(buf, pos, k, depth),
    decreases j - k,
{
    if j > k {
        lemma_parse_dict_err_persists(buf, pos, k, j - 1, depth);
    }
}

/// Whether some entry of `entries` is named `name`.
fn has_name(entries: &Vec<(String, Value)>, name: &String) -> (b: bool)
    ensures
        b == keys_of(entries_view(entries@)).contains(name@),
{
    proof {
        lemma_entries_view_len(entries@);
    }
    let mut j: usize = 0;
    while j < entries.len()
        invariant
            j <= entries@.len(),
            entries_view(entries@).len() == entries@.len(),
            forall|k: int| 0 <= k < j ==> entries@[k].0@ != name@,
        decreases entries@.len() - j,
    {
        if entries[j].0 == *name {
            proof {
                lemma_entries_view_index(entries@, j as int);
                assert(keys_of(entries_view(entries@))[j as int] == name@);
            }
            return true;
        }
        j = j + 1;
    }
    proof {
        if keys_of(entries_view(entries@)).contains(name@) {
            let k = choose|k: int|
                0 <= k < keys_of(entries_view(entries@)).len() && keys_of(
                    entries_view(entries@),
                )[k] == name@;
            lemma_entries_view_index(entries@, k);
        }
    }
    false
}

/// Decode one value at nesting `depth`. Counts are never used to
/// pre-allocate — elements are decoded one at a time, so a hostile count
/// runs the input out rather than the heap.
#[verifier::loop_isolation(false)]
pub(crate) fn decode_value(d: &mut Decoder, depth: u32) -> (r: Result<Value, WireError>)
    requires
        old(d).wf(),
        depth <= MAX_DEPTH + 1,
    ensures
        final(d).wf(),
        final(d).buf == old(d).buf,
        match parse_value(old(d).buf@, old(d).pos as int, depth as int) {
            Ok((v, q)) => r matches Ok(x) && x@ == v && final(d).pos == q,
            Err(e) => r matches Err(x) && x@ == e,
        },
    decreases 65 - depth,
{
    if depth > MAX_DEPTH {
        return Err(WireError::DepthExceeded);
    }
    let ghost buf = d.buf@;
    let ghost p = d.pos + 1;
    let tag = d.u8()?;
    if tag == TAG_BOOL {
        let b = d.bool_byte()?;
        Ok(Value::Bool(b))
    } else if tag == TAG_INT {
        let i = d.i64()?;
        Ok(Value::Int(i))
    } else if tag == TAG_FLOAT {
        let x = d.float_bits()?;
        Ok(Value::Float(x))
    } else if tag == TAG_STR {
        let s = d.string()?;
        Ok(Value::Str(s))
    } else if tag == TAG_BYTES {
        let b = d.blob()?;
        let mut owned: Vec<u8> = Vec::new();
        crate::msg::bytes::push_all(&mut owned, b);
        assert(owned@ =~= b@);
        Ok(Value::Bytes(owned))
    } else if tag == TAG_LIST {
        let count = d.u32()?;
        let ghost start = d.pos as int;
        let mut items: Vec<Value> = Vec::new();
        let mut k: u32 = 0;
        assert(values_view(items@) =~= Seq::<ValueView>::empty());
        while k < count
            invariant
                d.wf(),
                d.buf@ == buf,
                k <= count,
                count == u32_at(buf, p),
                parse_list(buf, start, k as int, depth as int) == Ok::<
                    (Seq<ValueView>, int),
                    WireFault,
                >((values_view(items@), d.pos as int)),
            decreases count - k,
        {
            let ghost before = items@;
            match decode_value(d, depth + 1) {
                Ok(item) => {
                    items.push(item);
                    proof {
                        lemma_values_view_take_push(items@, before.len() as int);
                        assert(items@.subrange(0, before.len() as int) =~= before);
                        assert(items@.subrange(0, before.len() as int + 1) =~= items@);
                    }
                    k = k + 1;
                },
                Err(e) => {
                    proof {
                        lemma_parse_list_err_persists(
                            buf,
                            start,
                            k + 1,
                            count as int,
                            depth as int,
                        );
                    }
                    return Err(e);
                },
            }
        }
        Ok(Value::List(items))
    } else if tag == TAG_DICT {
        let count = d.u32()?;
        let ghost start = d.pos as int;
        let mut entries: Vec<(String, Value)> = Vec::new();
        let mut k: u32 = 0;
        assert(entries_view(entries@) =~= Seq::<(Seq<char>, ValueView)>::empty());
        while k < count
            invariant
                d.wf(),
                d.buf@ == buf,
                k <= count,
                count == u32_at(buf, p),
                parse_dict(buf, start, k as int, depth as int) == Ok::<
                    (Seq<(Seq<char>, ValueView)>, int),
                    WireFault,
                >((entries_view(entries@), d.pos as int)),
            decreases count - k,
        {
            let ghost before = entries@;
            let name = match d.string() {
                Ok(name) => name,
                Err(e) => {
                    proof {
                        lemma_parse_dict_err_persists(
                            buf,
                            start,
                            k + 1,
                            count as int,
                            depth as int,
                        );
                    }
                    return Err(e);
                },
            };
            if has_name(&entries, &name) {
                proof {
                    lemma_parse_dict_err_persists(buf, start, k + 1, count as int, depth as int);
                }
                return Err(WireError::DuplicateKey(name));
            }
            match decode_value(d, depth + 1) {
                Ok(value) => {
                    entries.push((name, value));
                    proof {
                        lemma_entries_view_take_push(entries@, before.len() as int);
                        assert(entries@.subrange(0, before.len() as int) =~= before);
                        assert(entries@.subrange(0, before.len() as int + 1) =~= entries@);
                    }
                    k = k + 1;
                },
                Err(e) => {
                    proof {
                        lemma_parse_dict_err_persists(
                            buf,
                            start,
                            k + 1,
                            count as int,
                            depth as int,
                        );
                    }
                    return Err(e);
                },
            }
        }
        Ok(Value::Dict(entries))
    } else if tag == TAG_VARIANT {
        let t = d.string()?;
        let present = d.bool_byte()?;
        if present {
            let inner = decode_value(d, depth + 1)?;
            Ok(Value::Variant { tag: t, value: Some(Box::new(inner)) })
        } else {
            Ok(Value::Variant { tag: t, value: None })
        }
    } else if tag == TAG_HANDLE {
        let i = d.u32()?;
        Ok(Value::Handle(i))
    } else {
        Err(WireError::BadTag(tag))
    }
}

impl Value {
    /// Decode exactly one value from `bytes`. Total — never panics on
    /// malformed input — and rejects any trailing bytes.
    pub fn decode(bytes: &[u8]) -> (r: Result<Value, WireError>)
        ensures
            match decode_spec(bytes@) {
                Ok(v) => r matches Ok(x) && x@ == v,
                Err(e) => r matches Err(x) && x@ == e,
            },
    {
        let mut decoder = Decoder::new(bytes);
        let value = decode_value(&mut decoder, 0)?;
        if decoder.at_end() {
            Ok(value)
        } else {
            Err(WireError::TrailingBytes)
        }
    }
}

} // verus!
