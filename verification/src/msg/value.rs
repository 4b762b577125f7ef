//! The self-describing value vocabulary and its byte encoding.

use vstd::prelude::*;
use vstd::utf8::*;
use crate::msg::bytes::{le32, le64, push_all, push_u32, push_u64};

verus! {

/// Maximum value nesting depth the decoder accepts.
pub const MAX_DEPTH: u32 = 64;

pub const TAG_BOOL: u8 = 0x01;
pub const TAG_INT: u8 = 0x02;
pub const TAG_FLOAT: u8 = 0x03;
pub const TAG_STR: u8 = 0x04;
pub const TAG_BYTES: u8 = 0x05;
pub const TAG_LIST: u8 = 0x06;
pub const TAG_DICT: u8 = 0x07;
pub const TAG_VARIANT: u8 = 0x08;
pub const TAG_HANDLE: u8 = 0x09;

/// A self-describing value — one of the nine kinds.
///
/// A `Float` is carried as the bit pattern of its IEEE-754 binary64 value:
/// the wire form of a float is exactly those eight bytes, little-endian.
#[derive(Debug, PartialEq)]
pub enum Value {
    Bool(bool),
    Int(i64),
    Float(u64),
    Str(String),
    Bytes(Vec<u8>),
    List(Vec<Value>),
    /// An ordered map; names are unique (the decoder rejects duplicates).
    Dict(Vec<(String, Value)>),
    /// A tagged union — the wire form of an enum.
    Variant { tag: String, value: Option<Box<Value>> },
    /// An index into the envelope handle table.
    Handle(u32),
}

/// The mathematical form of a [`Value`].
pub enum ValueView {
    Bool(bool),
    Int(i64),
    Float(u64),
    Str(Seq<char>),
    Bytes(Seq<u8>),
    List(Seq<ValueView>),
    Dict(Seq<(Seq<char>, ValueView)>),
    Variant(Seq<char>, Option<Box<ValueView>>),
    Handle(u32),
}

pub open spec fn value_view(v: Value) -> ValueView
    decreases v,
{
    match v {
        Value::Bool(b) => ValueView::Bool(b),
        Value::Int(i) => ValueView::Int(i),
        Value::Float(x) => ValueView::Float(x),
        Value::Str(s) => ValueView::Str(s@),
        Value::Bytes(b) => ValueView::Bytes(b@),
        Value::List(items) => ValueView::List(values_view(items@)),
        Value::Dict(entries) => ValueView::Dict(entries_view(entries@)),
        Value::Variant { tag, value } => match value {
            Some(inner) => ValueView::Variant(tag@, Some(Box::new(value_view(*inner)))),
            None => ValueView::Variant(tag@, None),
        },
        Value::Handle(i) => ValueView::Handle(i),
    }
}

pub open spec fn values_view(s: Seq<Value>) -> Seq<ValueView>
    decreases s,
{
    if s.len() == 0 {
        Seq::empty()
    } else {
        values_view(s.subrange(0, s.len() - 1)).push(value_view(s[s.len() - 1]))
    }
}

pub open spec fn entries_view(s: Seq<(String, Value)>) -> Seq<(Seq<char>, ValueView)>
    decreases s,
{
    if s.len() == 0 {
        Seq::empty()
    } else {
        entries_view(s.subrange(0, s.len() - 1)).push(
            (s[s.len() - 1].0@, value_view(s[s.len() - 1].1)),
        )
    }
}

impl View for Value {
    type V = ValueView;

    open spec fn view(&self) -> ValueView {
        value_view(*self)
    }
}

/// A length-prefixed blob: the `u32` length, then the bytes.
pub open spec fn blob(b: Seq<u8>) -> Seq<u8> {
    le32(b.len() as u32) + b
}

/// The byte encoding of a value.
pub open spec fn enc(v: ValueView) -> Seq<u8>
    decreases v,
{
    match v {
        ValueView::Bool(b) => seq![TAG_BOOL, if b { 1u8 } else { 0u8 }],
        ValueView::Int(i) => seq![TAG_INT] + le64(i as u64),
        ValueView::Float(x) => seq![TAG_FLOAT] + le64(x),
        ValueView::Str(s) => seq![TAG_STR] + blob(encode_utf8(s)),
        ValueView::Bytes(b) => seq![TAG_BYTES] + blob(b),
        ValueView::List(items) => seq![TAG_LIST] + le32(items.len() as u32) + enc_list(items),
        ValueView::Dict(entries) => seq![TAG_DICT] + le32(entries.len() as u32) + enc_entries(
            entries,
        ),
        ValueView::Variant(tag, value) => match value {
            Some(inner) => seq![TAG_VARIANT] + blob(encode_utf8(tag)) + seq![1u8] + enc(*inner),
            None => seq![TAG_VARIANT] + blob(encode_utf8(tag)) + seq![0u8],
        },
        ValueView::Handle(i) => seq![TAG_HANDLE] + le32(i),
    }
}

/// The concatenated encodings of a list's items.
pub open spec fn enc_list(items: Seq<ValueView>) -> Seq<u8>
    decreases items,
{
    if items.len() == 0 {
        Seq::empty()
    } else {
        enc_list(items.subrange(0, items.len() - 1)) + enc(items[items.len() - 1])
    }
}

/// The concatenated encodings of a dict's entries: each name as a blob,
/// then its value.
pub open spec fn enc_entries(entries: Seq<(Seq<char>, ValueView)>) -> Seq<u8>
    decreases entries,
{
    if entries.len() == 0 {
        Seq::empty()
    } else {
        enc_entries(entries.subrange(0, entries.len() - 1)) + blob(
            encode_utf8(entries[entries.len() - 1].0),
        ) + enc(entries[entries.len() - 1].1)
    }
}

/// Every section of `v` fits a `u32` length: the encoder's own limit.
pub open spec fn encodable(v: ValueView) -> bool
    decreases v,
{
    match v {
        ValueView::Str(s) => encode_utf8(s).len() <= u32::MAX,
        ValueView::Bytes(b) => b.len() <= u32::MAX,
        ValueView::List(items) => items.len() <= u32::MAX && encodable_list(items),
        ValueView::Dict(entries) => entries.len() <= u32::MAX && encodable_entries(entries),
        ValueView::Variant(tag, value) => encode_utf8(tag).len() <= u32::MAX && match value {
            Some(inner) => encodable(*inner),
            None => true,
        },
        _ => true,
    }
}

pub open spec fn encodable_list(items: Seq<ValueView>) -> bool
    decreases items,
{
    if items.len() == 0 {
        true
    } else {
        encodable_list(items.subrange(0, items.len() - 1)) && encodable(items[items.len() - 1])
    }
}

pub open spec fn encodable_entries(entries: Seq<(Seq<char>, ValueView)>) -> bool
    decreases entries,
{
    if entries.len() == 0 {
        true
    } else {
        encodable_entries(entries.subrange(0, entries.len() - 1)) && encode_utf8(
            entries[entries.len() - 1].0,
        ).len() <= u32::MAX && encodable(entries[entries.len() - 1].1)
    }
}

/// Append a section length as a `u32`.
pub fn write_len(out: &mut Vec<u8>, n: usize)
    requires
        n <= u32::MAX,
    ensures
        final(out)@ == old(out)@ + le32(n as u32),
{
    push_u32(out, n as u32);
}

/// Append a length-prefixed blob.
pub fn write_blob(out: &mut Vec<u8>, bytes: &[u8])
    requires
        bytes@.len() <= u32::MAX,
    ensures
        final(out)@ == old(out)@ + blob(bytes@),
{
    write_len(out, bytes.len());
    push_all(out, bytes);
    assert(final(out)@ =~= old(out)@ + blob(bytes@));
}

impl Value {
    /// The kind name, for diagnostics and `TypeMismatch` errors.
    pub fn kind_name(&self) -> (name: &'static str)
        ensures
            name@ == kind_name_of(self@),
    {
        proof {
            reveal_strlit("bool");
            reveal_strlit("int");
            reveal_strlit("float");
            reveal_strlit("string");
            reveal_strlit("bytes");
            reveal_strlit("list");
            reveal_strlit("dict");
            reveal_strlit("variant");
            reveal_strlit("handle");
        }
        match self {
            Value::Bool(_) => "bool",
            Value::Int(_) => "int",
            Value::Float(_) => "float",
            Value::Str(_) => "string",
            Value::Bytes(_) => "bytes",
            Value::List(_) => "list",
            Value::Dict(_) => "dict",
            Value::Variant { .. } => "variant",
            Value::Handle(_) => "handle",
        }
    }

    /// Encode to bytes. Requires every section to fit 4 GiB.
    pub fn encode(&self) -> (out: Vec<u8>)
        requires
            encodable(self@),
        ensures
            out@ == enc(self@),
    {
        let mut out = Vec::new();
        self.encode_into(&mut out);
        assert(out@ =~= enc(self@));
        out
    }

    /// Append the encoding of `self` to `out`.
    #[verifier::loop_isolation(false)]
    #[verifier::rlimit(40)]
    pub fn encode_into(&self, out: &mut Vec<u8>)
        requires
            encodable(self@),
        ensures
            final(out)@ == old(out)@ + enc(self@),
        decreases self,
    {
        let ghost start = out@;
        match self {
            Value::Bool(b) => {
                out.push(TAG_BOOL);
                out.push(if *b { 1u8 } else { 0u8 });
            },
            Value::Int(i) => {
                out.push(TAG_INT);
                push_u64(out, #[verifier::truncate] (*i as u64));
            },
            Value::Float(x) => {
                out.push(TAG_FLOAT);
                push_u64(out, *x);
            },
            Value::Str(s) => {
                out.push(TAG_STR);
                write_blob(out, s.as_str().as_bytes());
            },
            Value::Bytes(b) => {
                out.push(TAG_BYTES);
                write_blob(out, b.as_slice());
            },
            Value::List(items) => {
                out.push(TAG_LIST);
                proof {
                    lemma_values_view_len(items@);
                }
                write_len(out, items.len());
                let ghost head = out@;
                let mut i: usize = 0;
                while i < items.len()
                    invariant
                        i <= items@.len(),
                        items@.len() <= u32::MAX,
                        encodable_list(values_view(items@)),
                        out@ == head + enc_list(values_view(items@.subrange(0, i as int))),
                    decreases items@.len() - i,
                {
                    proof {
                        lemma_values_view_index(items@, i as int);
                        lemma_encodable_list_index(values_view(items@), i as int);
                    }
                    proof {
                        assert(*self == Value::List(*items));
                        assert(decreases_to!(*self => *items));
                        assert(decreases_to!(items => items@));
                        assert(decreases_to!(items@ => items@[i as int]));
                    }
                    items[i].encode_into(out);
                    proof {
                        lemma_values_view_take_push(items@, i as int);
                        lemma_enc_list_push(
                            values_view(items@.subrange(0, i as int)),
                            value_view(items@[i as int]),
                        );
                    }
                    i = i + 1;
                }
                assert(items@.subrange(0, items@.len() as int) =~= items@);
            },
            Value::Dict(entries) => {
                out.push(TAG_DICT);
                proof {
                    lemma_entries_view_len(entries@);
                }
                write_len(out, entries.len());
                let ghost head = out@;
                let mut i: usize = 0;
                while i < entries.len()
                    invariant
                        i <= entries@.len(),
                        entries@.len() <= u32::MAX,
                        encodable_entries(entries_view(entries@)),
                        out@ == head + enc_entries(entries_view(entries@.subrange(0, i as int))),
                    decreases entries@.len() - i,
                {
                    proof {
                        lemma_entries_view_index(entries@, i as int);
                        lemma_encodable_entries_index(entries_view(entries@), i as int);
                    }
                    let (name, value) = &entries[i];
                    write_blob(out, name.as_str().as_bytes());
                    proof {
                        assert(*self == Value::Dict(*entries));
                        assert(decreases_to!(*self => *entries));
                        assert(decreases_to!(entries => entries@));
                        assert(decreases_to!(entries@ => entries@[i as int]));
                        assert(decreases_to!(entries@[i as int] => entries@[i as int].1));
                    }
                    value.encode_into(out);
                    proof {
                        lemma_entries_view_take_push(entries@, i as int);
                        lemma_enc_entries_push(
                            entries_view(entries@.subrange(0, i as int)),
                            (entries@[i as int].0@, value_view(entries@[i as int].1)),
                        );
                    }
                    i = i + 1;
                }
                assert(entries@.subrange(0, entries@.len() as int) =~= entries@);
            },
            Value::Variant { tag, value } => {
                out.push(TAG_VARIANT);
                write_blob(out, tag.as_str().as_bytes());
                match value {
                    Some(inner) => {
                        out.push(1u8);
                        inner.encode_into(out);
                    },
                    None => {
                        out.push(0u8);
                    },
                }
            },
            Value::Handle(index) => {
                out.push(TAG_HANDLE);
                push_u32(out, *index);
            },
        }
        assert(out@ =~= start + enc(self@));
    }
}

/// A copy of `v`, equal to it.
#[verifier::loop_isolation(false)]
pub fn copy_value(v: &Value) -> (r: Value)
    ensures
        r@ == v@,
    decreases v,
{
    match v {
        Value::Bool(b) => Value::Bool(*b),
        Value::Int(i) => Value::Int(*i),
        Value::Float(x) => Value::Float(*x),
        Value::Str(s) => Value::Str(s.clone()),
        Value::Bytes(b) => Value::Bytes(vstd::slice::slice_to_vec(b.as_slice())),
        Value::List(items) => {
            let mut out: Vec<Value> = Vec::new();
            let mut i: usize = 0;
            while i < items.len()
                invariant
                    *v == Value::List(*items),
                    i <= items@.len(),
                    values_view(out@) == values_view(items@.subrange(0, i as int)),
                decreases items@.len() - i,
            {
                proof {
                    assert(*v == Value::List(*items));
                    assert(decreases_to!(*v => *items));
                    assert(decreases_to!(items => items@));
                    assert(decreases_to!(items@ => items@[i as int]));
                }
                let c = copy_value(&items[i]);
                let ghost before = out@;
                out.push(c);
                proof {
                    assert(out@.subrange(0, out@.len() - 1) =~= before);
                    lemma_values_view_take_push(items@, i as int);
                }
                i = i + 1;
            }
            assert(items@.subrange(0, items@.len() as int) =~= items@);
            Value::List(out)
        },
        Value::Dict(entries) => {
            let mut out: Vec<(String, Value)> = Vec::new();
            let mut i: usize = 0;
            while i < entries.len()
                invariant
                    *v == Value::Dict(*entries),
                    i <= entries@.len(),
                    entries_view(out@) == entries_view(entries@.subrange(0, i as int)),
                decreases entries@.len() - i,
            {
                proof {
                    assert(*v == Value::Dict(*entries));
                    assert(decreases_to!(*v => *entries));
                    assert(decreases_to!(entries => entries@));
                    assert(decreases_to!(entries@ => entries@[i as int]));
                    assert(decreases_to!(entries@[i as int] => entries@[i as int].1));
                }
                let c = copy_value(&entries[i].1);
                let k = entries[i].0.clone();
                let ghost before = out@;
                out.push((k, c));
                proof {
                    assert(out@.subrange(0, out@.len() - 1) =~= before);
                    lemma_entries_view_take_push(entries@, i as int);
                }
                i = i + 1;
            }
            assert(entries@.subrange(0, entries@.len() as int) =~= entries@);
            Value::Dict(out)
        },
        Value::Variant { tag, value } => {
            let inner = match value {
                Some(b) => Some(Box::new(copy_value(b))),
                None => None,
            };
            Value::Variant { tag: tag.clone(), value: inner }
        },
        Value::Handle(i) => Value::Handle(*i),
    }
}

impl Clone for Value {
    fn clone(&self) -> (r: Value)
        ensures
            r@ == self@,
    {
        copy_value(self)
    }
}

/// The kind name of a value.
pub open spec fn kind_name_of(v: ValueView) -> Seq<char> {
    match v {
        ValueView::Bool(_) => "bool"@,
        ValueView::Int(_) => "int"@,
        ValueView::Float(_) => "float"@,
        ValueView::Str(_) => "string"@,
        ValueView::Bytes(_) => "bytes"@,
        ValueView::List(_) => "list"@,
        ValueView::Dict(_) => "dict"@,
        ValueView::Variant(..) => "variant"@,
        ValueView::Handle(_) => "handle"@,
    }
}

pub proof fn lemma_enc_list_push(s: Seq<ValueView>, x: ValueView)
    ensures
        enc_list(s.push(x)) == enc_list(s) + enc(x),
{
    assert(s.push(x).subrange(0, s.len() as int) =~= s);
}

pub proof fn lemma_enc_entries_push(s: Seq<(Seq<char>, ValueView)>, x: (Seq<char>, ValueView))
    ensures
        enc_entries(s.push(x)) == enc_entries(s) + blob(encode_utf8(x.0)) + enc(x.1),
{
    assert(s.push(x).subrange(0, s.len() as int) =~= s);
}

pub proof fn lemma_values_view_len(s: Seq<Value>)
    ensures
        values_view(s).len() == s.len(),
    decreases s.len(),
{
    if s.len() > 0 {
        lemma_values_view_len(s.subrange(0, s.len() - 1));
    }
}

pub proof fn lemma_values_view_index(s: Seq<Value>, i: int)
    requires
        0 <= i < s.len(),
    ensures
        values_view(s).len() == s.len(),
        values_view(s)[i] == value_view(s[i]),
    decreases s.len(),
{
    lemma_values_view_len(s);
    if i < s.len() - 1 {
        lemma_values_view_index(s.subrange(0, s.len() - 1), i);
    }
}

pub proof fn lemma_values_view_take_push(s: Seq<Value>, i: int)
    requires
        0 <= i < s.len(),
    ensures
        values_view(s.subrange(0, i + 1)) == values_view(s.subrange(0, i)).push(value_view(s[i])),
{
    assert(s.subrange(0, i + 1).subrange(0, i) =~= s.subrange(0, i));
}

pub proof fn lemma_entries_view_len(s: Seq<(String, Value)>)
    ensures
        entries_view(s).len() == s.len(),
    decreases s.len(),
{
    if s.len() > 0 {
        lemma_entries_view_len(s.subrange(0, s.len() - 1));
    }
}

pub proof fn lemma_entries_view_index(s: Seq<(String, Value)>, i: int)
    requires
        0 <= i < s.len(),
    ensures
        entries_view(s).len() == s.len(),
        entries_view(s)[i] == (s[i].0@, value_view(s[i].1)),
    decreases s.len(),
{
    lemma_entries_view_len(s);
    if i < s.len() - 1 {
        lemma_entries_view_index(s.subrange(0, s.len() - 1), i);
    }
}

pub proof fn lemma_entries_view_take_push(s: Seq<(String, Value)>, i: int)
    requires
        0 <= i < s.len(),
    ensures
        entries_view(s.subrange(0, i + 1)) == entries_view(s.subrange(0, i)).push(
            (s[i].0@, value_view(s[i].1)),
        ),
{
    assert(s.subrange(0, i + 1).subrange(0, i) =~= s.subrange(0, i));
}

pub proof fn lemma_encodable_list_index(items: Seq<ValueView>, i: int)
    requires
        0 <= i < items.len(),
        encodable_list(items),
    ensures
        encodable(items[i]),
    decreases items.len(),
{
    if i < items.len() - 1 {
        lemma_encodable_list_index(items.subrange(0, items.len() - 1), i);
    }
}

pub proof fn lemma_encodable_entries_index(entries: Seq<(Seq<char>, ValueView)>, i: int)
    requires
        0 <= i < entries.len(),
        encodable_entries(entries),
    ensures
        encode_utf8(entries[i].0).len() <= u32::MAX,
        encodable(entries[i].1),
    decreases entries.len(),
{
    if i < entries.len() - 1 {
        lemma_encodable_entries_index(entries.subrange(0, entries.len() - 1), i);
    }
}

} // verus!
