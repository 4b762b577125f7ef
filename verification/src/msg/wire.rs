//! Typed views over values, and the handle sink and store that thread
//! capabilities through the payload/handle split. Each handle-table entry
//! travels with the descriptor it describes: a sink collects the two side
//! by side, and a store hands each pair out exactly once.

use vstd::prelude::*;
use crate::msg::envelope::{Envelope, Header, MessageKind, RawHandle};
use crate::msg::error::{WireError, WireFault};
use crate::msg::value::{Value, ValueView, kind_name_of};

verus! {

/// A type that may cross the bus: convertible to and from a [`Value`].
/// Encoding threads a [`HandleSink`] so capability fields land in the
/// handle table; decoding threads a [`HandleStore`] they are moved out of.
/// Plain data types ignore both.
pub trait Wire<D>: Sized {
    /// How many handle-table entries encoding this value pushes.
    spec fn handle_count(&self) -> nat;

    /// Encode into a value, pushing any capability into `handles`; the
    /// entries already there stay as they were.
    fn to_wire(&self, handles: &mut HandleSink<D>) -> (v: Value)
        requires
            old(handles).wf(),
            old(handles)@.len() + self.handle_count() <= u32::MAX,
        ensures
            final(handles).wf(),
            final(handles)@.len() == old(handles)@.len() + self.handle_count(),
            final(handles)@.subrange(0, old(handles)@.len() as int) == old(handles)@,
    ;

    /// Decode from a value, moving any capability out of `handles`.
    fn from_wire(value: &Value, handles: &mut HandleStore<D>) -> Result<Self, WireError>
    ;
}

/// What an interface's message enum knows of each of its messages.
pub trait Method {
    /// The interface's rights classes: each class name with the bitmask of
    /// the method ordinals it covers.
    const RIGHTS_CLASSES: &'static [(&'static str, u32)];

    /// The method ordinal of this message.
    fn method_id(&self) -> u16;

    /// Whether this message is a request, a command or an event.
    fn kind(&self) -> MessageKind;
}

/// A request message, with the type of its reply.
pub trait Request<D> {
    type Reply: Wire<D>;
}

/// Append-only collector for the handle table during encoding: each entry
/// beside its descriptor.
#[derive(Debug)]
pub struct HandleSink<D> {
    handles: Vec<RawHandle>,
    fds: Vec<D>,
}

impl<D> View for HandleSink<D> {
    type V = Seq<((u8, Seq<u8>), D)>;

    /// The entries pushed so far, each with its descriptor.
    closed spec fn view(&self) -> Seq<((u8, Seq<u8>), D)> {
        Seq::new(self.handles@.len(), |i: int| (self.handles@[i]@, self.fds@[i]))
    }
}

impl<D> HandleSink<D> {
    pub closed spec fn wf(&self) -> bool {
        self.handles@.len() == self.fds@.len()
    }

    pub fn new() -> (s: HandleSink<D>)
        ensures
            s.wf(),
            s@ == Seq::<((u8, Seq<u8>), D)>::empty(),
    {
        let s = HandleSink { handles: Vec::new(), fds: Vec::new() };
        assert(s@ =~= Seq::<((u8, Seq<u8>), D)>::empty());
        s
    }

    /// Append a handle and its descriptor; returns the index a
    /// `Value::Handle` should carry.
    pub fn push(&mut self, handle: RawHandle, fd: D) -> (index: u32)
        requires
            old(self).wf(),
            old(self)@.len() <= u32::MAX,
        ensures
            final(self).wf(),
            index == old(self)@.len(),
            final(self)@ == old(self)@.push((handle@, fd)),
    {
        let index = self.handles.len() as u32;
        let ghost h = handle@;
        self.handles.push(handle);
        self.fds.push(fd);
        assert(self@ =~= old(self)@.push((h, fd)));
        index
    }

    pub fn len(&self) -> (n: usize)
        requires
            self.wf(),
        ensures
            n == self@.len(),
    {
        self.handles.len()
    }

    pub fn is_empty(&self) -> (b: bool)
        requires
            self.wf(),
        ensures
            b == (self@.len() == 0),
    {
        self.handles.len() == 0
    }

    /// Consume the sink, yielding the handle table and, index for index,
    /// the descriptors.
    pub fn into_parts(self) -> (parts: (Vec<RawHandle>, Vec<D>))
        requires
            self.wf(),
        ensures
            parts.0@.len() == self@.len(),
            parts.1@.len() == self@.len(),
            forall|i: int| 0 <= i < self@.len() ==> (#[trigger] self@[i]) == (parts.0@[i]@, parts.1@[i]),
    {
        (self.handles, self.fds)
    }

    /// Consume the sink, yielding the collected handle table alone.
    pub fn into_handles(self) -> (handles: Vec<RawHandle>)
        requires
            self.wf(),
        ensures
            handles@.len() == self@.len(),
            forall|i: int| 0 <= i < self@.len() ==> (#[trigger] self@[i]).0 == handles@[i]@,
    {
        self.handles
    }
}

/// Owns received handles during decoding. Each may be taken exactly once:
/// a handle is move-only.
#[derive(Debug)]
pub struct HandleStore<D> {
    slots: Vec<Option<(RawHandle, D)>>,
}

/// A store slot: the entry and its descriptor while present.
pub open spec fn slot_view<D>(s: Option<(RawHandle, D)>) -> Option<((u8, Seq<u8>), D)> {
    match s {
        Some((h, d)) => Some((h@, d)),
        None => None,
    }
}

impl<D> View for HandleStore<D> {
    type V = Seq<Option<((u8, Seq<u8>), D)>>;

    /// Each slot: its entry and descriptor, or `None` once taken.
    closed spec fn view(&self) -> Seq<Option<((u8, Seq<u8>), D)>> {
        self.slots@.map_values(|s: Option<(RawHandle, D)>| slot_view(s))
    }
}

/// The `count` a `BadHandleIndex` from a store of `n` slots reports.
pub open spec fn reported_count(n: nat) -> u16 {
    if n > u16::MAX {
        u16::MAX
    } else {
        n as u16
    }
}

impl<D> HandleStore<D> {
    /// Pair the received handle table with its descriptors, index for
    /// index; the two counts must agree.
    pub fn new(handles: Vec<RawHandle>, fds: Vec<D>) -> (r: Result<HandleStore<D>, WireError>)
        ensures
            handles@.len() != fds@.len() ==> (r matches Err(e) && e@ == (
            WireFault::HandleFdMismatch {
                handles: handles@.len() as usize,
                fds: fds@.len() as usize,
            })),
            handles@.len() == fds@.len() ==> (r matches Ok(s) && s@.len() == handles@.len() && (
            forall|i: int|
                0 <= i < handles@.len() ==> #[trigger] s@[i] == Some(
                    (handles@[i]@, fds@[i]),
                ))),
    {
        if handles.len() != fds.len() {
            return Err(WireError::HandleFdMismatch { handles: handles.len(), fds: fds.len() });
        }
        let ghost hs = handles@;
        let ghost ds = fds@;
        let n = handles.len();
        let mut slots: Vec<Option<(RawHandle, D)>> = Vec::new();
        let mut handles = handles;
        let mut fds = fds;
        while handles.len() > 0
            invariant
                handles@.len() == fds@.len(),
                hs.len() == ds.len(),
                n == hs.len(),
                slots@.len() + handles@.len() == n,
                handles@ == hs.subrange(slots@.len() as int, n as int),
                fds@ == ds.subrange(slots@.len() as int, n as int),
                forall|i: int|
                    0 <= i < slots@.len() ==> #[trigger] slot_view(slots@[i]) == Some(
                        (hs[i]@, ds[i]),
                    ),
            decreases handles@.len(),
        {
            let h = handles.remove(0);
            let d = fds.remove(0);
            slots.push(Some((h, d)));
            assert(handles@ =~= hs.subrange(slots@.len() as int, n as int));
            assert(fds@ =~= ds.subrange(slots@.len() as int, n as int));
        }
        let s = HandleStore { slots };
        assert forall|i: int| 0 <= i < hs.len() implies #[trigger] s@[i] == Some(
            (hs[i]@, ds[i]),
        ) by {
            assert(s@[i] == slot_view(s.slots@[i]));
        }
        Ok(s)
    }

    /// Move handle `index` and its descriptor out of the store.
    pub fn take(&mut self, index: u32) -> (r: Result<(RawHandle, D), WireError>)
        ensures
            index >= old(self)@.len() ==> (r matches Err(e) && e@ == (WireFault::BadHandleIndex {
                index,
                count: reported_count(old(self)@.len()),
            }) && final(self)@ == old(self)@),
            index < old(self)@.len() && old(self)@[index as int] is None ==> (r matches Err(e)
                && e@ == WireFault::HandleTaken(index) && final(self)@ == old(self)@),
            index < old(self)@.len() && old(self)@[index as int] is Some ==> (r matches Ok(p) && (
            p.0@, p.1) == old(self)@[index as int]->0 && final(self)@ == old(self)@.update(
                index as int,
                None,
            )),
    {
        let count: u16 = if self.slots.len() > 65535 {
            65535
        } else {
            self.slots.len() as u16
        };
        let i = index as usize;
        if i >= self.slots.len() {
            return Err(WireError::BadHandleIndex { index, count });
        }
        let ghost before = self.slots@;
        let slot = self.slots.remove(i);
        self.slots.insert(i, None);
        assert(self.slots@ =~= before.update(i as int, None));
        assert(self@ =~= old(self)@.update(index as int, None));
        match slot {
            Some(pair) => {
                assert(old(self)@[index as int] == slot_view(before[i as int]));
                Ok(pair)
            },
            None => {
                self.slots.remove(i);
                self.slots.insert(i, None);
                assert(self.slots@ =~= before);
                Err(WireError::HandleTaken(index))
            },
        }
    }

    pub fn len(&self) -> (n: usize)
        ensures
            n == self@.len(),
    {
        self.slots.len()
    }

    pub fn is_empty(&self) -> (b: bool)
        ensures
            b == (self@.len() == 0),
    {
        self.slots.len() == 0
    }
}

/// A binary blob: the `bytes` value kind. A plain `Vec<u8>` crosses as a
/// list of integers; a `bytes` field uses this newtype instead.
#[derive(Debug, Clone, PartialEq, Eq, Default)]
pub struct Bytes(pub Vec<u8>);

/// A `TypeMismatch` naming the expected kind and the kind found.
pub open spec fn mismatch(expected: Seq<char>, found: ValueView) -> WireFault {
    WireFault::TypeMismatch { expected, found: kind_name_of(found) }
}

pub(crate) fn type_mismatch(expected: &'static str, found: &Value) -> (e: WireError)
    ensures
        e@ == mismatch(expected@, found@),
{
    WireError::TypeMismatch { expected, found: found.kind_name() }
}

impl<D> Wire<D> for bool {
    open spec fn handle_count(&self) -> nat {
        0
    }

    fn to_wire(&self, handles: &mut HandleSink<D>) -> (v: Value)
        ensures
            v@ == ValueView::Bool(*self),
            final(handles)@ == old(handles)@,
    {
        Value::Bool(*self)
    }

    fn from_wire(value: &Value, handles: &mut HandleStore<D>) -> (r: Result<bool, WireError>)
        ensures
            match value@ {
                ValueView::Bool(b) => r == Ok::<bool, WireError>(b),
                other => r matches Err(e) && e@ == mismatch("bool"@, other),
            },
            final(handles)@ == old(handles)@,
    {
        match value {
            Value::Bool(b) => Ok(*b),
            other => Err(type_mismatch("bool", other)),
        }
    }
}

impl<D> Wire<D> for i64 {
    open spec fn handle_count(&self) -> nat {
        0
    }

    fn to_wire(&self, handles: &mut HandleSink<D>) -> (v: Value)
        ensures
            v@ == ValueView::Int(*self),
            final(handles)@ == old(handles)@,
    {
        Value::Int(*self)
    }

    fn from_wire(value: &Value, handles: &mut HandleStore<D>) -> (r: Result<i64, WireError>)
        ensures
            match value@ {
                ValueView::Int(i) => r == Ok::<i64, WireError>(i),
                other => r matches Err(e) && e@ == mismatch("int"@, other),
            },
            final(handles)@ == old(handles)@,
    {
        match value {
            Value::Int(i) => Ok(*i),
            other => Err(type_mismatch("int", other)),
        }
    }
}

impl<D> Wire<D> for String {
    open spec fn handle_count(&self) -> nat {
        0
    }

    fn to_wire(&self, handles: &mut HandleSink<D>) -> (v: Value)
        ensures
            v@ == ValueView::Str(self@),
            final(handles)@ == old(handles)@,
    {
        Value::Str(self.clone())
    }

    fn from_wire(value: &Value, handles: &mut HandleStore<D>) -> (r: Result<String, WireError>)
        ensures
            match value@ {
                ValueView::Str(s) => r matches Ok(x) && x@ == s,
                other => r matches Err(e) && e@ == mismatch("string"@, other),
            },
            final(handles)@ == old(handles)@,
    {
        match value {
            Value::Str(s) => Ok(s.clone()),
            other => Err(type_mismatch("string", other)),
        }
    }
}

impl<D> Wire<D> for Bytes {
    open spec fn handle_count(&self) -> nat {
        0
    }

    fn to_wire(&self, handles: &mut HandleSink<D>) -> (v: Value)
        ensures
            v@ == ValueView::Bytes(self.0@),
            final(handles)@ == old(handles)@,
    {
        Value::Bytes(vstd::slice::slice_to_vec(self.0.as_slice()))
    }

    fn from_wire(value: &Value, handles: &mut HandleStore<D>) -> (r: Result<Bytes, WireError>)
        ensures
            match value@ {
                ValueView::Bytes(b) => r matches Ok(x) && x.0@ == b,
                other => r matches Err(e) && e@ == mismatch("bytes"@, other),
            },
            final(handles)@ == old(handles)@,
    {
        match value {
            Value::Bytes(b) => Ok(Bytes(vstd::slice::slice_to_vec(b.as_slice()))),
            other => Err(type_mismatch("bytes", other)),
        }
    }
}

/// An integer that must lie in `[lo, hi]` for the narrower type `target`.
pub open spec fn narrowed(value: ValueView, lo: int, hi: int, target: Seq<char>) -> Result<
    i64,
    WireFault,
> {
    match value {
        ValueView::Int(i) => if lo <= i <= hi {
            Ok(i)
        } else {
            Err(WireFault::IntOutOfRange { value: i, target })
        },
        other => Err(mismatch("int"@, other)),
    }
}

fn narrow(value: &Value, lo: i64, hi: i64, target: &'static str) -> (r: Result<i64, WireError>)
    ensures
        match narrowed(value@, lo as int, hi as int, target@) {
            Ok(i) => r == Ok::<i64, WireError>(i),
            Err(e) => r matches Err(x) && x@ == e,
        },
{
    match value {
        Value::Int(i) => {
            if lo <= *i && *i <= hi {
                Ok(*i)
            } else {
                Err(WireError::IntOutOfRange { value: *i, target })
            }
        },
        other => Err(type_mismatch("int", other)),
    }
}

/// Every narrow integer survives the trip through `Value::Int` and back.
pub proof fn lemma_narrow_ints_round_trip(a: i8, b: i16, c: i32, d: u8, e: u16, f: u32)
    ensures
        narrowed(ValueView::Int(a as i64), i8::MIN as int, i8::MAX as int, "i8"@) == Ok::<
            i64,
            WireFault,
        >(a as i64) && (a as i64) as i8 == a,
        narrowed(ValueView::Int(b as i64), i16::MIN as int, i16::MAX as int, "i16"@) == Ok::<
            i64,
            WireFault,
        >(b as i64) && (b as i64) as i16 == b,
        narrowed(ValueView::Int(c as i64), i32::MIN as int, i32::MAX as int, "i32"@) == Ok::<
            i64,
            WireFault,
        >(c as i64) && (c as i64) as i32 == c,
        narrowed(ValueView::Int(d as i64), 0, u8::MAX as int, "u8"@) == Ok::<i64, WireFault>(
            d as i64,
        ) && (d as i64) as u8 == d,
        narrowed(ValueView::Int(e as i64), 0, u16::MAX as int, "u16"@) == Ok::<i64, WireFault>(
            e as i64,
        ) && (e as i64) as u16 == e,
        narrowed(ValueView::Int(f as i64), 0, u32::MAX as int, "u32"@) == Ok::<i64, WireFault>(
            f as i64,
        ) && (f as i64) as u32 == f,
{
}

impl<D> Wire<D> for i8 {
    open spec fn handle_count(&self) -> nat {
        0
    }

    fn to_wire(&self, handles: &mut HandleSink<D>) -> (v: Value)
        ensures
            v@ == ValueView::Int(*self as i64),
            final(handles)@ == old(handles)@,
    {
        Value::Int(*self as i64)
    }

    fn from_wire(value: &Value, handles: &mut HandleStore<D>) -> (r: Result<i8, WireError>)
        ensures
            match narrowed(value@, i8::MIN as int, i8::MAX as int, "i8"@) {
                Ok(i) => r == Ok::<i8, WireError>(i as i8),
                Err(e) => r matches Err(x) && x@ == e,
            },
            final(handles)@ == old(handles)@,
    {
        let i = narrow(value, -128, 127, "i8")?;
        Ok(i as i8)
    }
}

impl<D> Wire<D> for i16 {
    open spec fn handle_count(&self) -> nat {
        0
    }

    fn to_wire(&self, handles: &mut HandleSink<D>) -> (v: Value)
        ensures
            v@ == ValueView::Int(*self as i64),
            final(handles)@ == old(handles)@,
    {
        Value::Int(*self as i64)
    }

    fn from_wire(value: &Value, handles: &mut HandleStore<D>) -> (r: Result<i16, WireError>)
        ensures
            match narrowed(value@, i16::MIN as int, i16::MAX as int, "i16"@) {
                Ok(i) => r == Ok::<i16, WireError>(i as i16),
                Err(e) => r matches Err(x) && x@ == e,
            },
            final(handles)@ == old(handles)@,
    {
        let i = narrow(value, -32768, 32767, "i16")?;
        Ok(i as i16)
    }
}

impl<D> Wire<D> for i32 {
    open spec fn handle_count(&self) -> nat {
        0
    }

    fn to_wire(&self, handles: &mut HandleSink<D>) -> (v: Value)
        ensures
            v@ == ValueView::Int(*self as i64),
            final(handles)@ == old(handles)@,
    {
        Value::Int(*self as i64)
    }

    fn from_wire(value: &Value, handles: &mut HandleStore<D>) -> (r: Result<i32, WireError>)
        ensures
            match narrowed(value@, i32::MIN as int, i32::MAX as int, "i32"@) {
                Ok(i) => r == Ok::<i32, WireError>(i as i32),
                Err(e) => r matches Err(x) && x@ == e,
            },
            final(handles)@ == old(handles)@,
    {
        let i = narrow(value, -2147483648, 2147483647, "i32")?;
        Ok(i as i32)
    }
}

impl<D> Wire<D> for u8 {
    open spec fn handle_count(&self) -> nat {
        0
    }

    fn to_wire(&self, handles: &mut HandleSink<D>) -> (v: Value)
        ensures
            v@ == ValueView::Int(*self as i64),
            final(handles)@ == old(handles)@,
    {
        Value::Int(*self as i64)
    }

    fn from_wire(value: &Value, handles: &mut HandleStore<D>) -> (r: Result<u8, WireError>)
        ensures
            match narrowed(value@, 0, u8::MAX as int, "u8"@) {
                Ok(i) => r == Ok::<u8, WireError>(i as u8),
                Err(e) => r matches Err(x) && x@ == e,
            },
            final(handles)@ == old(handles)@,
    {
        let i = narrow(value, 0, 255, "u8")?;
        Ok(i as u8)
    }
}

impl<D> Wire<D> for u16 {
    open spec fn handle_count(&self) -> nat {
        0
    }

    fn to_wire(&self, handles: &mut HandleSink<D>) -> (v: Value)
        ensures
            v@ == ValueView::Int(*self as i64),
            final(handles)@ == old(handles)@,
    {
        Value::Int(*self as i64)
    }

    fn from_wire(value: &Value, handles: &mut HandleStore<D>) -> (r: Result<u16, WireError>)
        ensures
            match narrowed(value@, 0, u16::MAX as int, "u16"@) {
                Ok(i) => r == Ok::<u16, WireError>(i as u16),
                Err(e) => r matches Err(x) && x@ == e,
            },
            final(handles)@ == old(handles)@,
    {
        let i = narrow(value, 0, 65535, "u16")?;
        Ok(i as u16)
    }
}

impl<D> Wire<D> for u32 {
    open spec fn handle_count(&self) -> nat {
        0
    }

    fn to_wire(&self, handles: &mut HandleSink<D>) -> (v: Value)
        ensures
            v@ == ValueView::Int(*self as i64),
            final(handles)@ == old(handles)@,
    {
        Value::Int(*self as i64)
    }

    fn from_wire(value: &Value, handles: &mut HandleStore<D>) -> (r: Result<u32, WireError>)
        ensures
            match narrowed(value@, 0, u32::MAX as int, "u32"@) {
                Ok(i) => r == Ok::<u32, WireError>(i as u32),
                Err(e) => r matches Err(x) && x@ == e,
            },
            final(handles)@ == old(handles)@,
    {
        let i = narrow(value, 0, 4294967295, "u32")?;
        Ok(i as u32)
    }
}

impl<D> Wire<D> for Value {
    open spec fn handle_count(&self) -> nat {
        0
    }

    fn to_wire(&self, handles: &mut HandleSink<D>) -> (v: Value)
        ensures
            v@ == self@,
            final(handles)@ == old(handles)@,
    {
        self.clone()
    }

    fn from_wire(value: &Value, handles: &mut HandleStore<D>) -> (r: Result<Value, WireError>)
        ensures
            r matches Ok(x) && x@ == value@,
            final(handles)@ == old(handles)@,
    {
        Ok(value.clone())
    }
}

/// How many handle-table entries encoding every item of `s` pushes.
pub open spec fn counts<D, T: Wire<D>>(s: Seq<T>) -> nat
    decreases s.len(),
{
    if s.len() == 0 {
        0
    } else {
        counts::<D, T>(s.drop_last()) + s.last().handle_count()
    }
}

proof fn lemma_counts_prefix<D, T: Wire<D>>(s: Seq<T>, i: int)
    requires
        0 <= i <= s.len(),
    ensures
        counts::<D, T>(s.take(i)) <= counts::<D, T>(s),
        i < s.len() ==> counts::<D, T>(s.take(i + 1)) == counts::<D, T>(s.take(i))
            + s[i].handle_count(),
    decreases s.len() - i,
{
    if i < s.len() {
        assert(s.take(i + 1).drop_last() =~= s.take(i));
        lemma_counts_prefix::<D, T>(s, i + 1);
    } else {
        assert(s.take(i) =~= s);
    }
}

impl<D, T: Wire<D>> Wire<D> for Vec<T> {
    open spec fn handle_count(&self) -> nat {
        counts::<D, T>(self@)
    }

    fn to_wire(&self, handles: &mut HandleSink<D>) -> (v: Value)
        ensures
            v@ matches ValueView::List(items) && items.len() == self@.len(),
    {
        let ghost start = handles@;
        proof {
            lemma_counts_prefix::<D, T>(self@, 0);
            assert(self@.take(0) =~= Seq::<T>::empty());
        }
        let mut items: Vec<Value> = Vec::new();
        let mut i: usize = 0;
        while i < self.len()
            invariant
                i <= self@.len(),
                items@.len() == i,
                handles.wf(),
                handles@.len() == start.len() + counts::<D, T>(self@.take(i as int)),
                handles@.subrange(0, start.len() as int) == start,
                start.len() + counts::<D, T>(self@) <= u32::MAX,
            decreases self@.len() - i,
        {
            proof {
                lemma_counts_prefix::<D, T>(self@, i as int);
                lemma_counts_prefix::<D, T>(self@, i + 1);
            }
            let ghost before = handles@;
            let item = self[i].to_wire(handles);
            proof {
                assert(handles@.subrange(0, start.len() as int) =~= handles@.subrange(
                    0,
                    before.len() as int,
                ).subrange(0, start.len() as int));
            }
            items.push(item);
            i = i + 1;
        }
        proof {
            crate::msg::value::lemma_values_view_len(items@);
            assert(self@.take(self@.len() as int) =~= self@);
        }
        Value::List(items)
    }

    fn from_wire(value: &Value, handles: &mut HandleStore<D>) -> (r: Result<Vec<T>, WireError>)
        ensures
            value@ is List ==> (r matches Ok(v) ==> v@.len() == value@->List_0.len()),
            !(value@ is List) ==> (r matches Err(e) && e@ == mismatch("list"@, value@)),
    {
        match value {
            Value::List(items) => {
                proof {
                    crate::msg::value::lemma_values_view_len(items@);
                }
                let mut out: Vec<T> = Vec::new();
                let mut i: usize = 0;
                while i < items.len()
                    invariant
                        *value == Value::List(*items),
                        i <= items@.len(),
                        out@.len() == i,
                    decreases items@.len() - i,
                {
                    let x = T::from_wire(&items[i], handles)?;
                    out.push(x);
                    i = i + 1;
                }
                Ok(out)
            },
            other => Err(type_mismatch("list", other)),
        }
    }
}

impl Envelope {
    /// Build an envelope from a typed message, with the descriptors of the
    /// capabilities it carries, index for index with its handle table.
    pub fn from_message<M: Wire<D>, D>(header: Header, message: &M) -> (r: (Envelope, Vec<D>))
        requires
            message.handle_count() <= u32::MAX,
        ensures
            r.0.header == header,
            r.0.handles@.len() == r.1@.len(),
            r.1@.len() == message.handle_count(),
    {
        let mut sink: HandleSink<D> = HandleSink::new();
        let payload = message.to_wire(&mut sink);
        let (handles, fds) = sink.into_parts();
        (Envelope { header, payload, handles }, fds)
    }

    /// Decode the typed message this envelope carries, given the
    /// descriptors that arrived with it.
    pub fn into_message<M: Wire<D>, D>(self, fds: Vec<D>) -> (r: Result<M, WireError>)
        ensures
            self.handles@.len() != fds@.len() ==> (r matches Err(e) && e@ == (
            WireFault::HandleFdMismatch {
                handles: self.handles@.len() as usize,
                fds: fds@.len() as usize,
            })),
    {
        let mut store = HandleStore::new(self.handles, fds)?;
        M::from_wire(&self.payload, &mut store)
    }
}

} // verus!
