//! The capability bundle a component receives at startup, and the small
//! broker messages around it: the wire shape of grants and Casper
//! channels, the role tokens, and the delegated-spawn request and reply.
//!
//! A grant or channel travels as a dict whose capability field is a
//! `Value::Handle` into the handle table; the descriptor rides beside the
//! table entry.

use vstd::prelude::*;
use crate::broker::catalogue::{lookup, lemma_lookup_at};
use crate::cap::{CapBody, CapBodyError, CAP_BODY_LEN, KIND_FD_CAPABILITY, body_decoded};
use crate::msg::envelope::RawHandle;
use crate::msg::error::{WireError, WireFault};
use crate::msg::value::{
    Value, ValueView, entries_view, kind_name_of, lemma_entries_view_index, lemma_entries_view_len,
    lemma_values_view_index, lemma_values_view_len, values_view,
};
use crate::msg::wire::{HandleSink, HandleStore, Wire, mismatch, reported_count, type_mismatch};

verus! {

pub const KEY_INTERFACE: &'static str = "interface";
pub const KEY_ROLE: &'static str = "role";
pub const KEY_CAPABILITY: &'static str = "capability";
pub const ROLE_CLIENT: &'static str = "client";
pub const ROLE_SERVER: &'static str = "server";
pub const KEY_OUTCOME: &'static str = "outcome";
pub const KEY_REASON: &'static str = "reason";
pub const OUTCOME_SPAWNED: &'static str = "spawned";
pub const OUTCOME_REFUSED: &'static str = "refused";
pub const KEY_SERVICE: &'static str = "service";
pub const KEY_CHANNEL: &'static str = "channel";
pub const KEY_GRANTS: &'static str = "grants";
pub const KEY_CASPER_CHANNELS: &'static str = "casper_channels";

/// The `RawHandle` kind of a Casper service channel.
pub const KIND_CASPER_CHANNEL: u8 = 2;

/// Which end of a ring a grant is.
#[derive(Debug, Clone, Copy, PartialEq, Eq, Structural)]
pub enum Role {
    /// The requester's end.
    Client,
    /// The provider's end.
    Server,
}

pub open spec fn role_token(r: Role) -> Seq<char> {
    match r {
        Role::Client => "client"@,
        Role::Server => "server"@,
    }
}

pub open spec fn role_of(token: Seq<char>) -> Result<Role, WireFault> {
    if token == "client"@ {
        Ok(Role::Client)
    } else if token == "server"@ {
        Ok(Role::Server)
    } else {
        Err(WireFault::UnknownVariant(token))
    }
}

impl Role {
    /// The token this role travels as.
    pub fn as_token(self) -> (t: &'static str)
        ensures
            t@ == role_token(self),
    {
        match self {
            Role::Client => ROLE_CLIENT,
            Role::Server => ROLE_SERVER,
        }
    }

    /// The role a token names.
    pub fn from_token(token: &str) -> (r: Result<Role, WireError>)
        ensures
            match role_of(token@) {
                Ok(role) => r == Ok::<Role, WireError>(role),
                Err(e) => r matches Err(x) && x@ == e,
            },
    {
        let t = crate::text::chars_of(token);
        if crate::text::eq_str(t.as_slice(), ROLE_CLIENT) {
            Ok(Role::Client)
        } else if crate::text::eq_str(t.as_slice(), ROLE_SERVER) {
            Ok(Role::Server)
        } else {
            Err(WireError::UnknownVariant(token.to_owned()))
        }
    }
}

/// A delegated-spawn request: the name of a spawnable manifest.
#[derive(Debug, Clone, PartialEq, Eq)]
pub struct SpawnChild {
    pub manifest: String,
}

/// The broker's answer to a [`SpawnChild`].
#[derive(Debug, Clone, PartialEq, Eq)]
pub enum SpawnReply {
    /// The child was spawned.
    Spawned,
    /// The request was refused, with the reason.
    Refused(String),
}

/// The entries of a dict value.
pub open spec fn fields_of(fields: Seq<(String, Value)>) -> Seq<(Seq<char>, ValueView)> {
    entries_view(fields)
}

/// The value of field `key`, or `MissingField`.
pub open spec fn field(fields: Seq<(Seq<char>, ValueView)>, key: Seq<char>) -> Result<
    ValueView,
    WireFault,
> {
    match lookup(fields, key) {
        Some(v) => Ok(v),
        None => Err(WireFault::MissingField(key)),
    }
}

/// The text of string field `key`.
pub open spec fn text_field(fields: Seq<(Seq<char>, ValueView)>, key: Seq<char>) -> Result<
    Seq<char>,
    WireFault,
> {
    match field(fields, key) {
        Err(e) => Err(e),
        Ok(ValueView::Str(s)) => Ok(s),
        Ok(other) => Err(mismatch("string"@, other)),
    }
}

/// The handle index of handle field `key`.
pub open spec fn handle_field(fields: Seq<(Seq<char>, ValueView)>, key: Seq<char>) -> Result<
    u32,
    WireFault,
> {
    match field(fields, key) {
        Err(e) => Err(e),
        Ok(ValueView::Handle(i)) => Ok(i),
        Ok(other) => Err(mismatch("handle"@, other)),
    }
}

/// The value of field `key` (the first entry of that name).
pub fn dict_get<'v>(fields: &'v [(String, Value)], key: &'static str) -> (r: Result<
    &'v Value,
    WireError,
>)
    ensures
        match field(entries_view(fields@), key@) {
            Ok(v) => r matches Ok(x) && x@ == v,
            Err(e) => r matches Err(x) && x@ == e,
        },
{
    let ghost es = entries_view(fields@);
    proof {
        lemma_entries_view_len(fields@);
    }
    let mut i: usize = 0;
    while i < fields.len()
        invariant
            i <= fields@.len(),
            es == entries_view(fields@),
            es.len() == fields@.len(),
            forall|j: int| 0 <= j < i ==> (#[trigger] es[j]).0 != key@,
        decreases fields@.len() - i,
    {
        proof {
            lemma_entries_view_index(fields@, i as int);
        }
        if crate::text::eq_str(crate::text::chars_of(fields[i].0.as_str()).as_slice(), key) {
            proof {
                lemma_lookup_at(es, key@, i as int);
            }
            return Ok(&fields[i].1);
        }
        i = i + 1;
    }
    proof {
        lemma_lookup_at(es, key@, i as int);
    }
    Err(WireError::MissingField(key))
}

/// The text of string field `key`.
pub fn dict_str<'v>(fields: &'v [(String, Value)], key: &'static str) -> (r: Result<
    &'v str,
    WireError,
>)
    ensures
        match text_field(entries_view(fields@), key@) {
            Ok(s) => r matches Ok(x) && x@ == s,
            Err(e) => r matches Err(x) && x@ == e,
        },
{
    match dict_get(fields, key)? {
        Value::Str(text) => Ok(text.as_str()),
        other => Err(WireError::TypeMismatch { expected: "string", found: other.kind_name() }),
    }
}

/// The handle index of handle field `key`.
pub fn dict_handle(fields: &[(String, Value)], key: &'static str) -> (r: Result<u32, WireError>)
    ensures
        match handle_field(entries_view(fields@), key@) {
            Ok(i) => r == Ok::<u32, WireError>(i),
            Err(e) => r matches Err(x) && x@ == e,
        },
{
    match dict_get(fields, key)? {
        Value::Handle(index) => Ok(*index),
        other => Err(WireError::TypeMismatch { expected: "handle", found: other.kind_name() }),
    }
}

/// The entries of a dict value, or the mismatch a non-dict is.
pub fn dict_fields(value: &Value) -> (r: Result<&Vec<(String, Value)>, WireError>)
    ensures
        match value@ {
            ValueView::Dict(es) => r matches Ok(f) && entries_view(f@) == es,
            other => r matches Err(x) && x@ == mismatch("dict"@, other),
        },
{
    match value {
        Value::Dict(fields) => Ok(fields),
        other => Err(WireError::TypeMismatch { expected: "dict", found: other.kind_name() }),
    }
}

/// A dict value of `(key, string)` entries, in order.
fn string_entry(key: &'static str, text: String) -> (e: (String, Value))
    ensures
        e.0@ == key@,
        e.1@ == ValueView::Str(text@),
{
    (key.to_owned(), Value::Str(text))
}

/// The value a grant travels as: its interface, its role token, and the
/// handle index of its capability.
pub open spec fn grant_value_of(interface: Seq<char>, role: Role, index: u32) -> ValueView {
    ValueView::Dict(
        seq![
            ("interface"@, ValueView::Str(interface)),
            ("role"@, ValueView::Str(role_token(role))),
            ("capability"@, ValueView::Handle(index)),
        ],
    )
}

/// The value a grant travels as.
pub fn grant_value(interface: &String, role: Role, index: u32) -> (v: Value)
    ensures
        v@ == grant_value_of(interface@, role, index),
{
    let mut fields: Vec<(String, Value)> = Vec::new();
    fields.push(string_entry(KEY_INTERFACE, interface.clone()));
    fields.push(string_entry(KEY_ROLE, Role::as_token(role).to_owned()));
    fields.push((KEY_CAPABILITY.to_owned(), Value::Handle(index)));
    proof {
        reveal_with_fuel(entries_view, 4);
        assert(fields@.subrange(0, 2).subrange(0, 1) =~= fields@.subrange(0, 1));
        assert(fields@.subrange(0, 1).subrange(0, 0) =~= Seq::<(String, Value)>::empty());
        assert(fields@.subrange(0, 3) =~= fields@);
    }
    let v = Value::Dict(fields);
    assert(entries_view(fields@) =~= seq![
        ("interface"@, ValueView::Str(interface@)),
        ("role"@, ValueView::Str(role_token(role))),
        ("capability"@, ValueView::Handle(index)),
    ]);
    v
}

/// What a grant's value names: its interface, its role, and the handle
/// index of its capability.
pub open spec fn grant_parts_of(v: ValueView) -> Result<(Seq<char>, Role, u32), WireFault> {
    match v {
        ValueView::Dict(fs) => match text_field(fs, "interface"@) {
            Err(e) => Err(e),
            Ok(interface) => match text_field(fs, "role"@) {
                Err(e) => Err(e),
                Ok(token) => match role_of(token) {
                    Err(e) => Err(e),
                    Ok(role) => match handle_field(fs, "capability"@) {
                        Err(e) => Err(e),
                        Ok(index) => Ok((interface, role, index)),
                    },
                },
            },
        },
        other => Err(mismatch("dict"@, other)),
    }
}

/// Read a grant's value: its interface, role and capability index.
pub fn grant_parts(value: &Value) -> (r: Result<(String, Role, u32), WireError>)
    ensures
        match grant_parts_of(value@) {
            Ok((i, role, index)) => r matches Ok(p) && p.0@ == i && p.1 == role && p.2 == index,
            Err(e) => r matches Err(x) && x@ == e,
        },
{
    let fields = dict_fields(value)?;
    let interface = dict_str(fields.as_slice(), KEY_INTERFACE)?.to_owned();
    let role = Role::from_token(dict_str(fields.as_slice(), KEY_ROLE)?)?;
    let index = dict_handle(fields.as_slice(), KEY_CAPABILITY)?;
    Ok((interface, role, index))
}

/// The message a grant handle of the wrong kind is rejected with.
pub open spec fn wrong_grant_kind(kind: u8) -> Seq<char> {
    "a bundle grant must be an fd capability (kind 1), got kind "@ + crate::log::decimal(
        kind as nat,
    )
}

/// The message a capability body of the wrong length is rejected with.
pub open spec fn wrong_body_length(found: usize) -> Seq<char> {
    "a capability body must be 20 bytes, got "@ + crate::log::decimal(found as nat)
}

/// The rights a grant's handle carries: it must be an fd capability with
/// a well-formed body.
pub open spec fn grant_rights_of(h: (u8, Seq<u8>)) -> Result<(Seq<u8>, u32), WireFault> {
    if h.0 != KIND_FD_CAPABILITY {
        Err(WireFault::MalformedHandle(wrong_grant_kind(h.0)))
    } else {
        match body_decoded(h.1) {
            Ok(b) => Ok(b),
            Err(CapBodyError::WrongLength { found }) => Err(
                WireFault::MalformedHandle(wrong_body_length(found)),
            ),
        }
    }
}

/// `lead` followed by the decimal digits of `n`.
fn with_number(lead: &str, n: u64) -> (s: String)
    ensures
        s@ == lead@ + crate::log::decimal(n as nat),
{
    let mut cs = crate::text::chars_of(lead);
    let digits = crate::log::decimal_chars(n);
    let mut i: usize = 0;
    let ghost start = cs@;
    while i < digits.len()
        invariant
            i <= digits@.len(),
            cs@ == start + digits@.subrange(0, i as int),
        decreases digits@.len() - i,
    {
        cs.push(digits[i]);
        i = i + 1;
        assert(cs@ =~= start + digits@.subrange(0, i as int));
    }
    assert(digits@.subrange(0, digits@.len() as int) =~= digits@);
    crate::text::string_of(cs.as_slice())
}

/// Check a grant's handle and decode the rights it carries.
pub fn grant_rights(handle: &RawHandle) -> (r: Result<CapBody, WireError>)
    ensures
        match grant_rights_of(handle@) {
            Ok((rights, object)) => r matches Ok(b) && b.cap_rights@ == rights && b.object_rights
                == object,
            Err(e) => r matches Err(x) && x@ == e,
        },
{
    if handle.kind != KIND_FD_CAPABILITY {
        return Err(
            WireError::MalformedHandle(
                with_number(
                    "a bundle grant must be an fd capability (kind 1), got kind ",
                    handle.kind as u64,
                ),
            ),
        );
    }
    match CapBody::decode(handle.body.as_slice()) {
        Ok(b) => Ok(b),
        Err(CapBodyError::WrongLength { found }) => Err(
            WireError::MalformedHandle(
                with_number("a capability body must be 20 bytes, got ", found as u64),
            ),
        ),
    }
}

/// The value a Casper channel travels as: its service and the handle
/// index of its channel.
pub open spec fn casper_value_of(service: Seq<char>, index: u32) -> ValueView {
    ValueView::Dict(
        seq![("service"@, ValueView::Str(service)), ("channel"@, ValueView::Handle(index))],
    )
}

/// The value a Casper channel travels as.
pub fn casper_value(service: &String, index: u32) -> (v: Value)
    ensures
        v@ == casper_value_of(service@, index),
{
    let mut fields: Vec<(String, Value)> = Vec::new();
    fields.push(string_entry(KEY_SERVICE, service.clone()));
    fields.push((KEY_CHANNEL.to_owned(), Value::Handle(index)));
    proof {
        reveal_with_fuel(entries_view, 3);
        assert(fields@.subrange(0, 1).subrange(0, 0) =~= Seq::<(String, Value)>::empty());
        assert(fields@.subrange(0, 2) =~= fields@);
    }
    let v = Value::Dict(fields);
    assert(entries_view(fields@) =~= seq![
        ("service"@, ValueView::Str(service@)),
        ("channel"@, ValueView::Handle(index)),
    ]);
    v
}

/// What a Casper channel's value names: its service and channel index.
pub open spec fn casper_parts_of(v: ValueView) -> Result<(Seq<char>, u32), WireFault> {
    match v {
        ValueView::Dict(fs) => match text_field(fs, "service"@) {
            Err(e) => Err(e),
            Ok(service) => match handle_field(fs, "channel"@) {
                Err(e) => Err(e),
                Ok(index) => Ok((service, index)),
            },
        },
        other => Err(mismatch("dict"@, other)),
    }
}

/// Read a Casper channel's value: its service and channel index.
pub fn casper_parts(value: &Value) -> (r: Result<(String, u32), WireError>)
    ensures
        match casper_parts_of(value@) {
            Ok((s, index)) => r matches Ok(p) && p.0@ == s && p.1 == index,
            Err(e) => r matches Err(x) && x@ == e,
        },
{
    let fields = dict_fields(value)?;
    let service = dict_str(fields.as_slice(), KEY_SERVICE)?.to_owned();
    let index = dict_handle(fields.as_slice(), KEY_CHANNEL)?;
    Ok((service, index))
}

/// The message a channel handle of the wrong kind is rejected with.
pub open spec fn wrong_channel_kind(kind: u8) -> Seq<char> {
    "a Casper channel must be kind 2, got kind "@ + crate::log::decimal(kind as nat)
}

/// Check that a handle is a Casper channel.
pub fn casper_check(handle: &RawHandle) -> (r: Result<(), WireError>)
    ensures
        handle.kind == KIND_CASPER_CHANNEL ==> r is Ok,
        handle.kind != KIND_CASPER_CHANNEL ==> (r matches Err(x) && x@
            == WireFault::MalformedHandle(wrong_channel_kind(handle.kind))),
{
    if handle.kind != KIND_CASPER_CHANNEL {
        return Err(
            WireError::MalformedHandle(
                with_number("a Casper channel must be kind 2, got kind ", handle.kind as u64),
            ),
        );
    }
    Ok(())
}

/// The value a bundle travels as: its grants' and channels' values.
pub fn bundle_value(grants: Vec<Value>, casper_channels: Vec<Value>) -> (v: Value)
    ensures
        v@ == ValueView::Dict(
            seq![
                ("grants"@, ValueView::List(crate::msg::value::values_view(grants@))),
                (
                    "casper_channels"@,
                    ValueView::List(crate::msg::value::values_view(casper_channels@)),
                ),
            ],
        ),
{
    let ghost g = grants@;
    let ghost c = casper_channels@;
    let mut fields: Vec<(String, Value)> = Vec::new();
    fields.push((KEY_GRANTS.to_owned(), Value::List(grants)));
    fields.push((KEY_CASPER_CHANNELS.to_owned(), Value::List(casper_channels)));
    proof {
        reveal_with_fuel(entries_view, 3);
        assert(fields@.subrange(0, 1).subrange(0, 0) =~= Seq::<(String, Value)>::empty());
        assert(fields@.subrange(0, 2) =~= fields@);
    }
    let v = Value::Dict(fields);
    assert(entries_view(fields@) =~= seq![
        ("grants"@, ValueView::List(crate::msg::value::values_view(g))),
        ("casper_channels"@, ValueView::List(crate::msg::value::values_view(c))),
    ]);
    v
}

impl<D> Wire<D> for SpawnChild {
    open spec fn handle_count(&self) -> nat {
        0
    }

    fn to_wire(&self, handles: &mut HandleSink<D>) -> (v: Value)
        ensures
            v@ == ValueView::Str(self.manifest@),
            final(handles)@ == old(handles)@,
    {
        Value::Str(self.manifest.clone())
    }

    fn from_wire(value: &Value, handles: &mut HandleStore<D>) -> (r: Result<SpawnChild, WireError>)
        ensures
            match value@ {
                ValueView::Str(s) => r matches Ok(x) && x.manifest@ == s,
                other => r matches Err(e) && e@ == mismatch("string"@, other),
            },
            final(handles)@ == old(handles)@,
    {
        Ok(SpawnChild { manifest: <String as Wire<D>>::from_wire(value, handles)? })
    }
}

/// The value a spawn reply travels as.
pub open spec fn reply_value_of(r: SpawnReply) -> ValueView {
    match r {
        SpawnReply::Spawned => ValueView::Dict(
            seq![("outcome"@, ValueView::Str("spawned"@))],
        ),
        SpawnReply::Refused(reason) => ValueView::Dict(
            seq![
                ("outcome"@, ValueView::Str("refused"@)),
                ("reason"@, ValueView::Str(reason@)),
            ],
        ),
    }
}

/// What a spawn reply's value says.
pub open spec fn reply_of(v: ValueView) -> Result<Option<Seq<char>>, WireFault> {
    match v {
        ValueView::Dict(fs) => match text_field(fs, "outcome"@) {
            Err(e) => Err(e),
            Ok(outcome) => if outcome == "spawned"@ {
                Ok(None)
            } else if outcome == "refused"@ {
                match text_field(fs, "reason"@) {
                    Err(e) => Err(e),
                    Ok(reason) => Ok(Some(reason)),
                }
            } else {
                Err(WireFault::UnknownVariant(outcome))
            },
        },
        other => Err(mismatch("dict"@, other)),
    }
}

impl<D> Wire<D> for SpawnReply {
    open spec fn handle_count(&self) -> nat {
        0
    }

    fn to_wire(&self, handles: &mut HandleSink<D>) -> (v: Value)
        ensures
            v@ == reply_value_of(*self),
            final(handles)@ == old(handles)@,
    {
        let mut fields: Vec<(String, Value)> = Vec::new();
        match self {
            SpawnReply::Spawned => {
                fields.push(string_entry(KEY_OUTCOME, OUTCOME_SPAWNED.to_owned()));
                proof {
                    reveal_with_fuel(entries_view, 2);
                    assert(fields@.subrange(0, 0) =~= Seq::<(String, Value)>::empty());
                }
                assert(entries_view(fields@) =~= seq![("outcome"@, ValueView::Str("spawned"@))]);
            },
            SpawnReply::Refused(reason) => {
                fields.push(string_entry(KEY_OUTCOME, OUTCOME_REFUSED.to_owned()));
                fields.push(string_entry(KEY_REASON, reason.clone()));
                proof {
                    reveal_with_fuel(entries_view, 3);
                    assert(fields@.subrange(0, 1).subrange(0, 0) =~= Seq::<
                        (String, Value),
                    >::empty());
                }
                assert(entries_view(fields@) =~= seq![
                    ("outcome"@, ValueView::Str("refused"@)),
                    ("reason"@, ValueView::Str(reason@)),
                ]);
            },
        }
        Value::Dict(fields)
    }

    fn from_wire(value: &Value, handles: &mut HandleStore<D>) -> (r: Result<SpawnReply, WireError>)
        ensures
            match reply_of(value@) {
                Ok(None) => r == Ok::<SpawnReply, WireError>(SpawnReply::Spawned),
                Ok(Some(reason)) => r matches Ok(SpawnReply::Refused(x)) && x@ == reason,
                Err(e) => r matches Err(x) && x@ == e,
            },
            final(handles)@ == old(handles)@,
    {
        let fields = dict_fields(value)?;
        let outcome = dict_str(fields.as_slice(), KEY_OUTCOME)?;
        let o = crate::text::chars_of(outcome);
        if crate::text::eq_str(o.as_slice(), OUTCOME_SPAWNED) {
            Ok(SpawnReply::Spawned)
        } else if crate::text::eq_str(o.as_slice(), OUTCOME_REFUSED) {
            Ok(SpawnReply::Refused(dict_str(fields.as_slice(), KEY_REASON)?.to_owned()))
        } else {
            Err(WireError::UnknownVariant(outcome.to_owned()))
        }
    }
}

// ---- descriptor-carrying messages ------------------------------------------------

/// A descriptor a message can carry. Encoding hands the handle table a
/// duplicate and keeps its own; decoding moves the table's back out.
pub trait Descriptor: Sized {
    /// A second descriptor for the same object.
    fn duplicate(&self) -> Self;
}

/// A raw descriptor number, as the handle table of a test or a log names
/// one.
impl Descriptor for i32 {
    /// The same number: a descriptor number names the same object.
    fn duplicate(&self) -> (d: i32)
        ensures
            d == *self,
    {
        *self
    }
}

/// One capability of a bundle: a ring end, the interface it speaks, the
/// role the component plays on it, and the rights minted for it.
#[derive(Debug)]
pub struct Grant<D> {
    pub interface: String,
    pub role: Role,
    pub rights: CapBody,
    pub endpoint: D,
}

/// One Casper service channel of a bundle.
#[derive(Debug)]
pub struct CasperChannel<D> {
    pub service: String,
    pub channel: D,
}

/// A component's whole startup authority: its peer-ring grants and its
/// Casper service channels.
#[derive(Debug)]
pub struct Bundle<D> {
    pub grants: Vec<Grant<D>>,
    pub casper_channels: Vec<CasperChannel<D>>,
}

/// A surviving peer's fresh ring end after a restart.
#[derive(Debug)]
pub struct PeerRestarted<D> {
    pub grant: Grant<D>,
}

/// The mathematical form of a [`Grant`].
pub struct GrantView<D> {
    pub interface: Seq<char>,
    pub role: Role,
    pub cap_rights: Seq<u8>,
    pub object_rights: u32,
    pub endpoint: D,
}

/// The mathematical form of a [`CasperChannel`].
pub struct CasperChannelView<D> {
    pub service: Seq<char>,
    pub channel: D,
}

/// The mathematical form of a [`Bundle`].
pub struct BundleView<D> {
    pub grants: Seq<GrantView<D>>,
    pub casper_channels: Seq<CasperChannelView<D>>,
}

impl<D> View for Grant<D> {
    type V = GrantView<D>;

    open spec fn view(&self) -> GrantView<D> {
        GrantView {
            interface: self.interface@,
            role: self.role,
            cap_rights: self.rights.cap_rights@,
            object_rights: self.rights.object_rights,
            endpoint: self.endpoint,
        }
    }
}

impl<D> View for CasperChannel<D> {
    type V = CasperChannelView<D>;

    open spec fn view(&self) -> CasperChannelView<D> {
        CasperChannelView { service: self.service@, channel: self.channel }
    }
}

impl<D> View for Bundle<D> {
    type V = BundleView<D>;

    open spec fn view(&self) -> BundleView<D> {
        BundleView {
            grants: self.grants@.map_values(|g: Grant<D>| g@),
            casper_channels: self.casper_channels@.map_values(|c: CasperChannel<D>| c@),
        }
    }
}

/// A store's slots: each entry and its descriptor, or `None` once taken.
pub type Slots<D> = Seq<Option<((u8, Seq<u8>), D)>>;

/// What taking handle `index` out of `s` yields.
pub open spec fn take_result<D>(s: Slots<D>, index: u32) -> Result<((u8, Seq<u8>), D), WireFault> {
    if index >= s.len() {
        Err(WireFault::BadHandleIndex { index, count: reported_count(s.len()) })
    } else {
        match s[index as int] {
            None => Err(WireFault::HandleTaken(index)),
            Some(p) => Ok(p),
        }
    }
}

/// The slots after taking handle `index` out of `s`.
pub open spec fn after_take<D>(s: Slots<D>, index: u32) -> Slots<D> {
    if index < s.len() && s[index as int] is Some {
        s.update(index as int, None)
    } else {
        s
    }
}

/// The handle-table entry a grant's rights travel as.
pub open spec fn grant_entry(cap_rights: Seq<u8>, object_rights: u32) -> (u8, Seq<u8>) {
    (KIND_FD_CAPABILITY, crate::cap::body_bytes(cap_rights, object_rights))
}

/// The handle-table entry a Casper channel travels as: no rights of its
/// own.
pub open spec fn channel_entry() -> (u8, Seq<u8>) {
    (KIND_CASPER_CHANNEL, Seq::empty())
}

/// What decoding a grant from `v` against slots `s` yields, and the slots
/// after: its parts first, then its handle is taken, then checked.
pub open spec fn grant_decoded<D>(v: ValueView, s: Slots<D>) -> (Result<GrantView<D>, WireFault>, Slots<D>) {
    match grant_parts_of(v) {
        Err(e) => (Err(e), s),
        Ok((interface, role, index)) => match take_result(s, index) {
            Err(e) => (Err(e), s),
            Ok((h, d)) => (
                match grant_rights_of(h) {
                    Err(e) => Err(e),
                    Ok((cap_rights, object_rights)) => Ok(
                        GrantView { interface, role, cap_rights, object_rights, endpoint: d },
                    ),
                },
                after_take(s, index),
            ),
        },
    }
}

/// What decoding a Casper channel from `v` against slots `s` yields, and
/// the slots after.
pub open spec fn channel_decoded<D>(v: ValueView, s: Slots<D>) -> (Result<CasperChannelView<D>, WireFault>, Slots<D>) {
    match casper_parts_of(v) {
        Err(e) => (Err(e), s),
        Ok((service, index)) => match take_result(s, index) {
            Err(e) => (Err(e), s),
            Ok((h, d)) => (
                if h.0 != KIND_CASPER_CHANNEL {
                    Err(WireFault::MalformedHandle(wrong_channel_kind(h.0)))
                } else {
                    Ok(CasperChannelView { service, channel: d })
                },
                after_take(s, index),
            ),
        },
    }
}

/// Take handle `index` out of a store, as `take_result` and `after_take`
/// describe it.
fn take_slot<D>(handles: &mut HandleStore<D>, index: u32) -> (r: Result<(RawHandle, D), WireError>)
    ensures
        match take_result(old(handles)@, index) {
            Ok((h, d)) => r matches Ok(p) && p.0@ == h && p.1 == d,
            Err(e) => r matches Err(x) && x@ == e,
        },
        final(handles)@ == after_take(old(handles)@, index),
{
    handles.take(index)
}

impl<D: Descriptor> Wire<D> for Grant<D> {
    open spec fn handle_count(&self) -> nat {
        1
    }

    fn to_wire(&self, handles: &mut HandleSink<D>) -> (v: Value)
        ensures
            v@ == grant_value_of(self.interface@, self.role, old(handles)@.len() as u32),
            final(handles)@.last().0 == grant_entry(self.rights.cap_rights@, self.rights.object_rights),
    {
        let endpoint = self.endpoint.duplicate();
        let handle = RawHandle { kind: KIND_FD_CAPABILITY, body: self.rights.encode() };
        let index = handles.push(handle, endpoint);
        let v = grant_value(&self.interface, self.role, index);
        assert(handles@.subrange(0, old(handles)@.len() as int) =~= old(handles)@);
        v
    }

    fn from_wire(value: &Value, handles: &mut HandleStore<D>) -> (r: Result<Grant<D>, WireError>)
        ensures
            final(handles)@ == grant_decoded(value@, old(handles)@).1,
            match grant_decoded(value@, old(handles)@).0 {
                Ok(g) => r matches Ok(x) && x@ == g,
                Err(e) => r matches Err(x) && x@ == e,
            },
    {
        let (interface, role, index) = grant_parts(value)?;
        let (handle, endpoint) = take_slot(handles, index)?;
        let rights = grant_rights(&handle)?;
        Ok(Grant { interface, role, rights, endpoint })
    }
}

impl<D: Descriptor> Wire<D> for PeerRestarted<D> {
    open spec fn handle_count(&self) -> nat {
        1
    }

    fn to_wire(&self, handles: &mut HandleSink<D>) -> (v: Value)
        ensures
            v@ == grant_value_of(self.grant.interface@, self.grant.role, old(handles)@.len() as u32),
            final(handles)@.last().0 == grant_entry(
                self.grant.rights.cap_rights@,
                self.grant.rights.object_rights,
            ),
    {
        self.grant.to_wire(handles)
    }

    fn from_wire(value: &Value, handles: &mut HandleStore<D>) -> (r: Result<PeerRestarted<D>, WireError>)
        ensures
            final(handles)@ == grant_decoded(value@, old(handles)@).1,
            match grant_decoded(value@, old(handles)@).0 {
                Ok(g) => r matches Ok(x) && x.grant@ == g,
                Err(e) => r matches Err(x) && x@ == e,
            },
    {
        Ok(PeerRestarted { grant: Grant::from_wire(value, handles)? })
    }
}

impl<D: Descriptor> Wire<D> for CasperChannel<D> {
    open spec fn handle_count(&self) -> nat {
        1
    }

    fn to_wire(&self, handles: &mut HandleSink<D>) -> (v: Value)
        ensures
            v@ == casper_value_of(self.service@, old(handles)@.len() as u32),
            final(handles)@.last().0 == channel_entry(),
    {
        let channel = self.channel.duplicate();
        let handle = RawHandle { kind: KIND_CASPER_CHANNEL, body: Vec::new() };
        let index = handles.push(handle, channel);
        let v = casper_value(&self.service, index);
        assert(handles@.subrange(0, old(handles)@.len() as int) =~= old(handles)@);
        assert(handles@.last().0.1 =~= Seq::<u8>::empty());
        v
    }

    fn from_wire(value: &Value, handles: &mut HandleStore<D>) -> (r: Result<CasperChannel<D>, WireError>)
        ensures
            final(handles)@ == channel_decoded(value@, old(handles)@).1,
            match channel_decoded(value@, old(handles)@).0 {
                Ok(c) => r matches Ok(x) && x@ == c,
                Err(e) => r matches Err(x) && x@ == e,
            },
    {
        let (service, index) = casper_parts(value)?;
        let (handle, channel) = take_slot(handles, index)?;
        casper_check(&handle)?;
        Ok(CasperChannel { service, channel })
    }
}

/// The values of grants `gs`, their handles numbered from `start`.
pub open spec fn grant_values<D>(gs: Seq<GrantView<D>>, start: int) -> Seq<ValueView> {
    Seq::new(gs.len(), |k: int| grant_value_of(gs[k].interface, gs[k].role, (start + k) as u32))
}

/// The values of channels `cs`, their handles numbered from `start`.
pub open spec fn channel_values<D>(cs: Seq<CasperChannelView<D>>, start: int) -> Seq<ValueView> {
    Seq::new(cs.len(), |k: int| casper_value_of(cs[k].service, (start + k) as u32))
}

/// The value a bundle travels as, its handles numbered from `start`: the
/// grants first, then the Casper channels.
pub open spec fn bundle_value_of<D>(b: BundleView<D>, start: int) -> ValueView {
    ValueView::Dict(
        seq![
            ("grants"@, ValueView::List(grant_values(b.grants, start))),
            (
                "casper_channels"@,
                ValueView::List(channel_values(b.casper_channels, start + b.grants.len())),
            ),
        ],
    )
}

/// The handle-table entries a bundle's encoding pushes, in order: one per
/// grant, then one per Casper channel.
pub open spec fn bundle_entries<D>(b: BundleView<D>) -> Seq<(u8, Seq<u8>)> {
    Seq::new(
        b.grants.len(),
        |k: int| grant_entry(b.grants[k].cap_rights, b.grants[k].object_rights),
    ) + Seq::new(b.casper_channels.len(), |j: int| channel_entry())
}

/// Decoding the first `n` grant values of `items` in turn against `s`.
pub open spec fn grants_decoded<D>(items: Seq<ValueView>, s: Slots<D>, n: int) -> (
    Result<Seq<GrantView<D>>, WireFault>,
    Slots<D>,
)
    decreases n,
{
    if n <= 0 {
        (Ok(Seq::empty()), s)
    } else {
        let (r, s1) = grants_decoded(items, s, n - 1);
        match r {
            Err(e) => (Err(e), s1),
            Ok(gs) => {
                let (g, s2) = grant_decoded(items[n - 1], s1);
                match g {
                    Err(e) => (Err(e), s2),
                    Ok(g) => (Ok(gs.push(g)), s2),
                }
            },
        }
    }
}

/// Decoding the first `n` Casper channel values of `items` in turn.
pub open spec fn channels_decoded<D>(items: Seq<ValueView>, s: Slots<D>, n: int) -> (
    Result<Seq<CasperChannelView<D>>, WireFault>,
    Slots<D>,
)
    decreases n,
{
    if n <= 0 {
        (Ok(Seq::empty()), s)
    } else {
        let (r, s1) = channels_decoded(items, s, n - 1);
        match r {
            Err(e) => (Err(e), s1),
            Ok(cs) => {
                let (c, s2) = channel_decoded(items[n - 1], s1);
                match c {
                    Err(e) => (Err(e), s2),
                    Ok(c) => (Ok(cs.push(c)), s2),
                }
            },
        }
    }
}

/// Decoding a list of grants.
pub open spec fn grant_list_decoded<D>(v: ValueView, s: Slots<D>) -> (
    Result<Seq<GrantView<D>>, WireFault>,
    Slots<D>,
) {
    match v {
        ValueView::List(items) => grants_decoded(items, s, items.len() as int),
        other => (Err(mismatch("list"@, other)), s),
    }
}

/// Decoding a list of Casper channels.
pub open spec fn channel_list_decoded<D>(v: ValueView, s: Slots<D>) -> (
    Result<Seq<CasperChannelView<D>>, WireFault>,
    Slots<D>,
) {
    match v {
        ValueView::List(items) => channels_decoded(items, s, items.len() as int),
        other => (Err(mismatch("list"@, other)), s),
    }
}

/// What decoding a bundle from `v` against slots `s` yields, and the slots
/// after: the grants are read and decoded first, then the channels.
pub open spec fn bundle_decoded<D>(v: ValueView, s: Slots<D>) -> (
    Result<BundleView<D>, WireFault>,
    Slots<D>,
) {
    match v {
        ValueView::Dict(fs) => match field(fs, "grants"@) {
            Err(e) => (Err(e), s),
            Ok(gv) => {
                let (gr, s1) = grant_list_decoded(gv, s);
                match gr {
                    Err(e) => (Err(e), s1),
                    Ok(gs) => match field(fs, "casper_channels"@) {
                        Err(e) => (Err(e), s1),
                        Ok(cv) => {
                            let (cr, s2) = channel_list_decoded(cv, s1);
                            match cr {
                                Err(e) => (Err(e), s2),
                                Ok(cs) => (Ok(BundleView { grants: gs, casper_channels: cs }), s2),
                            }
                        },
                    },
                }
            },
        },
        other => (Err(mismatch("dict"@, other)), s),
    }
}

proof fn lemma_grants_err_persists<D>(items: Seq<ValueView>, s: Slots<D>, k: int, n: int)
    requires
        0 < k <= n,
        grants_decoded(items, s, k).0 is Err,
    ensures
        grants_decoded(items, s, n) == grants_decoded(items, s, k),
    decreases n - k,
{
    if k < n {
        lemma_grants_err_persists(items, s, k, n - 1);
    }
}

proof fn lemma_channels_err_persists<D>(items: Seq<ValueView>, s: Slots<D>, k: int, n: int)
    requires
        0 < k <= n,
        channels_decoded(items, s, k).0 is Err,
    ensures
        channels_decoded(items, s, n) == channels_decoded(items, s, k),
    decreases n - k,
{
    if k < n {
        lemma_channels_err_persists(items, s, k, n - 1);
    }
}

/// Decode a list of grants, in order, each moving its handle out.
fn decode_grants<D: Descriptor>(value: &Value, handles: &mut HandleStore<D>) -> (r: Result<
    Vec<Grant<D>>,
    WireError,
>)
    ensures
        final(handles)@ == grant_list_decoded(value@, old(handles)@).1,
        match grant_list_decoded(value@, old(handles)@).0 {
            Ok(gs) => r matches Ok(x) && x@.map_values(|g: Grant<D>| g@) == gs,
            Err(e) => r matches Err(x) && x@ == e,
        },
{
    match value {
        Value::List(items) => {
            let ghost vs = values_view(items@);
            let ghost s0 = handles@;
            proof {
                lemma_values_view_len(items@);
            }
            let mut out: Vec<Grant<D>> = Vec::new();
            assert(out@.map_values(|x: Grant<D>| x@) =~= Seq::<GrantView<D>>::empty());
            let mut i: usize = 0;
            while i < items.len()
                invariant
                    *value == Value::List(*items),
                    vs == values_view(items@),
                    vs.len() == items@.len(),
                    s0 == old(handles)@,
                    i <= items@.len(),
                    grants_decoded(vs, s0, i as int) == (
                        Ok::<Seq<GrantView<D>>, WireFault>(out@.map_values(|g: Grant<D>| g@)),
                        handles@,
                    ),
                decreases items@.len() - i,
            {
                proof {
                    lemma_values_view_index(items@, i as int);
                }
                let ghost pre = handles@;
                let g = match Grant::from_wire(&items[i], handles) {
                    Ok(g) => g,
                    Err(e) => {
                        proof {
                            assert(grants_decoded(vs, s0, i + 1).0 is Err);
                            assert(grants_decoded(vs, s0, i + 1).1 == handles@);
                            lemma_grants_err_persists(vs, s0, i + 1, vs.len() as int);
                        }
                        return Err(e);
                    },
                };
                let ghost before = out@;
                out.push(g);
                assert(out@.map_values(|g: Grant<D>| g@) =~= before.map_values(|g: Grant<D>| g@).push(
                    g@,
                ));
                i = i + 1;
            }
            Ok(out)
        },
        other => Err(type_mismatch("list", other)),
    }
}

/// Decode a list of Casper channels, in order, each moving its handle out.
fn decode_channels<D: Descriptor>(value: &Value, handles: &mut HandleStore<D>) -> (r: Result<
    Vec<CasperChannel<D>>,
    WireError,
>)
    ensures
        final(handles)@ == channel_list_decoded(value@, old(handles)@).1,
        match channel_list_decoded(value@, old(handles)@).0 {
            Ok(cs) => r matches Ok(x) && x@.map_values(|c: CasperChannel<D>| c@) == cs,
            Err(e) => r matches Err(x) && x@ == e,
        },
{
    match value {
        Value::List(items) => {
            let ghost vs = values_view(items@);
            let ghost s0 = handles@;
            proof {
                lemma_values_view_len(items@);
            }
            let mut out: Vec<CasperChannel<D>> = Vec::new();
            assert(out@.map_values(|x: CasperChannel<D>| x@) =~= Seq::<CasperChannelView<D>>::empty());
            let mut i: usize = 0;
            while i < items.len()
                invariant
                    *value == Value::List(*items),
                    vs == values_view(items@),
                    vs.len() == items@.len(),
                    s0 == old(handles)@,
                    i <= items@.len(),
                    channels_decoded(vs, s0, i as int) == (
                        Ok::<Seq<CasperChannelView<D>>, WireFault>(
                            out@.map_values(|c: CasperChannel<D>| c@),
                        ),
                        handles@,
                    ),
                decreases items@.len() - i,
            {
                proof {
                    lemma_values_view_index(items@, i as int);
                }
                let ghost pre = handles@;
                let c = match CasperChannel::from_wire(&items[i], handles) {
                    Ok(c) => c,
                    Err(e) => {
                        proof {
                            assert(channels_decoded(vs, s0, i + 1).0 is Err);
                            assert(channels_decoded(vs, s0, i + 1).1 == handles@);
                            lemma_channels_err_persists(vs, s0, i + 1, vs.len() as int);
                        }
                        return Err(e);
                    },
                };
                let ghost before = out@;
                out.push(c);
                assert(out@.map_values(|c: CasperChannel<D>| c@) =~= before.map_values(
                    |c: CasperChannel<D>| c@,
                ).push(c@));
                i = i + 1;
            }
            Ok(out)
        },
        other => Err(type_mismatch("list", other)),
    }
}

impl<D: Descriptor> Wire<D> for Bundle<D> {
    open spec fn handle_count(&self) -> nat {
        self.grants@.len() + self.casper_channels@.len()
    }

    fn to_wire(&self, handles: &mut HandleSink<D>) -> (v: Value)
        ensures
            v@ == bundle_value_of(self@, old(handles)@.len() as int),
            forall|i: int|
                0 <= i < bundle_entries(self@).len() ==> (#[trigger] final(handles)@[old(
                    handles,
                )@.len() + i]).0 == bundle_entries(self@)[i],
    {
        let ghost start = handles@.len() as int;
        let ghost prefix = handles@;
        let ghost b = self@;
        let ghost n = self.grants@.len() as int;
        let mut gvals: Vec<Value> = Vec::new();
        let mut i: usize = 0;
        while i < self.grants.len()
            invariant
                b == self@,
                n == self.grants@.len(),
                i <= n,
                handles.wf(),
                0 <= start,
                prefix.len() == start,
                handles@.len() == start + i,
                handles@.subrange(0, start) == prefix,
                start + self.grants@.len() + self.casper_channels@.len() <= u32::MAX,
                gvals@.len() == i,
                forall|k: int|
                    0 <= k < i ==> (#[trigger] gvals@[k])@ == grant_value_of(
                        b.grants[k].interface,
                        b.grants[k].role,
                        (start + k) as u32,
                    ),
                forall|k: int|
                    0 <= k < i ==> (#[trigger] handles@[start + k]).0 == bundle_entries(b)[k],
            decreases n - i,
        {
            assert(b.grants[i as int] == self.grants@[i as int]@);
            let ghost before = handles@;
            let v = self.grants[i].to_wire(handles);
            proof {
                let bl = before.len() as int;
                assert forall|k: int| 0 <= k < start implies #[trigger] handles@[k] == prefix[k] by {
                    assert(handles@.subrange(0, bl)[k] == handles@[k]);
                    assert(before.subrange(0, start)[k] == before[k]);
                }
                assert(handles@.subrange(0, start) =~= prefix);
                assert forall|k: int| 0 <= k < i implies (#[trigger] handles@[start + k]).0 == bundle_entries(b)[k] by {
                    assert(handles@.subrange(0, bl)[start + k] == handles@[start + k]);
                }
                assert(handles@[start + i] == handles@.last());
            }
            gvals.push(v);
            i = i + 1;
        }
        let mut cvals: Vec<Value> = Vec::new();
        let mut j: usize = 0;
        while j < self.casper_channels.len()
            invariant
                b == self@,
                n == self.grants@.len(),
                j <= self.casper_channels@.len(),
                handles.wf(),
                0 <= start,
                0 <= n,
                prefix.len() == start,
                handles@.len() == start + n + j,
                handles@.subrange(0, start) == prefix,
                start + self.grants@.len() + self.casper_channels@.len() <= u32::MAX,
                cvals@.len() == j,
                forall|k: int|
                    0 <= k < j ==> (#[trigger] cvals@[k])@ == casper_value_of(
                        b.casper_channels[k].service,
                        (start + n + k) as u32,
                    ),
                forall|k: int|
                    0 <= k < n + j ==> (#[trigger] handles@[start + k]).0 == bundle_entries(b)[k],
            decreases self.casper_channels@.len() - j,
        {
            assert(b.casper_channels[j as int] == self.casper_channels@[j as int]@);
            let ghost before = handles@;
            let v = self.casper_channels[j].to_wire(handles);
            proof {
                let bl = before.len() as int;
                assert forall|k: int| 0 <= k < start implies #[trigger] handles@[k] == prefix[k] by {
                    assert(handles@.subrange(0, bl)[k] == handles@[k]);
                    assert(before.subrange(0, start)[k] == before[k]);
                }
                assert(handles@.subrange(0, start) =~= prefix);
                assert forall|k: int| 0 <= k < n + j implies (#[trigger] handles@[start + k]).0 == bundle_entries(b)[k] by {
                    assert(handles@.subrange(0, bl)[start + k] == handles@[start + k]);
                }
                assert(handles@[start + n + j] == handles@.last());
                assert(bundle_entries(b)[n + j] == channel_entry());
            }
            cvals.push(v);
            j = j + 1;
        }
        proof {
            lemma_values_view_len(gvals@);
            lemma_values_view_len(cvals@);
            assert forall|k: int| 0 <= k < gvals@.len() implies values_view(gvals@)[k] == grant_values(b.grants, start)[k] by {
                lemma_values_view_index(gvals@, k);
            }
            assert forall|k: int| 0 <= k < cvals@.len() implies values_view(cvals@)[k] == channel_values(b.casper_channels, start + n)[k] by {
                lemma_values_view_index(cvals@, k);
            }
            assert(values_view(gvals@) =~= grant_values(b.grants, start));
            assert(values_view(cvals@) =~= channel_values(b.casper_channels, start + n));
        }
        let v = bundle_value(gvals, cvals);
        proof {
            assert(handles@.subrange(0, start) == prefix);
        }
        v
    }

    fn from_wire(value: &Value, handles: &mut HandleStore<D>) -> (r: Result<Bundle<D>, WireError>)
        ensures
            final(handles)@ == bundle_decoded(value@, old(handles)@).1,
            match bundle_decoded(value@, old(handles)@).0 {
                Ok(b) => r matches Ok(x) && x@ == b,
                Err(e) => r matches Err(x) && x@ == e,
            },
    {
        let fields = dict_fields(value)?;
        let gv = dict_get(fields.as_slice(), KEY_GRANTS)?;
        let grants = decode_grants(gv, handles)?;
        let cv = dict_get(fields.as_slice(), KEY_CASPER_CHANNELS)?;
        let casper_channels = decode_channels(cv, handles)?;
        Ok(Bundle { grants, casper_channels })
    }
}

// ---- laws ----------------------------------------------------------------------

/// A role reads back from the token it travels as.
pub proof fn lemma_role_round_trip(r: Role)
    ensures
        role_of(role_token(r)) == Ok::<Role, WireFault>(r),
{
    reveal_strlit("client");
    reveal_strlit("server");
    assert("server"@[0] != "client"@[0]);
}

/// A grant's value reads back as the interface, role and capability index
/// it was made from.
pub proof fn lemma_grant_round_trip(interface: Seq<char>, role: Role, index: u32)
    ensures
        grant_parts_of(grant_value_of(interface, role, index)) == Ok::<
            (Seq<char>, Role, u32),
            WireFault,
        >((interface, role, index)),
{
    reveal_strlit("interface");
    reveal_strlit("role");
    reveal_strlit("capability");
    assert("role"@[0] != "interface"@[0]);
    assert("capability"@[0] != "interface"@[0]);
    assert("capability"@[0] != "role"@[0]);
    let fs = seq![
        ("interface"@, ValueView::Str(interface)),
        ("role"@, ValueView::Str(role_token(role))),
        ("capability"@, ValueView::Handle(index)),
    ];
    lemma_lookup_at(fs, "interface"@, 0);
    lemma_lookup_at(fs, "role"@, 1);
    lemma_lookup_at(fs, "capability"@, 2);
    lemma_role_round_trip(role);
}

/// A Casper channel's value reads back as the service and channel index
/// it was made from.
pub proof fn lemma_casper_round_trip(service: Seq<char>, index: u32)
    ensures
        casper_parts_of(casper_value_of(service, index)) == Ok::<(Seq<char>, u32), WireFault>(
            (service, index),
        ),
{
    reveal_strlit("service");
    reveal_strlit("channel");
    assert("channel"@[0] != "service"@[0]);
    let fs = seq![("service"@, ValueView::Str(service)), ("channel"@, ValueView::Handle(index))];
    lemma_lookup_at(fs, "service"@, 0);
    lemma_lookup_at(fs, "channel"@, 1);
}

/// A spawn reply reads back as what it said: spawned, or refused with its
/// reason.
pub proof fn lemma_reply_round_trip(r: SpawnReply)
    ensures
        reply_of(reply_value_of(r)) == (match r {
            SpawnReply::Spawned => Ok::<Option<Seq<char>>, WireFault>(None),
            SpawnReply::Refused(reason) => Ok(Some(reason@)),
        }),
{
    reveal_strlit("outcome");
    reveal_strlit("reason");
    reveal_strlit("spawned");
    reveal_strlit("refused");
    assert("reason"@[0] != "outcome"@[0]);
    assert("refused"@[0] != "spawned"@[0]);
    match r {
        SpawnReply::Spawned => {
            let fs = seq![("outcome"@, ValueView::Str("spawned"@))];
            assert(lookup(fs, "outcome"@) == Some(ValueView::Str("spawned"@)));
        },
        SpawnReply::Refused(reason) => {
            let fs = seq![("outcome"@, ValueView::Str("refused"@)), ("reason"@, ValueView::Str(reason@))];
            lemma_lookup_at(fs, "outcome"@, 0);
            lemma_lookup_at(fs, "reason"@, 1);
        },
    }
}

/// Slots `s` with the first `k` taken.
pub open spec fn cleared<D>(s: Slots<D>, k: int) -> Slots<D> {
    Seq::new(s.len(), |i: int| if i < k { None } else { s[i] })
}

/// The slots a bundle's encoding leaves for its decoding: one per grant,
/// its entry beside the grant's descriptor, then one per Casper channel.
pub open spec fn bundle_slots<D>(b: BundleView<D>, s: Slots<D>) -> bool {
    &&& s.len() == b.grants.len() + b.casper_channels.len()
    &&& forall|k: int|
        0 <= k < b.grants.len() ==> #[trigger] s[k] == Some(
            (bundle_entries(b)[k], b.grants[k].endpoint),
        )
    &&& forall|j: int|
        0 <= j < b.casper_channels.len() ==> #[trigger] s[b.grants.len() + j] == Some(
            (channel_entry(), b.casper_channels[j].channel),
        )
}

proof fn lemma_grants_round_trip<D>(b: BundleView<D>, s: Slots<D>, k: int)
    requires
        bundle_slots(b, s),
        forall|i: int| 0 <= i < b.grants.len() ==> (#[trigger] b.grants[i]).cap_rights.len() == 16,
        b.grants.len() + b.casper_channels.len() <= u32::MAX,
        0 <= k <= b.grants.len(),
    ensures
        grants_decoded(grant_values(b.grants, 0), s, k) == (
            Ok::<Seq<GrantView<D>>, WireFault>(b.grants.take(k)),
            cleared(s, k),
        ),
    decreases k,
{
    if k == 0 {
        assert(b.grants.take(0) =~= Seq::<GrantView<D>>::empty());
        assert(cleared(s, 0) =~= s);
    } else {
        lemma_grants_round_trip(b, s, k - 1);
        let g = b.grants[k - 1];
        let items = grant_values(b.grants, 0);
        let c = cleared(s, k - 1);
        assert(items[k - 1] == grant_value_of(g.interface, g.role, (k - 1) as u32));
        lemma_grant_round_trip(g.interface, g.role, (k - 1) as u32);
        assert(s[k - 1] == Some((bundle_entries(b)[k - 1], g.endpoint)));
        assert(bundle_entries(b)[k - 1] == grant_entry(g.cap_rights, g.object_rights));
        assert(c[k - 1] == s[k - 1]);
        crate::cap::lemma_body_roundtrip(g.cap_rights, g.object_rights);
        assert(after_take(c, (k - 1) as u32) =~= cleared(s, k));
        assert(b.grants.take(k) =~= b.grants.take(k - 1).push(g));
    }
}

proof fn lemma_channels_round_trip<D>(b: BundleView<D>, s: Slots<D>, j: int)
    requires
        bundle_slots(b, s),
        b.grants.len() + b.casper_channels.len() <= u32::MAX,
        0 <= j <= b.casper_channels.len(),
    ensures
        channels_decoded(
            channel_values(b.casper_channels, b.grants.len() as int),
            cleared(s, b.grants.len() as int),
            j,
        ) == (
            Ok::<Seq<CasperChannelView<D>>, WireFault>(b.casper_channels.take(j)),
            cleared(s, b.grants.len() + j),
        ),
    decreases j,
{
    let n = b.grants.len() as int;
    if j == 0 {
        assert(b.casper_channels.take(0) =~= Seq::<CasperChannelView<D>>::empty());
    } else {
        lemma_channels_round_trip(b, s, j - 1);
        let ch = b.casper_channels[j - 1];
        let items = channel_values(b.casper_channels, n);
        let c = cleared(s, n + j - 1);
        assert(items[j - 1] == casper_value_of(ch.service, (n + j - 1) as u32));
        lemma_casper_round_trip(ch.service, (n + j - 1) as u32);
        assert(s[n + (j - 1)] == Some((channel_entry(), ch.channel)));
        assert(c[n + j - 1] == s[n + j - 1]);
        assert(after_take(c, (n + j - 1) as u32) =~= cleared(s, n + j));
        assert(b.casper_channels.take(j) =~= b.casper_channels.take(j - 1).push(ch));
    }
}

/// A bundle reads back from its value and the handle table its encoding
/// filled: every grant with its interface, role, rights and descriptor,
/// every Casper channel with its service and descriptor, and every entry
/// of the table taken exactly once.
pub proof fn lemma_bundle_round_trip<D>(b: BundleView<D>, s: Slots<D>)
    requires
        bundle_slots(b, s),
        forall|i: int| 0 <= i < b.grants.len() ==> (#[trigger] b.grants[i]).cap_rights.len() == 16,
        b.grants.len() + b.casper_channels.len() <= u32::MAX,
    ensures
        bundle_decoded(bundle_value_of(b, 0), s) == (
            Ok::<BundleView<D>, WireFault>(b),
            Seq::new(s.len(), |i: int| None::<((u8, Seq<u8>), D)>),
        ),
{
    let n = b.grants.len() as int;
    let m = b.casper_channels.len() as int;
    reveal_strlit("grants");
    reveal_strlit("casper_channels");
    assert("casper_channels"@[0] != "grants"@[0]);
    let fs = seq![
        ("grants"@, ValueView::List(grant_values(b.grants, 0))),
        ("casper_channels"@, ValueView::List(channel_values(b.casper_channels, 0 + n))),
    ];
    lemma_lookup_at(fs, "grants"@, 0);
    lemma_lookup_at(fs, "casper_channels"@, 1);
    lemma_grants_round_trip(b, s, n);
    assert(b.grants.take(n) =~= b.grants);
    lemma_channels_round_trip(b, s, m);
    assert(b.casper_channels.take(m) =~= b.casper_channels);
    assert(cleared(s, n + m) =~= Seq::new(s.len(), |i: int| None::<((u8, Seq<u8>), D)>));
}

} // verus!
