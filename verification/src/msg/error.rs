//! Decode and typed-conversion errors.

use vstd::prelude::*;
use crate::log::decimal;
use crate::text::{hex, put_decimal, put_hex, put_signed, put_str, signed_decimal, string_of};

verus! {

/// Every way decoding bytes or converting a value to a typed view can fail.
///
/// Decoding untrusted input is total: it yields one of these, never a panic.
#[derive(Debug, Clone, PartialEq, Eq)]
pub enum WireError {
    /// A length or count ran past the end of the input.
    Truncated,
    /// An unknown value type tag.
    BadTag(u8),
    /// A `bool` or variant-presence byte that was neither `0x00` nor `0x01`.
    BadBool(u8),
    /// A string, dict name, or variant tag that was not valid UTF-8.
    BadUtf8,
    /// An envelope `version` this build does not speak.
    BadVersion(u8),
    /// A nonzero `flags` field — reserved, must be zero.
    BadFlags(u16),
    /// An envelope `kind` byte that was not 1, 2, or 3.
    BadKind(u8),
    /// Value nesting deeper than `MAX_DEPTH`.
    DepthExceeded,
    /// A `dict` carried the same name twice.
    DuplicateKey(String),
    /// A `Value::Handle` index with no matching handle-table entry.
    BadHandleIndex { index: u32, count: u16 },
    /// Bytes left over after a complete value or envelope.
    TrailingBytes,
    /// A typed field held the wrong value kind.
    TypeMismatch { expected: &'static str, found: &'static str },
    /// A required field was absent from a `dict`.
    MissingField(&'static str),
    /// An enum's variant tag matched no known variant.
    UnknownVariant(String),
    /// An integer did not fit the narrower target type.
    IntOutOfRange { value: i64, target: &'static str },
    /// A handle was already moved out of the store.
    HandleTaken(u32),
    /// The received handle table and the descriptor count disagree.
    HandleFdMismatch { handles: usize, fds: usize },
    /// A handle-table entry whose kind or body is not what the schema expects.
    MalformedHandle(String),
}

/// The mathematical form of a [`WireError`]: every string as its characters.
pub enum WireFault {
    Truncated,
    BadTag(u8),
    BadBool(u8),
    BadUtf8,
    BadVersion(u8),
    BadFlags(u16),
    BadKind(u8),
    DepthExceeded,
    DuplicateKey(Seq<char>),
    BadHandleIndex { index: u32, count: u16 },
    TrailingBytes,
    TypeMismatch { expected: Seq<char>, found: Seq<char> },
    MissingField(Seq<char>),
    UnknownVariant(Seq<char>),
    IntOutOfRange { value: i64, target: Seq<char> },
    HandleTaken(u32),
    HandleFdMismatch { handles: usize, fds: usize },
    MalformedHandle(Seq<char>),
}

impl View for WireError {
    type V = WireFault;

    open spec fn view(&self) -> WireFault {
        match self {
            WireError::Truncated => WireFault::Truncated,
            WireError::BadTag(t) => WireFault::BadTag(*t),
            WireError::BadBool(b) => WireFault::BadBool(*b),
            WireError::BadUtf8 => WireFault::BadUtf8,
            WireError::BadVersion(v) => WireFault::BadVersion(*v),
            WireError::BadFlags(f) => WireFault::BadFlags(*f),
            WireError::BadKind(k) => WireFault::BadKind(*k),
            WireError::DepthExceeded => WireFault::DepthExceeded,
            WireError::DuplicateKey(k) => WireFault::DuplicateKey(k@),
            WireError::BadHandleIndex { index, count } => WireFault::BadHandleIndex {
                index: *index,
                count: *count,
            },
            WireError::TrailingBytes => WireFault::TrailingBytes,
            WireError::TypeMismatch { expected, found } => WireFault::TypeMismatch {
                expected: expected@,
                found: found@,
            },
            WireError::MissingField(f) => WireFault::MissingField(f@),
            WireError::UnknownVariant(t) => WireFault::UnknownVariant(t@),
            WireError::IntOutOfRange { value, target } => WireFault::IntOutOfRange {
                value: *value,
                target: target@,
            },
            WireError::HandleTaken(i) => WireFault::HandleTaken(*i),
            WireError::HandleFdMismatch { handles, fds } => WireFault::HandleFdMismatch {
                handles: *handles,
                fds: *fds,
            },
            WireError::MalformedHandle(m) => WireFault::MalformedHandle(m@),
        }
    }
}

/// What `{:?}` writes for a string: the text quoted, with the standard
/// library's debug escapes.
pub uninterp spec fn debug_text(s: Seq<char>) -> Seq<char>;

/// A string as `{:?}` writes it, through the standard library's `Debug`
/// for `str`. Nothing is claimed of the escapes beyond their being a
/// function of the string.
#[verifier::external_body]
fn debug_quoted(s: &str) -> (r: String)
    ensures
        r@ == debug_text(s@),
{
    format!("{s:?}")
}

/// The message a wire error reads as, with `quoted` written where the
/// error's own string appears in its debug form.
pub open spec fn wire_message_quoting(f: WireFault, quoted: Seq<char>) -> Seq<char> {
    match f {
        WireFault::Truncated => "input ended mid-value"@,
        WireFault::BadTag(t) => "unknown value tag 0x"@ + hex(t as nat, 2),
        WireFault::BadBool(b) => "bad boolean byte 0x"@ + hex(b as nat, 2),
        WireFault::BadUtf8 => "string was not valid UTF-8"@,
        WireFault::BadVersion(v) => "unsupported wire version "@ + decimal(v as nat),
        WireFault::BadFlags(x) => "reserved flags must be zero, got 0x"@ + hex(x as nat, 4),
        WireFault::BadKind(k) => "unknown message kind "@ + decimal(k as nat),
        WireFault::DepthExceeded => "value nested deeper than "@ + decimal(
            crate::msg::value::MAX_DEPTH as nat,
        ),
        WireFault::DuplicateKey(k) => "duplicate dict key "@ + quoted,
        WireFault::BadHandleIndex { index, count } => "handle index "@ + decimal(index as nat)
            + " out of range (count "@ + decimal(count as nat) + ")"@,
        WireFault::TrailingBytes => "unexpected trailing bytes"@,
        WireFault::TypeMismatch { expected, found } => "expected "@ + expected + ", found "@
            + found,
        WireFault::MissingField(name) => "missing required field "@ + quoted,
        WireFault::UnknownVariant(tag) => "unknown variant "@ + quoted,
        WireFault::IntOutOfRange { value, target } => "integer "@ + signed_decimal(value as int)
            + " out of range for "@ + target,
        WireFault::HandleTaken(i) => "handle "@ + decimal(i as nat) + " already taken"@,
        WireFault::HandleFdMismatch { handles, fds } => "handle table has "@ + decimal(
            handles as nat,
        ) + " entries but "@ + decimal(fds as nat) + " descriptors arrived"@,
        WireFault::MalformedHandle(m) => m,
    }
}

/// The string of an error that its message writes in debug form, if any.
pub open spec fn quoted_source(f: WireFault) -> Option<Seq<char>> {
    match f {
        WireFault::DuplicateKey(k) => Some(k),
        WireFault::MissingField(name) => Some(name),
        WireFault::UnknownVariant(tag) => Some(tag),
        _ => None,
    }
}

/// The message a wire error reads as.
pub open spec fn wire_message(f: WireFault) -> Seq<char> {
    match quoted_source(f) {
        Some(s) => wire_message_quoting(f, debug_text(s)),
        None => wire_message_quoting(f, Seq::empty()),
    }
}

impl WireError {
    /// The message this error reads as.
    pub fn message(&self) -> (m: String)
        ensures
            m@ == wire_message(self@),
    {
        let quoted = match self {
            WireError::DuplicateKey(k) => debug_quoted(k.as_str()),
            WireError::MissingField(name) => debug_quoted(name),
            WireError::UnknownVariant(tag) => debug_quoted(tag.as_str()),
            _ => String::new(),
        };
        self.message_quoting(quoted.as_str())
    }

    /// The message this error reads as, with `quoted` written where the
    /// error's own string appears in its debug form.
    pub fn message_quoting(&self, quoted: &str) -> (m: String)
        ensures
            m@ == wire_message_quoting(self@, quoted@),
    {
        let mut out: Vec<char> = Vec::new();
        match self {
            WireError::Truncated => put_str(&mut out, "input ended mid-value"),
            WireError::BadTag(t) => {
                put_str(&mut out, "unknown value tag 0x");
                put_hex(&mut out, *t as u64, 2);
            },
            WireError::BadBool(b) => {
                put_str(&mut out, "bad boolean byte 0x");
                put_hex(&mut out, *b as u64, 2);
            },
            WireError::BadUtf8 => put_str(&mut out, "string was not valid UTF-8"),
            WireError::BadVersion(v) => {
                put_str(&mut out, "unsupported wire version ");
                put_decimal(&mut out, *v as u64);
            },
            WireError::BadFlags(x) => {
                put_str(&mut out, "reserved flags must be zero, got 0x");
                put_hex(&mut out, *x as u64, 4);
            },
            WireError::BadKind(k) => {
                put_str(&mut out, "unknown message kind ");
                put_decimal(&mut out, *k as u64);
            },
            WireError::DepthExceeded => {
                put_str(&mut out, "value nested deeper than ");
                put_decimal(&mut out, crate::msg::value::MAX_DEPTH as u64);
            },
            WireError::DuplicateKey(k) => {
                put_str(&mut out, "duplicate dict key ");
                put_str(&mut out, quoted);
            },
            WireError::BadHandleIndex { index, count } => {
                put_str(&mut out, "handle index ");
                put_decimal(&mut out, *index as u64);
                put_str(&mut out, " out of range (count ");
                put_decimal(&mut out, *count as u64);
                put_str(&mut out, ")");
            },
            WireError::TrailingBytes => put_str(&mut out, "unexpected trailing bytes"),
            WireError::TypeMismatch { expected, found } => {
                put_str(&mut out, "expected ");
                put_str(&mut out, expected);
                put_str(&mut out, ", found ");
                put_str(&mut out, found);
            },
            WireError::MissingField(name) => {
                put_str(&mut out, "missing required field ");
                put_str(&mut out, quoted);
            },
            WireError::UnknownVariant(tag) => {
                put_str(&mut out, "unknown variant ");
                put_str(&mut out, quoted);
            },
            WireError::IntOutOfRange { value, target } => {
                put_str(&mut out, "integer ");
                put_signed(&mut out, *value);
                put_str(&mut out, " out of range for ");
                put_str(&mut out, target);
            },
            WireError::HandleTaken(i) => {
                put_str(&mut out, "handle ");
                put_decimal(&mut out, *i as u64);
                put_str(&mut out, " already taken");
            },
            WireError::HandleFdMismatch { handles, fds } => {
                put_str(&mut out, "handle table has ");
                put_decimal(&mut out, *handles as u64);
                put_str(&mut out, " entries but ");
                put_decimal(&mut out, *fds as u64);
                put_str(&mut out, " descriptors arrived");
            },
            WireError::MalformedHandle(m) => put_str(&mut out, m.as_str()),
        }
        string_of(out.as_slice())
    }
}

} // verus!
