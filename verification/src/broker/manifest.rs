//! Component manifests: a component's whole declared authority, read from
//! a small fixed-schema text format of `#` comments, `key = value` lines,
//! `[section]` headers and repeatable `[capability]` blocks.
//!
//! Parsing is total: malformed input is always a [`ManifestError`] naming
//! the offending line, never a panic.

use vstd::prelude::*;
use crate::text::{
    content, line_content, slice_of, eq_str, lines, lines_of, parse_decimal, parse_unsigned, split_all,
    split_on, split_once, split_once_at, string_of, trim, trimmed, views,
};

verus! {

/// A parsed component manifest.
#[derive(Debug, Clone, PartialEq, Eq)]
pub struct Manifest {
    /// The component's name, unique within the authority graph.
    pub name: String,
    /// The interface the component exports.
    pub interface: String,
    /// The manifest schema version this component was authored against.
    pub version: u32,
    /// Every capability the component requests.
    pub capabilities: Vec<CapabilityRequest>,
    /// The jail the component runs in.
    pub jail: Jail,
    /// The component's resource budget.
    pub budget: Budget,
    /// What the broker does when the component exits.
    pub restart: RestartPolicy,
}

/// The kind of authority a [`CapabilityRequest`] asks for.
#[derive(Debug, Clone, Copy, PartialEq, Eq, Structural)]
pub enum CapabilityKind {
    /// A connection to a peer component.
    Peer,
    /// A kernel device.
    Device,
    /// A shareable memory handle.
    Memory,
    /// A Casper service channel.
    Casper,
    /// A scoped connection to the settings service.
    Settings,
    /// The right to ask the broker to spawn a child from the spawnable set.
    Spawn,
}

/// One capability a component requests.
#[derive(Debug, Clone, PartialEq, Eq)]
pub struct CapabilityRequest {
    pub kind: CapabilityKind,
    /// What the capability names (interface, class, subtree or service);
    /// empty only for a memory capability.
    pub target: String,
    /// The object rights requested, as rights-class tokens.
    pub rights: Vec<String>,
}

/// The jail a component runs in.
#[derive(Debug, Clone, PartialEq, Eq)]
pub struct Jail {
    /// The filesystem root the component sees, as written.
    pub root: String,
    pub network: Network,
    /// The principal the component runs as.
    pub user: String,
}

/// A jail's network exposure.
#[derive(Debug, Clone, Copy, PartialEq, Eq, Structural)]
pub enum Network {
    /// No network at all (written `none`).
    Isolated,
    /// The host network stack.
    Host,
}

/// A component's resource budget.
#[derive(Debug, Clone, Copy, PartialEq, Eq)]
pub struct Budget {
    /// The memory ceiling, in bytes.
    pub memory: u64,
    /// The maximum number of open file descriptors.
    pub fds: u32,
    /// An optional CPU-time cap, as a percentage of one core.
    pub cpu: Option<u32>,
}

/// What the broker does when a component exits.
#[derive(Debug, Clone, Copy, PartialEq, Eq, Structural)]
pub enum RestartPolicy {
    /// Restart on any exit, clean or crash.
    Always,
    /// Restart only on a non-zero exit.
    OnFailure,
    /// Never restart.
    Never,
}

/// A manifest that could not be parsed. Every variant names the line, but
/// a missing field, which names its section.
#[derive(Debug, Clone, PartialEq, Eq)]
pub enum ManifestError {
    /// A line that is neither blank, a comment, a `[section]`, nor `key = value`.
    Syntax { line: usize },
    /// A `[section]` name the schema does not define.
    UnknownSection { line: usize, name: String },
    /// A `[jail]`, `[budget]`, or `[restart]` section appearing twice.
    DuplicateSection { line: usize, name: &'static str },
    /// A key not valid in the section it appears in.
    UnknownKey { line: usize, section: &'static str, key: String },
    /// A key given a value the schema cannot accept.
    BadValue { line: usize, key: String, reason: &'static str },
    /// A key set twice in one section.
    DuplicateKey { line: usize, key: String },
    /// A required field that never appeared.
    Missing { section: &'static str, field: &'static str },
}

/// The mathematical form of a [`ManifestError`].
pub enum ManifestFault {
    Syntax { line: usize },
    UnknownSection { line: usize, name: Seq<char> },
    DuplicateSection { line: usize, name: Seq<char> },
    UnknownKey { line: usize, section: Seq<char>, key: Seq<char> },
    BadValue { line: usize, key: Seq<char>, reason: Seq<char> },
    DuplicateKey { line: usize, key: Seq<char> },
    Missing { section: Seq<char>, field: Seq<char> },
}

impl View for ManifestError {
    type V = ManifestFault;

    open spec fn view(&self) -> ManifestFault {
        match self {
            ManifestError::Syntax { line } => ManifestFault::Syntax { line: *line },
            ManifestError::UnknownSection { line, name } => ManifestFault::UnknownSection {
                line: *line,
                name: name@,
            },
            ManifestError::DuplicateSection { line, name } => ManifestFault::DuplicateSection {
                line: *line,
                name: name@,
            },
            ManifestError::UnknownKey { line, section, key } => ManifestFault::UnknownKey {
                line: *line,
                section: section@,
                key: key@,
            },
            ManifestError::BadValue { line, key, reason } => ManifestFault::BadValue {
                line: *line,
                key: key@,
                reason: reason@,
            },
            ManifestError::DuplicateKey { line, key } => ManifestFault::DuplicateKey {
                line: *line,
                key: key@,
            },
            ManifestError::Missing { section, field } => ManifestFault::Missing {
                section: section@,
                field: field@,
            },
        }
    }
}

/// The mathematical form of a [`CapabilityRequest`].
pub struct CapabilityRequestView {
    pub kind: CapabilityKind,
    pub target: Seq<char>,
    pub rights: Seq<Seq<char>>,
}

/// The mathematical form of a [`Jail`].
pub struct JailView {
    pub root: Seq<char>,
    pub network: Network,
    pub user: Seq<char>,
}

/// The mathematical form of a [`Manifest`].
pub struct ManifestView {
    pub name: Seq<char>,
    pub interface: Seq<char>,
    pub version: u32,
    pub capabilities: Seq<CapabilityRequestView>,
    pub jail: JailView,
    pub budget: Budget,
    pub restart: RestartPolicy,
}

/// The characters of each string.
pub open spec fn strs(v: Seq<String>) -> Seq<Seq<char>> {
    v.map_values(|s: String| s@)
}

impl View for CapabilityRequest {
    type V = CapabilityRequestView;

    open spec fn view(&self) -> CapabilityRequestView {
        CapabilityRequestView { kind: self.kind, target: self.target@, rights: strs(self.rights@) }
    }
}

impl View for Jail {
    type V = JailView;

    open spec fn view(&self) -> JailView {
        JailView { root: self.root@, network: self.network, user: self.user@ }
    }
}

impl View for Manifest {
    type V = ManifestView;

    open spec fn view(&self) -> ManifestView {
        ManifestView {
            name: self.name@,
            interface: self.interface@,
            version: self.version,
            capabilities: self.capabilities@.map_values(|c: CapabilityRequest| c@),
            jail: self.jail@,
            budget: self.budget,
            restart: self.restart,
        }
    }
}

// ---- the format, as mathematics -------------------------------------------

/// The section a `key = value` line belongs to.
#[derive(Debug, Clone, Copy, PartialEq, Eq, Structural)]
pub enum Section {
    /// The implicit top section, before any `[header]`.
    Identity,
    /// The most recently opened `[capability]` block.
    Capability,
    Jail,
    Budget,
    Restart,
}

/// A `[capability]` block as read so far.
pub struct CapDraft {
    pub kind: Option<CapabilityKind>,
    pub target: Option<Seq<char>>,
    pub rights: Option<Seq<Seq<char>>>,
}

/// Every field as read so far, and which once-only sections were opened.
pub struct Draft {
    pub name: Option<Seq<char>>,
    pub interface: Option<Seq<char>>,
    pub version: Option<u32>,
    pub caps: Seq<CapDraft>,
    pub jail_root: Option<Seq<char>>,
    pub jail_network: Option<Network>,
    pub jail_user: Option<Seq<char>>,
    pub budget_memory: Option<u64>,
    pub budget_fds: Option<u32>,
    pub budget_cpu: Option<u32>,
    pub restart: Option<RestartPolicy>,
    pub seen_jail: bool,
    pub seen_budget: bool,
    pub seen_restart: bool,
}

pub open spec fn empty_cap() -> CapDraft {
    CapDraft { kind: None, target: None, rights: None }
}

pub open spec fn empty_draft() -> Draft {
    Draft {
        name: None,
        interface: None,
        version: None,
        caps: Seq::empty(),
        jail_root: None,
        jail_network: None,
        jail_user: None,
        budget_memory: None,
        budget_fds: None,
        budget_cpu: None,
        restart: None,
        seen_jail: false,
        seen_budget: false,
        seen_restart: false,
    }
}

pub open spec fn kind_named(v: Seq<char>) -> Option<CapabilityKind> {
    if v == "peer"@ {
        Some(CapabilityKind::Peer)
    } else if v == "device"@ {
        Some(CapabilityKind::Device)
    } else if v == "memory"@ {
        Some(CapabilityKind::Memory)
    } else if v == "casper"@ {
        Some(CapabilityKind::Casper)
    } else if v == "settings"@ {
        Some(CapabilityKind::Settings)
    } else if v == "spawn"@ {
        Some(CapabilityKind::Spawn)
    } else {
        None
    }
}

pub open spec fn network_named(v: Seq<char>) -> Option<Network> {
    if v == "none"@ {
        Some(Network::Isolated)
    } else if v == "host"@ {
        Some(Network::Host)
    } else {
        None
    }
}

pub open spec fn restart_named(v: Seq<char>) -> Option<RestartPolicy> {
    if v == "always"@ {
        Some(RestartPolicy::Always)
    } else if v == "on-failure"@ {
        Some(RestartPolicy::OnFailure)
    } else if v == "never"@ {
        Some(RestartPolicy::Never)
    } else {
        None
    }
}

/// The non-empty pieces, in order.
pub open spec fn non_empty(ps: Seq<Seq<char>>) -> Seq<Seq<char>>
    decreases ps.len(),
{
    if ps.len() == 0 {
        Seq::empty()
    } else if ps.last().len() > 0 {
        non_empty(ps.drop_last()).push(ps.last())
    } else {
        non_empty(ps.drop_last())
    }
}

/// A comma-separated rights list: each entry trimmed, empty ones dropped.
pub open spec fn rights_list(value: Seq<char>) -> Seq<Seq<char>> {
    non_empty(split_on(value, ',').map_values(|p: Seq<char>| trimmed(p)))
}

/// The multiplier a size suffix stands for, if `c` is one.
pub open spec fn size_suffix(c: char) -> Option<nat> {
    if c == 'K' || c == 'k' {
        Some(1024)
    } else if c == 'M' || c == 'm' {
        Some(1024 * 1024)
    } else if c == 'G' || c == 'g' {
        Some(1024 * 1024 * 1024)
    } else {
        None
    }
}

/// A byte count with an optional binary `K`/`M`/`G` suffix; `None` when
/// it is malformed or does not fit a `u64`.
pub open spec fn size_value(value: Seq<char>) -> Option<u64> {
    let v = trimmed(value);
    if v.len() == 0 {
        None
    } else {
        let (digits, mult) = match size_suffix(v.last()) {
            Some(m) => (v.drop_last(), m),
            None => (v, 1nat),
        };
        match parse_unsigned(trimmed(digits), u64::MAX as nat) {
            None => None,
            Some(n) => if n * mult > u64::MAX {
                None
            } else {
                Some((n * mult) as u64)
            },
        }
    }
}

pub open spec fn u32_value(value: Seq<char>) -> Option<u32> {
    match parse_unsigned(value, u32::MAX as nat) {
        Some(n) => Some(n as u32),
        None => None,
    }
}

pub open spec fn bad_value(line: usize, key: Seq<char>, reason: Seq<char>) -> ManifestFault {
    ManifestFault::BadValue { line, key, reason }
}

pub open spec fn duplicate(line: usize, key: Seq<char>) -> ManifestFault {
    ManifestFault::DuplicateKey { line, key }
}

pub open spec fn unknown(line: usize, section: Seq<char>, key: Seq<char>) -> ManifestFault {
    ManifestFault::UnknownKey { line, section, key }
}

pub open spec fn not_integer() -> Seq<char> {
    "expected a non-negative integer"@
}

/// One `key = value` line in the identity section.
pub open spec fn assign_identity(d: Draft, key: Seq<char>, value: Seq<char>, line: usize) -> Result<
    Draft,
    ManifestFault,
> {
    if key == "name"@ {
        if d.name is Some {
            Err(duplicate(line, key))
        } else {
            Ok(Draft { name: Some(value), ..d })
        }
    } else if key == "interface"@ {
        if d.interface is Some {
            Err(duplicate(line, key))
        } else {
            Ok(Draft { interface: Some(value), ..d })
        }
    } else if key == "version"@ {
        match u32_value(value) {
            None => Err(bad_value(line, key, not_integer())),
            Some(n) => if d.version is Some {
                Err(duplicate(line, key))
            } else {
                Ok(Draft { version: Some(n), ..d })
            },
        }
    } else {
        Err(unknown(line, "identity"@, key))
    }
}

/// One `key = value` line in the open `[capability]` block.
pub open spec fn assign_capability(c: CapDraft, key: Seq<char>, value: Seq<char>, line: usize) -> Result<
    CapDraft,
    ManifestFault,
> {
    if key == "kind"@ {
        match kind_named(value) {
            None => Err(bad_value(line, key, "expected peer|device|memory|casper|settings"@)),
            Some(k) => if c.kind is Some {
                Err(duplicate(line, key))
            } else {
                Ok(CapDraft { kind: Some(k), ..c })
            },
        }
    } else if key == "interface"@ || key == "class"@ || key == "subtree"@ || key == "service"@
        || key == "target"@ {
        if c.target is Some {
            Err(duplicate(line, "target"@))
        } else {
            Ok(CapDraft { target: Some(value), ..c })
        }
    } else if key == "rights"@ {
        if c.rights is Some {
            Err(duplicate(line, key))
        } else {
            Ok(CapDraft { rights: Some(rights_list(value)), ..c })
        }
    } else {
        Err(unknown(line, "capability"@, key))
    }
}

/// One `key = value` line in the `[jail]` section.
pub open spec fn assign_jail(d: Draft, key: Seq<char>, value: Seq<char>, line: usize) -> Result<
    Draft,
    ManifestFault,
> {
    if key == "root"@ {
        if d.jail_root is Some {
            Err(duplicate(line, key))
        } else {
            Ok(Draft { jail_root: Some(value), ..d })
        }
    } else if key == "network"@ {
        match network_named(value) {
            None => Err(bad_value(line, key, "expected none|host"@)),
            Some(n) => if d.jail_network is Some {
                Err(duplicate(line, key))
            } else {
                Ok(Draft { jail_network: Some(n), ..d })
            },
        }
    } else if key == "user"@ {
        if d.jail_user is Some {
            Err(duplicate(line, key))
        } else {
            Ok(Draft { jail_user: Some(value), ..d })
        }
    } else {
        Err(unknown(line, "jail"@, key))
    }
}

/// One `key = value` line in the `[budget]` section.
pub open spec fn assign_budget(d: Draft, key: Seq<char>, value: Seq<char>, line: usize) -> Result<
    Draft,
    ManifestFault,
> {
    if key == "memory"@ {
        match size_value(value) {
            None => Err(
                bad_value(line, key, "expected a byte count, optionally K/M/G-suffixed"@),
            ),
            Some(n) => if d.budget_memory is Some {
                Err(duplicate(line, key))
            } else {
                Ok(Draft { budget_memory: Some(n), ..d })
            },
        }
    } else if key == "fds"@ {
        match u32_value(value) {
            None => Err(bad_value(line, key, not_integer())),
            Some(n) => if d.budget_fds is Some {
                Err(duplicate(line, key))
            } else {
                Ok(Draft { budget_fds: Some(n), ..d })
            },
        }
    } else if key == "cpu"@ {
        match u32_value(value) {
            None => Err(bad_value(line, key, not_integer())),
            Some(n) => if d.budget_cpu is Some {
                Err(duplicate(line, key))
            } else {
                Ok(Draft { budget_cpu: Some(n), ..d })
            },
        }
    } else {
        Err(unknown(line, "budget"@, key))
    }
}

/// One `key = value` line in the `[restart]` section.
pub open spec fn assign_restart(d: Draft, key: Seq<char>, value: Seq<char>, line: usize) -> Result<
    Draft,
    ManifestFault,
> {
    if key == "policy"@ {
        match restart_named(value) {
            None => Err(bad_value(line, key, "expected always|on-failure|never"@)),
            Some(p) => if d.restart is Some {
                Err(duplicate(line, key))
            } else {
                Ok(Draft { restart: Some(p), ..d })
            },
        }
    } else {
        Err(unknown(line, "restart"@, key))
    }
}

/// One `key = value` line within `section`.
pub open spec fn assign(d: Draft, section: Section, key: Seq<char>, value: Seq<char>, line: usize) -> Result<
    Draft,
    ManifestFault,
> {
    match section {
        Section::Identity => assign_identity(d, key, value, line),
        Section::Capability => if d.caps.len() == 0 {
            Ok(d)
        } else {
            match assign_capability(d.caps.last(), key, value, line) {
                Err(e) => Err(e),
                Ok(c) => Ok(Draft { caps: d.caps.update(d.caps.len() - 1, c), ..d }),
            }
        },
        Section::Jail => assign_jail(d, key, value, line),
        Section::Budget => assign_budget(d, key, value, line),
        Section::Restart => assign_restart(d, key, value, line),
    }
}

/// Opening the section called `name`.
pub open spec fn open_section(d: Draft, name: Seq<char>, line: usize) -> Result<
    (Draft, Section),
    ManifestFault,
> {
    if name == "capability"@ {
        Ok((Draft { caps: d.caps.push(empty_cap()), ..d }, Section::Capability))
    } else if name == "jail"@ {
        if d.seen_jail {
            Err(ManifestFault::DuplicateSection { line, name: "jail"@ })
        } else {
            Ok((Draft { seen_jail: true, ..d }, Section::Jail))
        }
    } else if name == "budget"@ {
        if d.seen_budget {
            Err(ManifestFault::DuplicateSection { line, name: "budget"@ })
        } else {
            Ok((Draft { seen_budget: true, ..d }, Section::Budget))
        }
    } else if name == "restart"@ {
        if d.seen_restart {
            Err(ManifestFault::DuplicateSection { line, name: "restart"@ })
        } else {
            Ok((Draft { seen_restart: true, ..d }, Section::Restart))
        }
    } else {
        Err(ManifestFault::UnknownSection { line, name })
    }
}

/// Reading one line, numbered `line`, in the state `(d, section)`.
pub open spec fn read_line(d: Draft, section: Section, raw: Seq<char>, line: usize) -> Result<
    (Draft, Section),
    ManifestFault,
> {
    let s = content(raw);
    if s.len() == 0 {
        Ok((d, section))
    } else if s[0] == '[' {
        if s.len() < 2 || s.last() != ']' {
            Err(ManifestFault::Syntax { line })
        } else {
            open_section(d, trimmed(s.subrange(1, s.len() - 1)), line)
        }
    } else {
        match split_once(s, '=') {
            None => Err(ManifestFault::Syntax { line }),
            Some((k, v)) => if trimmed(k).len() == 0 {
                Err(ManifestFault::Syntax { line })
            } else {
                match assign(d, section, trimmed(k), trimmed(v), line) {
                    Err(e) => Err(e),
                    Ok(d2) => Ok((d2, section)),
                }
            },
        }
    }
}

/// The state after reading the first `n` of `ls`.
pub open spec fn read_lines(ls: Seq<Seq<char>>, n: int) -> Result<(Draft, Section), ManifestFault>
    decreases n,
{
    if n <= 0 {
        Ok((empty_draft(), Section::Identity))
    } else {
        match read_lines(ls, n - 1) {
            Err(e) => Err(e),
            Ok((d, section)) => read_line(d, section, ls[n - 1], n as usize),
        }
    }
}

pub open spec fn missing(section: Seq<char>, field: Seq<char>) -> ManifestFault {
    ManifestFault::Missing { section, field }
}

/// A finished `[capability]` block.
pub open spec fn finish_cap(c: CapDraft) -> Result<CapabilityRequestView, ManifestFault> {
    match c.kind {
        None => Err(missing("capability"@, "kind"@)),
        Some(kind) => match c.target {
            Some(t) => Ok(
                CapabilityRequestView {
                    kind,
                    target: t,
                    rights: match c.rights {
                        Some(r) => r,
                        None => Seq::empty(),
                    },
                },
            ),
            None => if kind == CapabilityKind::Memory {
                Ok(
                    CapabilityRequestView {
                        kind,
                        target: Seq::empty(),
                        rights: match c.rights {
                            Some(r) => r,
                            None => Seq::empty(),
                        },
                    },
                )
            } else {
                Err(missing("capability"@, "target"@))
            },
        },
    }
}

/// The first `n` blocks, finished in order.
pub open spec fn finish_caps(caps: Seq<CapDraft>, n: int) -> Result<
    Seq<CapabilityRequestView>,
    ManifestFault,
>
    decreases n,
{
    if n <= 0 {
        Ok(Seq::empty())
    } else {
        match finish_caps(caps, n - 1) {
            Err(e) => Err(e),
            Ok(done) => match finish_cap(caps[n - 1]) {
                Err(e) => Err(e),
                Ok(c) => Ok(done.push(c)),
            },
        }
    }
}

/// The manifest a finished draft makes, or the first required field it
/// lacks.
pub open spec fn finish(d: Draft) -> Result<ManifestView, ManifestFault> {
    match finish_caps(d.caps, d.caps.len() as int) {
        Err(e) => Err(e),
        Ok(caps) => if d.name is None {
            Err(missing("identity"@, "name"@))
        } else if d.interface is None {
            Err(missing("identity"@, "interface"@))
        } else if d.version is None {
            Err(missing("identity"@, "version"@))
        } else if d.jail_root is None {
            Err(missing("jail"@, "root"@))
        } else if d.jail_network is None {
            Err(missing("jail"@, "network"@))
        } else if d.jail_user is None {
            Err(missing("jail"@, "user"@))
        } else if d.budget_memory is None {
            Err(missing("budget"@, "memory"@))
        } else if d.budget_fds is None {
            Err(missing("budget"@, "fds"@))
        } else if d.restart is None {
            Err(missing("restart"@, "policy"@))
        } else {
            Ok(
                ManifestView {
                    name: d.name->0,
                    interface: d.interface->0,
                    version: d.version->0,
                    capabilities: caps,
                    jail: JailView {
                        root: d.jail_root->0,
                        network: d.jail_network->0,
                        user: d.jail_user->0,
                    },
                    budget: Budget {
                        memory: d.budget_memory->0,
                        fds: d.budget_fds->0,
                        cpu: d.budget_cpu,
                    },
                    restart: d.restart->0,
                },
            )
        },
    }
}

/// What parsing `text` as a manifest yields.
pub open spec fn parse_manifest(text: Seq<char>) -> Result<ManifestView, ManifestFault> {
    let ls = lines_of(text);
    match read_lines(ls, ls.len() as int) {
        Err(e) => Err(e),
        Ok((d, _)) => finish(d),
    }
}

// ---- the parser ---------------------------------------------------------------

pub open spec fn opt_str(o: Option<String>) -> Option<Seq<char>> {
    match o {
        Some(s) => Some(s@),
        None => None,
    }
}

/// A `[capability]` block being accumulated.
struct CapBuilder {
    kind: Option<CapabilityKind>,
    target: Option<String>,
    rights: Option<Vec<String>>,
}

impl View for CapBuilder {
    type V = CapDraft;

    closed spec fn view(&self) -> CapDraft {
        CapDraft {
            kind: self.kind,
            target: opt_str(self.target),
            rights: match self.rights {
                Some(r) => Some(strs(r@)),
                None => None,
            },
        }
    }
}

/// Accumulates fields as lines are read, then validates in `finish`.
struct Builder {
    name: Option<String>,
    interface: Option<String>,
    version: Option<u32>,
    caps: Vec<CapBuilder>,
    jail_root: Option<String>,
    jail_network: Option<Network>,
    jail_user: Option<String>,
    budget_memory: Option<u64>,
    budget_fds: Option<u32>,
    budget_cpu: Option<u32>,
    restart: Option<RestartPolicy>,
    seen_jail: bool,
    seen_budget: bool,
    seen_restart: bool,
}

impl View for Builder {
    type V = Draft;

    closed spec fn view(&self) -> Draft {
        Draft {
            name: opt_str(self.name),
            interface: opt_str(self.interface),
            version: self.version,
            caps: self.caps@.map_values(|c: CapBuilder| c@),
            jail_root: opt_str(self.jail_root),
            jail_network: self.jail_network,
            jail_user: opt_str(self.jail_user),
            budget_memory: self.budget_memory,
            budget_fds: self.budget_fds,
            budget_cpu: self.budget_cpu,
            restart: self.restart,
            seen_jail: self.seen_jail,
            seen_budget: self.seen_budget,
            seen_restart: self.seen_restart,
        }
    }
}

/// Store a value into an empty slot, or reject a duplicate key.
fn set_once<T>(slot: &mut Option<T>, value: T, key: &[char], line: usize) -> (r: Result<
    (),
    ManifestError,
>)
    ensures
        *old(slot) is Some ==> (r matches Err(e) && e@ == duplicate(line, key@) && *final(slot)
            == *old(slot)),
        *old(slot) is None ==> r is Ok && *final(slot) == Some(value),
{
    if slot.is_some() {
        return Err(ManifestError::DuplicateKey { line, key: string_of(key) });
    }
    *slot = Some(value);
    Ok(())
}

/// Unwrap a required field or report it missing.
fn require<T>(slot: Option<T>, section: &'static str, field: &'static str) -> (r: Result<
    T,
    ManifestError,
>)
    ensures
        match slot {
            Some(v) => r matches Ok(x) && x == v,
            None => r matches Err(e) && e@ == missing(section@, field@),
        },
{
    match slot {
        Some(v) => Ok(v),
        None => Err(ManifestError::Missing { section, field }),
    }
}

fn unknown_key(section: &'static str, key: &[char], line: usize) -> (e: ManifestError)
    ensures
        e@ == unknown(line, section@, key@),
{
    ManifestError::UnknownKey { line, section, key: string_of(key) }
}

fn parse_u32(value: &[char], key: &[char], line: usize) -> (r: Result<u32, ManifestError>)
    ensures
        match u32_value(value@) {
            Some(n) => r == Ok::<u32, ManifestError>(n),
            None => r matches Err(e) && e@ == bad_value(line, key@, not_integer()),
        },
{
    match parse_decimal(value, 0xFFFF_FFFF) {
        Some(n) => Ok(n as u32),
        None => Err(
            ManifestError::BadValue {
                line,
                key: string_of(key),
                reason: "expected a non-negative integer",
            },
        ),
    }
}

fn parse_kind(value: &[char]) -> (r: Option<CapabilityKind>)
    ensures
        r == kind_named(value@),
{
    if eq_str(value, "peer") {
        Some(CapabilityKind::Peer)
    } else if eq_str(value, "device") {
        Some(CapabilityKind::Device)
    } else if eq_str(value, "memory") {
        Some(CapabilityKind::Memory)
    } else if eq_str(value, "casper") {
        Some(CapabilityKind::Casper)
    } else if eq_str(value, "settings") {
        Some(CapabilityKind::Settings)
    } else if eq_str(value, "spawn") {
        Some(CapabilityKind::Spawn)
    } else {
        None
    }
}

fn parse_network(value: &[char]) -> (r: Option<Network>)
    ensures
        r == network_named(value@),
{
    if eq_str(value, "none") {
        Some(Network::Isolated)
    } else if eq_str(value, "host") {
        Some(Network::Host)
    } else {
        None
    }
}

fn parse_restart(value: &[char]) -> (r: Option<RestartPolicy>)
    ensures
        r == restart_named(value@),
{
    if eq_str(value, "always") {
        Some(RestartPolicy::Always)
    } else if eq_str(value, "on-failure") {
        Some(RestartPolicy::OnFailure)
    } else if eq_str(value, "never") {
        Some(RestartPolicy::Never)
    } else {
        None
    }
}

/// Split a comma-separated rights list, trimming and dropping empty entries.
fn parse_rights(value: &[char]) -> (r: Vec<String>)
    ensures
        strs(r@) == rights_list(value@),
{
    let pieces = split_all(value, ',');
    let ghost trimmed_pieces = split_on(value@, ',').map_values(|p: Seq<char>| trimmed(p));
    let mut out: Vec<String> = Vec::new();
    let mut i: usize = 0;
    while i < pieces.len()
        invariant
            i <= pieces@.len(),
            views(pieces@) == split_on(value@, ','),
            trimmed_pieces == split_on(value@, ',').map_values(|p: Seq<char>| trimmed(p)),
            strs(out@) == non_empty(trimmed_pieces.subrange(0, i as int)),
        decreases pieces@.len() - i,
    {
        let t = trim(pieces[i].as_slice());
        proof {
            assert(views(pieces@)[i as int] == pieces@[i as int]@);
            let next = trimmed_pieces.subrange(0, i + 1);
            assert(next.drop_last() =~= trimmed_pieces.subrange(0, i as int));
            assert(next.last() == t@);
        }
        if t.len() > 0 {
            out.push(string_of(t.as_slice()));
        }
        i = i + 1;
        assert(strs(out@) =~= non_empty(trimmed_pieces.subrange(0, i as int)));
    }
    assert(trimmed_pieces.subrange(0, pieces@.len() as int) =~= trimmed_pieces);
    out
}

/// Parse a byte count with an optional binary `K`/`M`/`G` suffix.
pub fn parse_size(value: &[char]) -> (r: Option<u64>)
    ensures
        r == size_value(value@),
{
    let v = trim(value);
    if v.len() == 0 {
        return None;
    }
    let last = v[v.len() - 1];
    let mult: u64 = if last == 'K' || last == 'k' {
        1024
    } else if last == 'M' || last == 'm' {
        1024 * 1024
    } else if last == 'G' || last == 'g' {
        1024 * 1024 * 1024
    } else {
        1
    };
    let mut digits = v;
    if mult != 1 {
        digits.pop();
    }
    assert(digits@ == (match size_suffix(v@.last()) {
        Some(m) => v@.drop_last(),
        None => v@,
    }));
    let d = trim(digits.as_slice());
    match parse_decimal(d.as_slice(), 0xFFFF_FFFF_FFFF_FFFF) {
        None => None,
        Some(n) => n.checked_mul(mult),
    }
}

/// A run of digits, with or without one letter after it, is its own trim.
proof fn lemma_digits_untrimmed(s: Seq<char>)
    requires
        s.len() > 0,
        crate::text::is_digit(s[0]),
        !crate::text::is_ws(s.last()),
    ensures
        trimmed(s) == s,
{
    assert(!crate::text::is_ws(s[0]));
    assert(crate::text::trim_start(s) == s);
}

/// The size a digit string `d` spells with the unit `unit` after it, as
/// `size_value` must read it.
pub open spec fn scaled(d: Seq<char>, unit: nat) -> Option<u64> {
    let n = crate::text::digits_value(d) * unit;
    if n <= u64::MAX {
        Some(n as u64)
    } else {
        None
    }
}

/// A size is a number of bytes: a digit string alone is that many bytes,
/// and `K`, `M` or `G` after it multiplies it by 1024, 1024² or 1024³,
/// whichever case the letter is written in.
pub proof fn lemma_size_units(d: Seq<char>)
    requires
        d.len() > 0,
        crate::text::all_digits(d),
    ensures
        size_value(d) == scaled(d, 1),
        size_value(d.push('k')) == size_value(d.push('K')),
        size_value(d.push('m')) == size_value(d.push('M')),
        size_value(d.push('g')) == size_value(d.push('G')),
        size_value(d.push('K')) == scaled(d, 1024),
        size_value(d.push('M')) == scaled(d, 1048576),
        size_value(d.push('G')) == scaled(d, 1073741824),
{
    assert(crate::text::is_digit(d[0]));
    assert(crate::text::is_digit(d.last()));
    lemma_digits_untrimmed(d);
    assert(size_suffix(d.last()) is None);
    assert(d[0] != '+');
    let letters = seq!['k', 'K', 'm', 'M', 'g', 'G'];
    assert forall|i: int| 0 <= i < letters.len() implies ({
        let s = #[trigger] d.push(letters[i]);
        &&& trimmed(s) == s
        &&& s.drop_last() == d
    }) by {
        let s = d.push(letters[i]);
        assert(s[0] == d[0]);
        lemma_digits_untrimmed(s);
        assert(s.drop_last() =~= d);
    }
    assert(d.push('k') == d.push(letters[0]));
    assert(d.push('K') == d.push(letters[1]));
    assert(d.push('m') == d.push(letters[2]));
    assert(d.push('M') == d.push(letters[3]));
    assert(d.push('g') == d.push(letters[4]));
    assert(d.push('G') == d.push(letters[5]));
}

impl Builder {
    fn new() -> (b: Builder)
        ensures
            b@ == empty_draft(),
    {
        let b = Builder {
            name: None,
            interface: None,
            version: None,
            caps: Vec::new(),
            jail_root: None,
            jail_network: None,
            jail_user: None,
            budget_memory: None,
            budget_fds: None,
            budget_cpu: None,
            restart: None,
            seen_jail: false,
            seen_budget: false,
            seen_restart: false,
        };
        assert(b@.caps =~= Seq::<CapDraft>::empty());
        b
    }

    /// Mark a once-only section seen, rejecting a second occurrence.
    fn open_unique(seen: &mut bool, name: &'static str, section: Section, line: usize) -> (r:
        Result<Section, ManifestError>)
        ensures
            *old(seen) ==> (r matches Err(e) && e@ == (ManifestFault::DuplicateSection {
                line,
                name: name@,
            }) && *final(seen) == *old(seen)),
            !*old(seen) ==> r == Ok::<Section, ManifestError>(section) && *final(seen),
    {
        if *seen {
            return Err(ManifestError::DuplicateSection { line, name });
        }
        *seen = true;
        Ok(section)
    }

    /// Switch to a named section, pushing a fresh block for `[capability]`.
    fn open_section(&mut self, name: &[char], line: usize) -> (r: Result<Section, ManifestError>)
        ensures
            match open_section(old(self)@, name@, line) {
                Ok((d, section)) => r == Ok::<Section, ManifestError>(section) && final(self)@ == d,
                Err(e) => r matches Err(x) && x@ == e && final(self)@ == old(self)@,
            },
    {
        if eq_str(name, "capability") {
            self.caps.push(CapBuilder { kind: None, target: None, rights: None });
            assert(self@.caps =~= old(self)@.caps.push(empty_cap()));
            Ok(Section::Capability)
        } else if eq_str(name, "jail") {
            Self::open_unique(&mut self.seen_jail, "jail", Section::Jail, line)
        } else if eq_str(name, "budget") {
            Self::open_unique(&mut self.seen_budget, "budget", Section::Budget, line)
        } else if eq_str(name, "restart") {
            Self::open_unique(&mut self.seen_restart, "restart", Section::Restart, line)
        } else {
            Err(ManifestError::UnknownSection { line, name: string_of(name) })
        }
    }

    fn assign_identity(&mut self, key: &[char], value: &[char], line: usize) -> (r: Result<
        (),
        ManifestError,
    >)
        ensures
            match assign_identity(old(self)@, key@, value@, line) {
                Ok(d) => r is Ok && final(self)@ == d,
                Err(e) => r matches Err(x) && x@ == e && final(self)@ == old(self)@,
            },
    {
        if eq_str(key, "name") {
            set_once(&mut self.name, string_of(value), key, line)
        } else if eq_str(key, "interface") {
            set_once(&mut self.interface, string_of(value), key, line)
        } else if eq_str(key, "version") {
            let n = parse_u32(value, key, line)?;
            set_once(&mut self.version, n, key, line)
        } else {
            Err(unknown_key("identity", key, line))
        }
    }

    fn assign_jail(&mut self, key: &[char], value: &[char], line: usize) -> (r: Result<
        (),
        ManifestError,
    >)
        ensures
            match assign_jail(old(self)@, key@, value@, line) {
                Ok(d) => r is Ok && final(self)@ == d,
                Err(e) => r matches Err(x) && x@ == e && final(self)@ == old(self)@,
            },
    {
        if eq_str(key, "root") {
            set_once(&mut self.jail_root, string_of(value), key, line)
        } else if eq_str(key, "network") {
            match parse_network(value) {
                None => Err(
                    ManifestError::BadValue {
                        line,
                        key: string_of(key),
                        reason: "expected none|host",
                    },
                ),
                Some(net) => set_once(&mut self.jail_network, net, key, line),
            }
        } else if eq_str(key, "user") {
            set_once(&mut self.jail_user, string_of(value), key, line)
        } else {
            Err(unknown_key("jail", key, line))
        }
    }

    fn assign_budget(&mut self, key: &[char], value: &[char], line: usize) -> (r: Result<
        (),
        ManifestError,
    >)
        ensures
            match assign_budget(old(self)@, key@, value@, line) {
                Ok(d) => r is Ok && final(self)@ == d,
                Err(e) => r matches Err(x) && x@ == e && final(self)@ == old(self)@,
            },
    {
        if eq_str(key, "memory") {
            match parse_size(value) {
                None => Err(
                    ManifestError::BadValue {
                        line,
                        key: string_of(key),
                        reason: "expected a byte count, optionally K/M/G-suffixed",
                    },
                ),
                Some(bytes) => set_once(&mut self.budget_memory, bytes, key, line),
            }
        } else if eq_str(key, "fds") {
            let n = parse_u32(value, key, line)?;
            set_once(&mut self.budget_fds, n, key, line)
        } else if eq_str(key, "cpu") {
            let n = parse_u32(value, key, line)?;
            set_once(&mut self.budget_cpu, n, key, line)
        } else {
            Err(unknown_key("budget", key, line))
        }
    }

    fn assign_restart(&mut self, key: &[char], value: &[char], line: usize) -> (r: Result<
        (),
        ManifestError,
    >)
        ensures
            match assign_restart(old(self)@, key@, value@, line) {
                Ok(d) => r is Ok && final(self)@ == d,
                Err(e) => r matches Err(x) && x@ == e && final(self)@ == old(self)@,
            },
    {
        if eq_str(key, "policy") {
            match parse_restart(value) {
                None => Err(
                    ManifestError::BadValue {
                        line,
                        key: string_of(key),
                        reason: "expected always|on-failure|never",
                    },
                ),
                Some(p) => set_once(&mut self.restart, p, key, line),
            }
        } else {
            Err(unknown_key("restart", key, line))
        }
    }

    fn assign_capability(cap: &mut CapBuilder, key: &[char], value: &[char], line: usize) -> (r:
        Result<(), ManifestError>)
        ensures
            match assign_capability(old(cap)@, key@, value@, line) {
                Ok(c) => r is Ok && final(cap)@ == c,
                Err(e) => r matches Err(x) && x@ == e && final(cap)@ == old(cap)@,
            },
    {
        if eq_str(key, "kind") {
            match parse_kind(value) {
                None => Err(
                    ManifestError::BadValue {
                        line,
                        key: string_of(key),
                        reason: "expected peer|device|memory|casper|settings",
                    },
                ),
                Some(kind) => set_once(&mut cap.kind, kind, key, line),
            }
        } else if eq_str(key, "interface") || eq_str(key, "class") || eq_str(key, "subtree")
            || eq_str(key, "service") || eq_str(key, "target") {
            let target = crate::text::chars_of("target");
            set_once(&mut cap.target, string_of(value), target.as_slice(), line)
        } else if eq_str(key, "rights") {
            set_once(&mut cap.rights, parse_rights(value), key, line)
        } else {
            Err(unknown_key("capability", key, line))
        }
    }

    /// Assign one `key = value` line within `section`.
    fn assign(&mut self, section: Section, key: &[char], value: &[char], line: usize) -> (r:
        Result<(), ManifestError>)
        ensures
            match assign(old(self)@, section, key@, value@, line) {
                Ok(d) => r is Ok && final(self)@ == d,
                Err(e) => r matches Err(x) && x@ == e && final(self)@ == old(self)@,
            },
    {
        match section {
            Section::Identity => self.assign_identity(key, value, line),
            Section::Capability => {
                if self.caps.len() == 0 {
                    return Ok(());
                }
                let mut cap = self.caps.pop().unwrap();
                let ghost rest = self.caps@;
                let r = Self::assign_capability(&mut cap, key, value, line);
                self.caps.push(cap);
                proof {
                    if r is Ok {
                        assert(self@.caps =~= old(self)@.caps.update(
                            old(self)@.caps.len() - 1,
                            cap@,
                        ));
                    }
                }
                proof {
                    if r is Err {
                        assert(self@.caps =~= old(self)@.caps);
                    }
                }
                r
            },
            Section::Jail => self.assign_jail(key, value, line),
            Section::Budget => self.assign_budget(key, value, line),
            Section::Restart => self.assign_restart(key, value, line),
        }
    }

    /// Validate that every required field appeared and build the manifest.
    #[verifier::loop_isolation(false)]
    fn finish(self) -> (r: Result<Manifest, ManifestError>)
        ensures
            match finish(self@) {
                Ok(m) => r matches Ok(x) && x@ == m,
                Err(e) => r matches Err(x) && x@ == e,
            },
    {
        let ghost drafts = self@.caps;
        let Builder {
            name,
            interface,
            version,
            mut caps,
            jail_root,
            jail_network,
            jail_user,
            budget_memory,
            budget_fds,
            budget_cpu,
            restart,
            ..
        } = self;
        let mut capabilities: Vec<CapabilityRequest> = Vec::new();
        let ghost n = drafts.len() as int;
        assert(capabilities@.map_values(|c: CapabilityRequest| c@) =~= Seq::<
            CapabilityRequestView,
        >::empty());
        assert(caps@.map_values(|c: CapBuilder| c@) =~= drafts.subrange(0, n));
        while caps.len() > 0
            invariant
                0 <= n - caps@.len() <= n,
                n == drafts.len(),
                caps@.map_values(|c: CapBuilder| c@) == drafts.subrange(
                    n - caps@.len(),
                    n,
                ),
                finish_caps(drafts, n - caps@.len()) == Ok::<
                    Seq<CapabilityRequestView>,
                    ManifestFault,
                >(capabilities@.map_values(|c: CapabilityRequest| c@)),
            decreases caps@.len(),
        {
            let ghost k = n - caps@.len();
            let ghost before = caps@;
            let cap = caps.remove(0);
            assert(before.map_values(|c: CapBuilder| c@)[0] == before[0]@);
            assert(cap@ == drafts[k]);
            assert forall|j: int| 0 <= j < caps@.len() implies #[trigger] caps@[j]@ == drafts[n
                - caps@.len() + j] by {
                assert(caps@[j] == before[j + 1]);
                assert(before.map_values(|c: CapBuilder| c@)[j + 1] == before[j + 1]@);
            }
            assert(caps@.map_values(|c: CapBuilder| c@) =~= drafts.subrange(
                n - caps@.len(),
                n,
            ));
            let kind = match cap.kind {
                Some(kind) => kind,
                None => {
                    proof {
                        lemma_finish_caps_err_persists(drafts, k + 1, n);
                    }
                    return Err(ManifestError::Missing { section: "capability", field: "kind" });
                },
            };
            let target = match cap.target {
                Some(t) => t,
                None => {
                    if kind == CapabilityKind::Memory {
                        String::new()
                    } else {
                        proof {
                            lemma_finish_caps_err_persists(drafts, k + 1, n);
                        }
                        return Err(
                            ManifestError::Missing { section: "capability", field: "target" },
                        );
                    }
                },
            };
            let rights = match cap.rights {
                Some(r) => r,
                None => Vec::new(),
            };
            let req = CapabilityRequest { kind, target, rights };
            assert(req@.rights =~= match drafts[k].rights {
                Some(r) => r,
                None => Seq::empty(),
            });
            capabilities.push(req);
            assert(capabilities@.map_values(|c: CapabilityRequest| c@) =~= finish_caps(
                drafts,
                k + 1,
            )->Ok_0);
        }
        let name = require(name, "identity", "name")?;
        let interface = require(interface, "identity", "interface")?;
        let version = require(version, "identity", "version")?;
        let root = require(jail_root, "jail", "root")?;
        let network = require(jail_network, "jail", "network")?;
        let user = require(jail_user, "jail", "user")?;
        let memory = require(budget_memory, "budget", "memory")?;
        let fds = require(budget_fds, "budget", "fds")?;
        let restart = require(restart, "restart", "policy")?;
        Ok(
            Manifest {
                name,
                interface,
                version,
                capabilities,
                jail: Jail { root, network, user },
                budget: Budget { memory, fds, cpu: budget_cpu },
                restart,
            },
        )
    }
}

proof fn lemma_finish_caps_err_persists(caps: Seq<CapDraft>, k: int, n: int)
    requires
        0 < k <= n,
        finish_caps(caps, k) is Err,
    ensures
        finish_caps(caps, n) == finish_caps(caps, k),
    decreases n - k,
{
    if k < n {
        lemma_finish_caps_err_persists(caps, k, n - 1);
    }
}

proof fn lemma_read_lines_err_persists(ls: Seq<Seq<char>>, k: int, n: int)
    requires
        0 < k <= n,
        read_lines(ls, k) is Err,
    ensures
        read_lines(ls, n) == read_lines(ls, k),
    decreases n - k,
{
    if k < n {
        lemma_read_lines_err_persists(ls, k, n - 1);
    }
}

impl Manifest {
    /// Parse a manifest from its text form.
    ///
    /// Total: any malformed input is a [`ManifestError`], never a panic.
    pub fn parse(text: &str) -> (r: Result<Manifest, ManifestError>)
        ensures
            match parse_manifest(text@) {
                Ok(m) => r matches Ok(x) && x@ == m,
                Err(e) => r matches Err(x) && x@ == e,
            },
    {
        let ls = lines(text);
        let ghost lv = lines_of(text@);
        let mut b = Builder::new();
        let mut section = Section::Identity;
        let mut i: usize = 0;
        while i < ls.len()
            invariant
                i <= ls@.len(),
                views(ls@) == lv,
                lv == lines_of(text@),
                read_lines(lv, i as int) == Ok::<(Draft, Section), ManifestFault>((b@, section)),
                section == Section::Capability ==> b@.caps.len() > 0,
            decreases ls@.len() - i,
        {
            let line = i + 1;
            let raw = &ls[i];
            assert(lv[i as int] == raw@);
            let s = line_content(raw.as_slice());
            if s.len() == 0 {
                i = i + 1;
                continue;
            }
            if s[0] == '[' {
                if s.len() < 2 || s[s.len() - 1] != ']' {
                    proof {
                        lemma_read_lines_err_persists(lv, line as int, lv.len() as int);
                    }
                    return Err(ManifestError::Syntax { line });
                }
                let inner = slice_of(s.as_slice(), 1, s.len() - 1);
                let name = trim(inner.as_slice());
                match b.open_section(name.as_slice(), line) {
                    Ok(next) => {
                        section = next;
                    },
                    Err(e) => {
                        proof {
                            lemma_read_lines_err_persists(lv, line as int, lv.len() as int);
                        }
                        return Err(e);
                    },
                }
                i = i + 1;
                continue;
            }
            let (k, v) = match split_once_at(s.as_slice(), '=') {
                Some(kv) => kv,
                None => {
                    proof {
                        lemma_read_lines_err_persists(lv, line as int, lv.len() as int);
                    }
                    return Err(ManifestError::Syntax { line });
                },
            };
            let key = trim(k.as_slice());
            let value = trim(v.as_slice());
            if key.len() == 0 {
                proof {
                    lemma_read_lines_err_persists(lv, line as int, lv.len() as int);
                }
                return Err(ManifestError::Syntax { line });
            }
            match b.assign(section, key.as_slice(), value.as_slice(), line) {
                Ok(()) => {},
                Err(e) => {
                    proof {
                        lemma_read_lines_err_persists(lv, line as int, lv.len() as int);
                    }
                    return Err(e);
                },
            }
            i = i + 1;
        }
        b.finish()
    }
}

// ---- laws ----------------------------------------------------------------------

/// The line a fault names, if it names one.
pub open spec fn fault_line(e: ManifestFault) -> Option<usize> {
    match e {
        ManifestFault::Syntax { line } => Some(line),
        ManifestFault::UnknownSection { line, .. } => Some(line),
        ManifestFault::DuplicateSection { line, .. } => Some(line),
        ManifestFault::UnknownKey { line, .. } => Some(line),
        ManifestFault::BadValue { line, .. } => Some(line),
        ManifestFault::DuplicateKey { line, .. } => Some(line),
        ManifestFault::Missing { .. } => None,
    }
}

proof fn lemma_read_line_names_its_line(d: Draft, section: Section, raw: Seq<char>, line: usize)
    requires
        read_line(d, section, raw, line) is Err,
    ensures
        fault_line(read_line(d, section, raw, line)->Err_0) == Some(line),
{
}

proof fn lemma_read_lines_name_a_line(ls: Seq<Seq<char>>, n: int)
    requires
        0 <= n <= ls.len(),
        ls.len() <= usize::MAX,
        read_lines(ls, n) is Err,
    ensures
        fault_line(read_lines(ls, n)->Err_0) matches Some(l) && 1 <= l <= n,
    decreases n,
{
    if n > 0 {
        match read_lines(ls, n - 1) {
            Err(_) => {
                lemma_read_lines_name_a_line(ls, n - 1);
            },
            Ok((d, section)) => {
                lemma_read_line_names_its_line(d, section, ls[n - 1], n as usize);
            },
        }
    }
}

proof fn lemma_finish_names_no_line(d: Draft)
    requires
        finish(d) is Err,
    ensures
        fault_line(finish(d)->Err_0) is None,
{
    if finish_caps(d.caps, d.caps.len() as int) is Err {
        lemma_finish_caps_names_no_line(d.caps, d.caps.len() as int);
    }
}

proof fn lemma_finish_caps_names_no_line(caps: Seq<CapDraft>, n: int)
    requires
        finish_caps(caps, n) is Err,
    ensures
        fault_line(finish_caps(caps, n)->Err_0) is None,
    decreases n,
{
    if n > 0 && finish_caps(caps, n - 1) is Err {
        lemma_finish_caps_names_no_line(caps, n - 1);
    }
}

/// Every rejection names the offending line, a line the text has; only a
/// required field that never appeared names its section instead.
pub proof fn lemma_rejections_name_their_line(text: Seq<char>)
    requires
        lines_of(text).len() <= usize::MAX,
        parse_manifest(text) is Err,
    ensures
        match fault_line(parse_manifest(text)->Err_0) {
            Some(l) => 1 <= l <= lines_of(text).len(),
            None => parse_manifest(text)->Err_0 is Missing,
        },
{
    let ls = lines_of(text);
    match read_lines(ls, ls.len() as int) {
        Err(_) => {
            lemma_read_lines_name_a_line(ls, ls.len() as int);
        },
        Ok((d, _)) => {
            lemma_finish_names_no_line(d);
        },
    }
}

// ---- messages ------------------------------------------------------------------

/// The message a manifest rejection reads as.
pub open spec fn manifest_message(f: ManifestFault) -> Seq<char> {
    match f {
        ManifestFault::Syntax { line } => "line "@ + crate::log::decimal(line as nat)
            + ": expected `key = value` or `[section]`"@,
        ManifestFault::UnknownSection { line, name } => "line "@ + crate::log::decimal(line as nat)
            + ": unknown section `["@ + name + "]`"@,
        ManifestFault::DuplicateSection { line, name } => "line "@ + crate::log::decimal(
            line as nat,
        ) + ": section `["@ + name + "]` appears more than once"@,
        ManifestFault::UnknownKey { line, section, key } => "line "@ + crate::log::decimal(
            line as nat,
        ) + ": key `"@ + key + "` is not valid in `["@ + section + "]`"@,
        ManifestFault::BadValue { line, key, reason } => "line "@ + crate::log::decimal(line as nat)
            + ": key `"@ + key + "` has a bad value ("@ + reason + ")"@,
        ManifestFault::DuplicateKey { line, key } => "line "@ + crate::log::decimal(line as nat)
            + ": key `"@ + key + "` is set more than once"@,
        ManifestFault::Missing { section, field } => "missing required key `"@ + field + "` in `["@
            + section + "]`"@,
    }
}

impl ManifestError {
    /// The message this rejection reads as.
    pub fn message(&self) -> (m: String)
        ensures
            m@ == manifest_message(self@),
    {
        let mut out: Vec<char> = Vec::new();
        match self {
            ManifestError::Syntax { line } => {
                crate::text::put_str(&mut out, "line ");
                crate::text::put_decimal(&mut out, *line as u64);
                crate::text::put_str(&mut out, ": expected `key = value` or `[section]`");
            },
            ManifestError::UnknownSection { line, name } => {
                crate::text::put_str(&mut out, "line ");
                crate::text::put_decimal(&mut out, *line as u64);
                crate::text::put_str(&mut out, ": unknown section `[");
                crate::text::put_str(&mut out, name.as_str());
                crate::text::put_str(&mut out, "]`");
            },
            ManifestError::DuplicateSection { line, name } => {
                crate::text::put_str(&mut out, "line ");
                crate::text::put_decimal(&mut out, *line as u64);
                crate::text::put_str(&mut out, ": section `[");
                crate::text::put_str(&mut out, name);
                crate::text::put_str(&mut out, "]` appears more than once");
            },
            ManifestError::UnknownKey { line, section, key } => {
                crate::text::put_str(&mut out, "line ");
                crate::text::put_decimal(&mut out, *line as u64);
                crate::text::put_str(&mut out, ": key `");
                crate::text::put_str(&mut out, key.as_str());
                crate::text::put_str(&mut out, "` is not valid in `[");
                crate::text::put_str(&mut out, section);
                crate::text::put_str(&mut out, "]`");
            },
            ManifestError::BadValue { line, key, reason } => {
                crate::text::put_str(&mut out, "line ");
                crate::text::put_decimal(&mut out, *line as u64);
                crate::text::put_str(&mut out, ": key `");
                crate::text::put_str(&mut out, key.as_str());
                crate::text::put_str(&mut out, "` has a bad value (");
                crate::text::put_str(&mut out, reason);
                crate::text::put_str(&mut out, ")");
            },
            ManifestError::DuplicateKey { line, key } => {
                crate::text::put_str(&mut out, "line ");
                crate::text::put_decimal(&mut out, *line as u64);
                crate::text::put_str(&mut out, ": key `");
                crate::text::put_str(&mut out, key.as_str());
                crate::text::put_str(&mut out, "` is set more than once");
            },
            ManifestError::Missing { section, field } => {
                crate::text::put_str(&mut out, "missing required key `");
                crate::text::put_str(&mut out, field);
                crate::text::put_str(&mut out, "` in `[");
                crate::text::put_str(&mut out, section);
                crate::text::put_str(&mut out, "]`");
            },
        }
        string_of(out.as_slice())
    }
}

} // verus!
