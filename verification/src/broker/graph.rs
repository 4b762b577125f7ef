//! The static authority graph.
//!
//! From a set of parsed manifests the broker computes every component and
//! every connection between them, and validates it, before a single
//! component is spawned. A [`Connection`] is formed by a `peer`
//! capability: it names the interface of the component to connect to,
//! which the graph resolves to a provider. The other capability kinds are
//! broker-mediated grants, not edges, and are carried unchanged.

use vstd::prelude::*;
use crate::broker::manifest::{
    CapabilityKind, CapabilityRequestView, Manifest, ManifestView, strs,
};

verus! {

/// A connection the broker will pre-wire: `requester` asked to connect to
/// the component exporting `interface`, which resolved to `provider`.
#[derive(Debug, Clone, PartialEq, Eq)]
pub struct Connection {
    /// The component whose manifest requested the connection.
    pub requester: String,
    /// The component exporting the requested interface.
    pub provider: String,
    /// The interface the requester named.
    pub interface: String,
    /// The rights classes the requester asked for on this connection.
    pub rights: Vec<String>,
}

/// The mathematical form of a [`Connection`].
pub struct ConnectionView {
    pub requester: Seq<char>,
    pub provider: Seq<char>,
    pub interface: Seq<char>,
    pub rights: Seq<Seq<char>>,
}

impl View for Connection {
    type V = ConnectionView;

    open spec fn view(&self) -> ConnectionView {
        ConnectionView {
            requester: self.requester@,
            provider: self.provider@,
            interface: self.interface@,
            rights: strs(self.rights@),
        }
    }
}

/// The validated authority graph. Component identity is the manifest
/// `name`, which the graph keeps unique, as it does each exported
/// interface.
#[derive(Debug, Clone)]
pub struct Graph {
    components: Vec<Manifest>,
    connections: Vec<Connection>,
}

/// The mathematical form of a [`Graph`].
pub struct GraphView {
    pub components: Seq<ManifestView>,
    pub connections: Seq<ConnectionView>,
}

pub open spec fn manifests(v: Seq<Manifest>) -> Seq<ManifestView> {
    v.map_values(|m: Manifest| m@)
}

pub open spec fn conns(v: Seq<Connection>) -> Seq<ConnectionView> {
    v.map_values(|c: Connection| c@)
}

impl View for Graph {
    type V = GraphView;

    closed spec fn view(&self) -> GraphView {
        GraphView { components: manifests(self.components@), connections: conns(self.connections@) }
    }
}

/// A set of manifests that does not form a valid authority graph.
#[derive(Debug, Clone, PartialEq, Eq)]
pub enum GraphError {
    /// Two manifests share a component `name`.
    DuplicateComponent { name: String },
    /// Two components export the same `interface`.
    DuplicateInterface { interface: String, first: String, second: String },
    /// A `peer` capability names an interface no component exports.
    UnresolvedPeer { component: String, interface: String },
    /// A `peer` capability resolves to the requesting component itself.
    SelfConnection { component: String, interface: String },
}

/// The mathematical form of a [`GraphError`].
pub enum GraphFault {
    DuplicateComponent { name: Seq<char> },
    DuplicateInterface { interface: Seq<char>, first: Seq<char>, second: Seq<char> },
    UnresolvedPeer { component: Seq<char>, interface: Seq<char> },
    SelfConnection { component: Seq<char>, interface: Seq<char> },
}

impl View for GraphError {
    type V = GraphFault;

    open spec fn view(&self) -> GraphFault {
        match self {
            GraphError::DuplicateComponent { name } => GraphFault::DuplicateComponent {
                name: name@,
            },
            GraphError::DuplicateInterface { interface, first, second } => {
                GraphFault::DuplicateInterface {
                    interface: interface@,
                    first: first@,
                    second: second@,
                }
            },
            GraphError::UnresolvedPeer { component, interface } => GraphFault::UnresolvedPeer {
                component: component@,
                interface: interface@,
            },
            GraphError::SelfConnection { component, interface } => GraphFault::SelfConnection {
                component: component@,
                interface: interface@,
            },
        }
    }
}

/// The index of the first component named `name`.
pub open spec fn named(cs: Seq<ManifestView>, name: Seq<char>) -> Option<int>
    decreases cs.len(),
{
    if cs.len() == 0 {
        None
    } else if cs[0].name == name {
        Some(0)
    } else {
        match named(cs.drop_first(), name) {
            Some(i) => Some(i + 1),
            None => None,
        }
    }
}

/// The index of the first component exporting `interface`.
pub open spec fn exporting(cs: Seq<ManifestView>, interface: Seq<char>) -> Option<int>
    decreases cs.len(),
{
    if cs.len() == 0 {
        None
    } else if cs[0].interface == interface {
        Some(0)
    } else {
        match exporting(cs.drop_first(), interface) {
            Some(i) => Some(i + 1),
            None => None,
        }
    }
}

/// The components after inserting `m`, rejecting a duplicate name or
/// exported interface.
pub open spec fn inserted(cs: Seq<ManifestView>, m: ManifestView) -> Result<
    Seq<ManifestView>,
    GraphFault,
> {
    if named(cs, m.name) is Some {
        Err(GraphFault::DuplicateComponent { name: m.name })
    } else {
        match exporting(cs, m.interface) {
            Some(p) => Err(
                GraphFault::DuplicateInterface {
                    interface: m.interface,
                    first: cs[p].name,
                    second: m.name,
                },
            ),
            None => Ok(cs.push(m)),
        }
    }
}

/// The connections the first `n` capabilities of `m` form against `cs`,
/// and the peer interfaces already wired.
pub open spec fn wiring(cs: Seq<ManifestView>, m: ManifestView, n: int) -> Result<
    (Seq<ConnectionView>, Seq<Seq<char>>),
    GraphFault,
>
    decreases n,
{
    if n <= 0 {
        Ok((Seq::empty(), Seq::empty()))
    } else {
        match wiring(cs, m, n - 1) {
            Err(e) => Err(e),
            Ok((done, wired)) => {
                let cap = m.capabilities[n - 1];
                if cap.kind != CapabilityKind::Peer || wired.contains(cap.target) {
                    Ok((done, wired))
                } else {
                    match exporting(cs, cap.target) {
                        None => Err(
                            GraphFault::UnresolvedPeer { component: m.name, interface: cap.target },
                        ),
                        Some(p) => if cs[p].name == m.name {
                            Err(
                                GraphFault::SelfConnection {
                                    component: m.name,
                                    interface: cap.target,
                                },
                            )
                        } else {
                            Ok(
                                (
                                    done.push(
                                        ConnectionView {
                                            requester: m.name,
                                            provider: cs[p].name,
                                            interface: cap.target,
                                            rights: cap.rights,
                                        },
                                    ),
                                    wired.push(cap.target),
                                ),
                            )
                        },
                    }
                }
            },
        }
    }
}

/// The connections `m` forms against `cs`: one per distinct peer
/// interface, in capability order.
pub open spec fn connections_for_spec(cs: Seq<ManifestView>, m: ManifestView) -> Result<
    Seq<ConnectionView>,
    GraphFault,
> {
    match wiring(cs, m, m.capabilities.len() as int) {
        Err(e) => Err(e),
        Ok((done, _)) => Ok(done),
    }
}

/// The components after inserting the first `n` manifests.
pub open spec fn nodes(ms: Seq<ManifestView>, n: int) -> Result<Seq<ManifestView>, GraphFault>
    decreases n,
{
    if n <= 0 {
        Ok(Seq::empty())
    } else {
        match nodes(ms, n - 1) {
            Err(e) => Err(e),
            Ok(cs) => inserted(cs, ms[n - 1]),
        }
    }
}

/// The connections of the first `n` components, against all of them.
pub open spec fn edges(cs: Seq<ManifestView>, n: int) -> Result<Seq<ConnectionView>, GraphFault>
    decreases n,
{
    if n <= 0 {
        Ok(Seq::empty())
    } else {
        match edges(cs, n - 1) {
            Err(e) => Err(e),
            Ok(done) => match connections_for_spec(cs, cs[n - 1]) {
                Err(e) => Err(e),
                Ok(more) => Ok(done + more),
            },
        }
    }
}

/// The graph a manifest set builds: every node first, then every
/// component's connections, so a peer may resolve to a component declared
/// before or after its requester.
pub open spec fn built(ms: Seq<ManifestView>) -> Result<GraphView, GraphFault> {
    match nodes(ms, ms.len() as int) {
        Err(e) => Err(e),
        Ok(cs) => match edges(cs, cs.len() as int) {
            Err(e) => Err(e),
            Ok(es) => Ok(GraphView { components: cs, connections: es }),
        },
    }
}

/// The graph after adding `m`: its connections resolve against the
/// components already present.
pub open spec fn added(g: GraphView, m: ManifestView) -> Result<GraphView, GraphFault> {
    match connections_for_spec(g.components, m) {
        Err(e) => Err(e),
        Ok(more) => match inserted(g.components, m) {
            Err(e) => Err(e),
            Ok(cs) => Ok(GraphView { components: cs, connections: g.connections + more }),
        },
    }
}

/// The connections touching `name`, as requester or provider, in order.
pub open spec fn touching(cs: Seq<ConnectionView>, name: Seq<char>) -> Seq<ConnectionView>
    decreases cs.len(),
{
    if cs.len() == 0 {
        Seq::empty()
    } else if cs.last().requester == name || cs.last().provider == name {
        touching(cs.drop_last(), name).push(cs.last())
    } else {
        touching(cs.drop_last(), name)
    }
}

// ---- the graph -----------------------------------------------------------------

proof fn lemma_named_at(cs: Seq<ManifestView>, name: Seq<char>, i: int)
    requires
        0 <= i <= cs.len(),
        forall|j: int| 0 <= j < i ==> (#[trigger] cs[j]).name != name,
        i == cs.len() || cs[i].name == name,
    ensures
        named(cs, name) == (if i < cs.len() {
            Some(i)
        } else {
            None::<int>
        }),
    decreases cs.len(),
{
    if cs.len() > 0 && i > 0 {
        let t = cs.drop_first();
        assert forall|j: int| 0 <= j < i - 1 implies (#[trigger] t[j]).name != name by {
            assert(t[j] == cs[j + 1]);
        }
        if i < cs.len() {
            assert(t[i - 1] == cs[i]);
        }
        lemma_named_at(t, name, i - 1);
    }
}

proof fn lemma_exporting_at(cs: Seq<ManifestView>, interface: Seq<char>, i: int)
    requires
        0 <= i <= cs.len(),
        forall|j: int| 0 <= j < i ==> (#[trigger] cs[j]).interface != interface,
        i == cs.len() || cs[i].interface == interface,
    ensures
        exporting(cs, interface) == (if i < cs.len() {
            Some(i)
        } else {
            None::<int>
        }),
    decreases cs.len(),
{
    if cs.len() > 0 && i > 0 {
        let t = cs.drop_first();
        assert forall|j: int| 0 <= j < i - 1 implies (#[trigger] t[j]).interface != interface by {
            assert(t[j] == cs[j + 1]);
        }
        if i < cs.len() {
            assert(t[i - 1] == cs[i]);
        }
        lemma_exporting_at(t, interface, i - 1);
    }
}

/// A copy of a list of strings.
fn clone_strs(v: &Vec<String>) -> (r: Vec<String>)
    ensures
        strs(r@) == strs(v@),
{
    let mut r: Vec<String> = Vec::new();
    let mut i: usize = 0;
    while i < v.len()
        invariant
            i <= v@.len(),
            strs(r@) == strs(v@.subrange(0, i as int)),
        decreases v@.len() - i,
    {
        let ghost before = r@;
        r.push(v[i].clone());
        assert(strs(r@) =~= strs(before).push(v@[i as int]@));
        assert(v@.subrange(0, i + 1) =~= v@.subrange(0, i as int).push(v@[i as int]));
        i = i + 1;
        assert(strs(r@) =~= strs(v@.subrange(0, i as int)));
    }
    assert(v@.subrange(0, v@.len() as int) =~= v@);
    r
}

/// Whether `s` is among `v`.
fn holds(v: &Vec<String>, s: &String) -> (b: bool)
    ensures
        b == strs(v@).contains(s@),
{
    let mut i: usize = 0;
    while i < v.len()
        invariant
            i <= v@.len(),
            forall|j: int| 0 <= j < i ==> (#[trigger] strs(v@)[j]) != s@,
        decreases v@.len() - i,
    {
        if v[i] == *s {
            assert(strs(v@)[i as int] == s@);
            return true;
        }
        i = i + 1;
    }
    false
}

proof fn lemma_wiring_err_persists(cs: Seq<ManifestView>, m: ManifestView, k: int, n: int)
    requires
        0 < k <= n,
        wiring(cs, m, k) is Err,
    ensures
        wiring(cs, m, n) == wiring(cs, m, k),
    decreases n - k,
{
    if k < n {
        lemma_wiring_err_persists(cs, m, k, n - 1);
    }
}

proof fn lemma_nodes_err_persists(ms: Seq<ManifestView>, k: int, n: int)
    requires
        0 < k <= n,
        nodes(ms, k) is Err,
    ensures
        nodes(ms, n) == nodes(ms, k),
    decreases n - k,
{
    if k < n {
        lemma_nodes_err_persists(ms, k, n - 1);
    }
}

proof fn lemma_edges_err_persists(cs: Seq<ManifestView>, k: int, n: int)
    requires
        0 < k <= n,
        edges(cs, k) is Err,
    ensures
        edges(cs, n) == edges(cs, k),
    decreases n - k,
{
    if k < n {
        lemma_edges_err_persists(cs, k, n - 1);
    }
}

impl Graph {
    /// The first component named `name`, or the number of components.
    fn find_named(&self, name: &String) -> (i: usize)
        ensures
            i <= self@.components.len(),
            named(self@.components, name@) == (if i < self@.components.len() {
                Some(i as int)
            } else {
                None::<int>
            }),
    {
        let mut i: usize = 0;
        while i < self.components.len() && self.components[i].name != *name
            invariant
                i <= self.components@.len(),
                forall|j: int| 0 <= j < i ==> (#[trigger] self@.components[j]).name != name@,
            decreases self.components@.len() - i,
        {
            assert(self@.components[i as int] == self.components@[i as int]@);
            i = i + 1;
        }
        proof {
            if i < self.components@.len() {
                assert(self@.components[i as int] == self.components@[i as int]@);
            }
            lemma_named_at(self@.components, name@, i as int);
        }
        i
    }

    /// The first component exporting `interface`, or the number of
    /// components.
    fn find_exporting(&self, interface: &String) -> (i: usize)
        ensures
            i <= self@.components.len(),
            exporting(self@.components, interface@) == (if i < self@.components.len() {
                Some(i as int)
            } else {
                None::<int>
            }),
    {
        let mut i: usize = 0;
        while i < self.components.len() && self.components[i].interface != *interface
            invariant
                i <= self.components@.len(),
                forall|j: int|
                    0 <= j < i ==> (#[trigger] self@.components[j]).interface != interface@,
            decreases self.components@.len() - i,
        {
            assert(self@.components[i as int] == self.components@[i as int]@);
            i = i + 1;
        }
        proof {
            if i < self.components@.len() {
                assert(self@.components[i as int] == self.components@[i as int]@);
            }
            lemma_exporting_at(self@.components, interface@, i as int);
        }
        i
    }

    /// The `peer` connections `manifest` forms against the components
    /// already in the graph, without changing it. A component naming the
    /// same peer interface twice still forms just one connection.
    pub fn connections_for(&self, manifest: &Manifest) -> (r: Result<Vec<Connection>, GraphError>)
        ensures
            match connections_for_spec(self@.components, manifest@) {
                Ok(cs) => r matches Ok(v) && conns(v@) == cs,
                Err(e) => r matches Err(x) && x@ == e,
            },
    {
        let ghost cs = self@.components;
        let ghost m = manifest@;
        let mut connections: Vec<Connection> = Vec::new();
        let mut wired: Vec<String> = Vec::new();
        assert(conns(connections@) =~= Seq::<ConnectionView>::empty());
        assert(strs(wired@) =~= Seq::<Seq<char>>::empty());
        let mut n: usize = 0;
        while n < manifest.capabilities.len()
            invariant
                n <= manifest.capabilities@.len(),
                cs == self@.components,
                m == manifest@,
                wiring(cs, m, n as int) == Ok::<
                    (Seq<ConnectionView>, Seq<Seq<char>>),
                    GraphFault,
                >((conns(connections@), strs(wired@))),
            decreases manifest.capabilities@.len() - n,
        {
            let cap = &manifest.capabilities[n];
            assert(m.capabilities[n as int] == cap@);
            if cap.kind != CapabilityKind::Peer || holds(&wired, &cap.target) {
                n = n + 1;
                continue;
            }
            let p = self.find_exporting(&cap.target);
            if p == self.components.len() {
                proof {
                    lemma_wiring_err_persists(cs, m, n + 1, m.capabilities.len() as int);
                }
                return Err(
                    GraphError::UnresolvedPeer {
                        component: manifest.name.clone(),
                        interface: cap.target.clone(),
                    },
                );
            }
            let provider = &self.components[p];
            assert(cs[p as int] == provider@);
            if provider.name == manifest.name {
                proof {
                    lemma_wiring_err_persists(cs, m, n + 1, m.capabilities.len() as int);
                }
                return Err(
                    GraphError::SelfConnection {
                        component: manifest.name.clone(),
                        interface: cap.target.clone(),
                    },
                );
            }
            let c = Connection {
                requester: manifest.name.clone(),
                provider: provider.name.clone(),
                interface: cap.target.clone(),
                rights: clone_strs(&cap.rights),
            };
            let ghost before_c = connections@;
            let ghost before_w = wired@;
            connections.push(c);
            wired.push(cap.target.clone());
            assert(conns(connections@) =~= conns(before_c).push(c@));
            assert(strs(wired@) =~= strs(before_w).push(cap.target@));
            n = n + 1;
        }
        Ok(connections)
    }

    /// Insert a node, rejecting a duplicate name or interface. Both are
    /// checked before anything changes, so a rejection changes nothing.
    fn insert_node(&mut self, manifest: Manifest) -> (r: Result<(), GraphError>)
        ensures
            match inserted(old(self)@.components, manifest@) {
                Ok(cs) => r is Ok && final(self)@ == (GraphView {
                    components: cs,
                    connections: old(self)@.connections,
                }),
                Err(e) => r matches Err(x) && x@ == e && final(self)@ == old(self)@,
            },
    {
        let i = self.find_named(&manifest.name);
        if i < self.components.len() {
            return Err(GraphError::DuplicateComponent { name: manifest.name.clone() });
        }
        let p = self.find_exporting(&manifest.interface);
        if p < self.components.len() {
            return Err(
                GraphError::DuplicateInterface {
                    interface: manifest.interface.clone(),
                    first: self.components[p].name.clone(),
                    second: manifest.name.clone(),
                },
            );
        }
        let ghost before = self.components@;
        self.components.push(manifest);
        assert(manifests(self.components@) =~= manifests(before).push(manifest@));
        Ok(())
    }

    /// Build and validate the authority graph from a set of manifests.
    /// Rejects duplicate component names, duplicate exported interfaces,
    /// `peer` capabilities that name no exporter, and self-connections.
    #[verifier::loop_isolation(false)]
    pub fn build(manifests_in: Vec<Manifest>) -> (r: Result<Graph, GraphError>)
        ensures
            match built(manifests(manifests_in@)) {
                Ok(g) => r matches Ok(x) && x@ == g,
                Err(e) => r matches Err(x) && x@ == e,
            },
    {
        let ghost ms = manifests(manifests_in@);
        let mut graph = Graph { components: Vec::new(), connections: Vec::new() };
        assert(graph@.components =~= Seq::<ManifestView>::empty());
        assert(graph@.connections =~= Seq::<ConnectionView>::empty());
        let mut rest = manifests_in;
        let ghost total = ms.len() as int;
        while rest.len() > 0
            invariant
                0 <= total - rest@.len() <= total,
                total == ms.len(),
                manifests(rest@) == ms.subrange(total - rest@.len(), total),
                nodes(ms, total - rest@.len()) == Ok::<Seq<ManifestView>, GraphFault>(
                    graph@.components,
                ),
                graph@.connections == Seq::<ConnectionView>::empty(),
            decreases rest@.len(),
        {
            let ghost k = total - rest@.len();
            let ghost before = rest@;
            let manifest = rest.remove(0);
            assert(manifests(before)[0] == before[0]@);
            assert(manifest@ == ms[k]);
            assert forall|j: int| 0 <= j < rest@.len() implies #[trigger] manifests(rest@)[j]
                == ms[total - rest@.len() + j] by {
                assert(rest@[j] == before[j + 1]);
                assert(manifests(before)[j + 1] == before[j + 1]@);
            }
            assert(manifests(rest@) =~= ms.subrange(total - rest@.len(), total));
            match graph.insert_node(manifest) {
                Ok(()) => {},
                Err(e) => {
                    proof {
                        lemma_nodes_err_persists(ms, k + 1, total);
                    }
                    return Err(e);
                },
            }
        }
        let ghost cs = graph@.components;
        let mut connections: Vec<Connection> = Vec::new();
        let mut i: usize = 0;
        while i < graph.components.len()
            invariant
                i <= graph.components@.len(),
                cs == graph@.components,
                graph@.connections == Seq::<ConnectionView>::empty(),
                nodes(ms, total) == Ok::<Seq<ManifestView>, GraphFault>(cs),
                edges(cs, i as int) == Ok::<Seq<ConnectionView>, GraphFault>(conns(connections@)),
            decreases graph.components@.len() - i,
        {
            assert(cs[i as int] == graph.components@[i as int]@);
            let mut more = match graph.connections_for(&graph.components[i]) {
                Ok(more) => more,
                Err(e) => {
                    proof {
                        lemma_edges_err_persists(cs, i + 1, cs.len() as int);
                    }
                    return Err(e);
                },
            };
            let ghost before = connections@;
            let ghost added = more@;
            connections.append(&mut more);
            assert(conns(connections@) =~= conns(before) + conns(added));
            i = i + 1;
        }
        graph.connections = connections;
        assert(ms.subrange(0, total) =~= ms);
        Ok(graph)
    }

    /// Add one component to a built graph: a delegated child joining a
    /// running session. Validated and connected exactly as `build` does;
    /// its connections resolve against the components already present. A
    /// rejected add leaves the graph unchanged.
    pub fn add(&mut self, manifest: Manifest) -> (r: Result<(), GraphError>)
        ensures
            match added(old(self)@, manifest@) {
                Ok(g) => r is Ok && final(self)@ == g,
                Err(e) => r matches Err(x) && x@ == e && final(self)@ == old(self)@,
            },
    {
        let mut more = self.connections_for(&manifest)?;
        self.insert_node(manifest)?;
        let ghost before = self.connections@;
        let ghost extra = more@;
        self.connections.append(&mut more);
        assert(conns(self.connections@) =~= conns(before) + conns(extra));
        Ok(())
    }

    /// Every component in the graph, in manifest order.
    pub fn components(&self) -> (r: &[Manifest])
        ensures
            manifests(r@) == self@.components,
    {
        self.components.as_slice()
    }

    /// The component with the given name, if any.
    pub fn component(&self, name: &str) -> (r: Option<&Manifest>)
        ensures
            match named(self@.components, name@) {
                Some(i) => r matches Some(m) && m@ == self@.components[i],
                None => r is None,
            },
    {
        let key = name.to_owned();
        let i = self.find_named(&key);
        if i < self.components.len() {
            assert(self@.components[i as int] == self.components@[i as int]@);
            Some(&self.components[i])
        } else {
            None
        }
    }

    /// The component exporting the given interface, if any.
    pub fn exporter(&self, interface: &str) -> (r: Option<&Manifest>)
        ensures
            match exporting(self@.components, interface@) {
                Some(i) => r matches Some(m) && m@ == self@.components[i],
                None => r is None,
            },
    {
        let key = interface.to_owned();
        let i = self.find_exporting(&key);
        if i < self.components.len() {
            assert(self@.components[i as int] == self.components@[i as int]@);
            Some(&self.components[i])
        } else {
            None
        }
    }

    /// Every connection the broker will pre-wire.
    pub fn connections(&self) -> (r: &[Connection])
        ensures
            conns(r@) == self@.connections,
    {
        self.connections.as_slice()
    }

    /// Every connection touching a component, as requester or as provider.
    pub fn connections_of(&self, name: &str) -> (r: Vec<&Connection>)
        ensures
            r@.map_values(|c: &Connection| c@) == touching(self@.connections, name@),
    {
        let key = name.to_owned();
        let mut r: Vec<&Connection> = Vec::new();
        let mut i: usize = 0;
        while i < self.connections.len()
            invariant
                i <= self.connections@.len(),
                key@ == name@,
                r@.map_values(|c: &Connection| c@) == touching(
                    self@.connections.subrange(0, i as int),
                    name@,
                ),
            decreases self.connections@.len() - i,
        {
            let c = &self.connections[i];
            let ghost before = r@;
            let ghost next = self@.connections.subrange(0, i + 1);
            assert(next.drop_last() =~= self@.connections.subrange(0, i as int));
            assert(next.last() == c@);
            if c.requester == key || c.provider == key {
                r.push(c);
                assert(r@.map_values(|c: &Connection| c@) =~= before.map_values(
                    |c: &Connection| c@,
                ).push(c@));
            }
            i = i + 1;
        }
        assert(self@.connections.subrange(0, self.connections@.len() as int)
            =~= self@.connections);
        r
    }
}

// ---- laws ----------------------------------------------------------------------

/// What every graph the broker builds satisfies: component names are
/// unique, exported interfaces are unique, and every connection joins a
/// component to the distinct component exporting the interface it named.
pub open spec fn graph_ok(g: GraphView) -> bool {
    &&& forall|i: int, j: int|
        0 <= i < j < g.components.len() ==> (#[trigger] g.components[i]).name != (
        #[trigger] g.components[j]).name
    &&& forall|i: int, j: int|
        0 <= i < j < g.components.len() ==> (#[trigger] g.components[i]).interface != (
        #[trigger] g.components[j]).interface
    &&& forall|k: int| 0 <= k < g.connections.len() ==> resolved(g.components, #[trigger] g.connections[k])
}

/// A connection whose requester is a component and whose provider is the
/// component exporting its interface, and not the requester.
pub open spec fn resolved(cs: Seq<ManifestView>, c: ConnectionView) -> bool {
    &&& named(cs, c.requester) is Some
    &&& exporting(cs, c.interface) is Some
    &&& cs[exporting(cs, c.interface)->0].name == c.provider
    &&& c.provider != c.requester
}

pub proof fn lemma_named_some(cs: Seq<ManifestView>, x: Seq<char>, i: int)
    requires
        0 <= i < cs.len(),
        cs[i].name == x,
    ensures
        named(cs, x) is Some,
    decreases cs.len(),
{
    if i > 0 && cs[0].name != x {
        assert(cs.drop_first()[i - 1] == cs[i]);
        lemma_named_some(cs.drop_first(), x, i - 1);
    }
}

proof fn lemma_named_none(cs: Seq<ManifestView>, x: Seq<char>, i: int)
    requires
        named(cs, x) is None,
        0 <= i < cs.len(),
    ensures
        cs[i].name != x,
{
    if cs[i].name == x {
        lemma_named_some(cs, x, i);
    }
}

proof fn lemma_exporting_some(cs: Seq<ManifestView>, x: Seq<char>, i: int)
    requires
        0 <= i < cs.len(),
        cs[i].interface == x,
    ensures
        exporting(cs, x) is Some,
    decreases cs.len(),
{
    if i > 0 && cs[0].interface != x {
        assert(cs.drop_first()[i - 1] == cs[i]);
        lemma_exporting_some(cs.drop_first(), x, i - 1);
    }
}

proof fn lemma_exporting_none(cs: Seq<ManifestView>, x: Seq<char>, i: int)
    requires
        exporting(cs, x) is None,
        0 <= i < cs.len(),
    ensures
        cs[i].interface != x,
{
    if cs[i].interface == x {
        lemma_exporting_some(cs, x, i);
    }
}

proof fn lemma_exporting_bounds(cs: Seq<ManifestView>, x: Seq<char>)
    ensures
        exporting(cs, x) matches Some(p) ==> 0 <= p < cs.len() && cs[p].interface == x,
    decreases cs.len(),
{
    if cs.len() > 0 && cs[0].interface != x {
        lemma_exporting_bounds(cs.drop_first(), x);
    }
}

proof fn lemma_named_push(cs: Seq<ManifestView>, m: ManifestView, x: Seq<char>)
    requires
        named(cs, x) is Some,
    ensures
        named(cs.push(m), x) == named(cs, x),
    decreases cs.len(),
{
    if cs[0].name != x {
        assert(cs.push(m).drop_first() =~= cs.drop_first().push(m));
        lemma_named_push(cs.drop_first(), m, x);
    }
}

proof fn lemma_exporting_push(cs: Seq<ManifestView>, m: ManifestView, x: Seq<char>)
    requires
        exporting(cs, x) is Some,
    ensures
        exporting(cs.push(m), x) == exporting(cs, x),
    decreases cs.len(),
{
    if cs[0].interface != x {
        assert(cs.push(m).drop_first() =~= cs.drop_first().push(m));
        lemma_exporting_push(cs.drop_first(), m, x);
    }
}

/// Every connection `m` forms against `cs` joins `m` to the distinct
/// exporter of the interface it names.
proof fn lemma_wiring_resolved(cs: Seq<ManifestView>, m: ManifestView, n: int)
    requires
        0 <= n <= m.capabilities.len(),
        wiring(cs, m, n) is Ok,
    ensures
        forall|k: int|
            0 <= k < wiring(cs, m, n)->Ok_0.0.len() ==> {
                let c = #[trigger] wiring(cs, m, n)->Ok_0.0[k];
                &&& c.requester == m.name
                &&& exporting(cs, c.interface) is Some
                &&& cs[exporting(cs, c.interface)->0].name == c.provider
                &&& c.provider != c.requester
            },
    decreases n,
{
    if n > 0 {
        lemma_wiring_resolved(cs, m, n - 1);
        lemma_exporting_bounds(cs, m.capabilities[n - 1].target);
    }
}

proof fn lemma_inserted_ok(g: GraphView, m: ManifestView)
    requires
        graph_ok(g),
        inserted(g.components, m) is Ok,
    ensures
        ({
            let cs = inserted(g.components, m)->Ok_0;
            &&& cs == g.components.push(m)
            &&& forall|i: int, j: int|
                0 <= i < j < cs.len() ==> (#[trigger] cs[i]).name != (#[trigger] cs[j]).name
            &&& forall|i: int, j: int|
                0 <= i < j < cs.len() ==> (#[trigger] cs[i]).interface != (
                #[trigger] cs[j]).interface
            &&& forall|k: int|
                0 <= k < g.connections.len() ==> resolved(cs, #[trigger] g.connections[k])
        }),
{
    let old_cs = g.components;
    let cs = old_cs.push(m);
    assert forall|i: int, j: int| 0 <= i < j < cs.len() implies (#[trigger] cs[i]).name != (
    #[trigger] cs[j]).name by {
        if j == old_cs.len() {
            lemma_named_none(old_cs, m.name, i);
        } else {
            assert(cs[i] == old_cs[i] && cs[j] == old_cs[j]);
        }
    }
    assert forall|i: int, j: int| 0 <= i < j < cs.len() implies (#[trigger] cs[i]).interface != (
    #[trigger] cs[j]).interface by {
        if j == old_cs.len() {
            lemma_exporting_none(old_cs, m.interface, i);
        } else {
            assert(cs[i] == old_cs[i] && cs[j] == old_cs[j]);
        }
    }
    assert forall|k: int| 0 <= k < g.connections.len() implies resolved(
        cs,
        #[trigger] g.connections[k],
    ) by {
        let c = g.connections[k];
        lemma_named_push(old_cs, m, c.requester);
        lemma_exporting_push(old_cs, m, c.interface);
        lemma_exporting_bounds(old_cs, c.interface);
    }
}

proof fn lemma_nodes_ok(ms: Seq<ManifestView>, n: int)
    requires
        0 <= n <= ms.len(),
        nodes(ms, n) is Ok,
    ensures
        graph_ok(GraphView { components: nodes(ms, n)->Ok_0, connections: Seq::empty() }),
    decreases n,
{
    if n > 0 {
        lemma_nodes_ok(ms, n - 1);
        lemma_inserted_ok(
            GraphView { components: nodes(ms, n - 1)->Ok_0, connections: Seq::empty() },
            ms[n - 1],
        );
    }
}

proof fn lemma_edges_ok(cs: Seq<ManifestView>, n: int)
    requires
        0 <= n <= cs.len(),
        edges(cs, n) is Ok,
    ensures
        forall|k: int|
            0 <= k < edges(cs, n)->Ok_0.len() ==> resolved(cs, #[trigger] edges(cs, n)->Ok_0[k]),
    decreases n,
{
    if n > 0 {
        lemma_edges_ok(cs, n - 1);
        let m = cs[n - 1];
        lemma_wiring_resolved(cs, m, m.capabilities.len() as int);
        lemma_named_some(cs, m.name, n - 1);
        let done = edges(cs, n - 1)->Ok_0;
        let more = connections_for_spec(cs, m)->Ok_0;
        assert forall|k: int| 0 <= k < (done + more).len() implies resolved(
            cs,
            #[trigger] (done + more)[k],
        ) by {
            if k >= done.len() {
                assert((done + more)[k] == more[k - done.len()]);
            } else {
                assert((done + more)[k] == done[k]);
            }
        }
    }
}

/// Every graph that `build` accepts is well formed: unique names, unique
/// exported interfaces, and every connection resolved to a distinct
/// exporter.
pub proof fn lemma_built_graph_ok(ms: Seq<ManifestView>)
    requires
        built(ms) is Ok,
    ensures
        graph_ok(built(ms)->Ok_0),
{
    lemma_nodes_ok(ms, ms.len() as int);
    let cs = nodes(ms, ms.len() as int)->Ok_0;
    lemma_edges_ok(cs, cs.len() as int);
}

/// Adding a component keeps a well-formed graph well formed.
pub proof fn lemma_added_graph_ok(g: GraphView, m: ManifestView)
    requires
        graph_ok(g),
        added(g, m) is Ok,
    ensures
        graph_ok(added(g, m)->Ok_0),
{
    lemma_inserted_ok(g, m);
    let cs = g.components.push(m);
    lemma_wiring_resolved(g.components, m, m.capabilities.len() as int);
    lemma_named_some(cs, m.name, g.components.len() as int);
    let more = connections_for_spec(g.components, m)->Ok_0;
    let all = g.connections + more;
    assert forall|k: int| 0 <= k < all.len() implies resolved(cs, #[trigger] all[k]) by {
        if k >= g.connections.len() {
            let c = more[k - g.connections.len()];
            assert(all[k] == c);
            lemma_exporting_push(g.components, m, c.interface);
            lemma_exporting_bounds(g.components, c.interface);
        } else {
            assert(all[k] == g.connections[k]);
        }
    }
}

/// Whether some component of `cs` other than `m` exports `target`.
pub open spec fn exported_by_another(cs: Seq<ManifestView>, m: ManifestView, target: Seq<char>) -> bool {
    exists|j: int| 0 <= j < cs.len() && (#[trigger] cs[j]).interface == target && cs[j].name != m.name
}

/// A manifest set whose component names are distinct, whose exported
/// interfaces are distinct, and each of whose peer capabilities names an
/// interface that another component of the set exports.
pub open spec fn buildable(ms: Seq<ManifestView>) -> bool {
    &&& forall|i: int, j: int|
        0 <= i < j < ms.len() ==> (#[trigger] ms[i]).name != (#[trigger] ms[j]).name
    &&& forall|i: int, j: int|
        0 <= i < j < ms.len() ==> (#[trigger] ms[i]).interface != (#[trigger] ms[j]).interface
    &&& forall|i: int, k: int|
        0 <= i < ms.len() && 0 <= k < ms[i].capabilities.len() && (#[trigger] ms[i].capabilities[k]).kind
            == CapabilityKind::Peer ==> exported_by_another(ms, ms[i], ms[i].capabilities[k].target)
}

proof fn lemma_nodes_accept(ms: Seq<ManifestView>, n: int)
    requires
        buildable(ms),
        0 <= n <= ms.len(),
    ensures
        nodes(ms, n) == Ok::<Seq<ManifestView>, GraphFault>(ms.take(n)),
    decreases n,
{
    if n == 0 {
        assert(ms.take(0) =~= Seq::<ManifestView>::empty());
    } else {
        lemma_nodes_accept(ms, n - 1);
        let cs = ms.take(n - 1);
        let m = ms[n - 1];
        assert forall|j: int| 0 <= j < n - 1 implies (#[trigger] cs[j]).name != m.name by {
            assert(cs[j] == ms[j]);
        }
        lemma_named_at(cs, m.name, n - 1);
        assert forall|j: int| 0 <= j < n - 1 implies (#[trigger] cs[j]).interface != m.interface by {
            assert(cs[j] == ms[j]);
        }
        lemma_exporting_at(cs, m.interface, n - 1);
        assert(cs.push(m) =~= ms.take(n));
    }
}

proof fn lemma_wiring_accept(cs: Seq<ManifestView>, m: ManifestView, n: int)
    requires
        forall|i: int, j: int|
            0 <= i < j < cs.len() ==> (#[trigger] cs[i]).interface != (#[trigger] cs[j]).interface,
        0 <= n <= m.capabilities.len(),
        forall|k: int|
            0 <= k < n && (#[trigger] m.capabilities[k]).kind == CapabilityKind::Peer
                ==> exported_by_another(cs, m, m.capabilities[k].target),
    ensures
        wiring(cs, m, n) is Ok,
    decreases n,
{
    if n > 0 {
        lemma_wiring_accept(cs, m, n - 1);
        let cap = m.capabilities[n - 1];
        if cap.kind == CapabilityKind::Peer {
            assert(exported_by_another(cs, m, cap.target));
            let j = choose|j: int|
                0 <= j < cs.len() && (#[trigger] cs[j]).interface == cap.target && cs[j].name != m.name;
            assert forall|i: int| 0 <= i < j implies (#[trigger] cs[i]).interface != cap.target by {
                assert(cs[i].interface != cs[j].interface);
            }
            lemma_exporting_at(cs, cap.target, j);
        }
    }
}

proof fn lemma_edges_accept(cs: Seq<ManifestView>, n: int)
    requires
        buildable(cs),
        0 <= n <= cs.len(),
    ensures
        edges(cs, n) is Ok,
    decreases n,
{
    if n > 0 {
        lemma_edges_accept(cs, n - 1);
        let m = cs[n - 1];
        assert forall|k: int|
            0 <= k < m.capabilities.len() && (#[trigger] m.capabilities[k]).kind == CapabilityKind::Peer
                implies exported_by_another(cs, m, m.capabilities[k].target) by {
            assert(cs[n - 1].capabilities[k] == m.capabilities[k]);
        }
        lemma_wiring_accept(cs, m, m.capabilities.len() as int);
    }
}

proof fn lemma_nodes_exact(ms: Seq<ManifestView>, n: int)
    requires
        0 <= n <= ms.len(),
        nodes(ms, n) is Ok,
    ensures
        nodes(ms, n)->Ok_0 == ms.take(n),
    decreases n,
{
    if n == 0 {
        assert(ms.take(0) =~= Seq::<ManifestView>::empty());
    } else {
        lemma_nodes_exact(ms, n - 1);
        assert(ms.take(n - 1).push(ms[n - 1]) =~= ms.take(n));
    }
}

proof fn lemma_wiring_exported(cs: Seq<ManifestView>, m: ManifestView, n: int)
    requires
        0 <= n <= m.capabilities.len(),
        wiring(cs, m, n) is Ok,
    ensures
        forall|k: int|
            0 <= k < n && (#[trigger] m.capabilities[k]).kind == CapabilityKind::Peer
                ==> exported_by_another(cs, m, m.capabilities[k].target),
        forall|t: Seq<char>|
            #[trigger] wiring(cs, m, n)->Ok_0.1.contains(t) ==> exported_by_another(cs, m, t),
    decreases n,
{
    if n > 0 {
        lemma_wiring_exported(cs, m, n - 1);
        let cap = m.capabilities[n - 1];
        let wired = wiring(cs, m, n - 1)->Ok_0.1;
        lemma_exporting_bounds(cs, cap.target);
        if cap.kind == CapabilityKind::Peer {
            if wired.contains(cap.target) {
                assert(exported_by_another(cs, m, cap.target));
            } else {
                let p = exporting(cs, cap.target)->Some_0;
                assert(cs[p].interface == cap.target && cs[p].name != m.name);
                assert(exported_by_another(cs, m, cap.target));
                assert forall|t: Seq<char>| #[trigger] wired.push(cap.target).contains(t) implies exported_by_another(cs, m, t) by {
                    if t != cap.target {
                        let q = choose|q: int| 0 <= q < wired.push(cap.target).len() && wired.push(cap.target)[q] == t;
                        assert(wired[q] == t);
                        assert(wired.contains(t));
                    }
                }
            }
        }
    }
}

proof fn lemma_edges_each(cs: Seq<ManifestView>, n: int)
    requires
        0 <= n <= cs.len(),
        edges(cs, n) is Ok,
    ensures
        forall|i: int| 0 <= i < n ==> (#[trigger] connections_for_spec(cs, cs[i])) is Ok,
    decreases n,
{
    if n > 0 {
        lemma_edges_each(cs, n - 1);
    }
}

/// A manifest set builds exactly when its component names are distinct,
/// its exported interfaces are distinct, and every peer capability names
/// an interface another component exports; a built graph keeps the
/// manifests in their order.
pub proof fn lemma_build_accepts(ms: Seq<ManifestView>)
    ensures
        built(ms) is Ok <==> buildable(ms),
        built(ms) is Ok ==> built(ms)->Ok_0.components == ms,
{
    if buildable(ms) {
        lemma_nodes_accept(ms, ms.len() as int);
        assert(ms.take(ms.len() as int) =~= ms);
        lemma_edges_accept(ms, ms.len() as int);
    }
    if built(ms) is Ok {
        lemma_nodes_exact(ms, ms.len() as int);
        assert(ms.take(ms.len() as int) =~= ms);
        lemma_built_graph_ok(ms);
        lemma_edges_each(ms, ms.len() as int);
        assert forall|i: int, k: int|
            0 <= i < ms.len() && 0 <= k < ms[i].capabilities.len() && (#[trigger] ms[i].capabilities[k]).kind
                == CapabilityKind::Peer implies exported_by_another(ms, ms[i], ms[i].capabilities[k].target) by {
            assert(connections_for_spec(ms, ms[i]) is Ok);
            lemma_wiring_exported(ms, ms[i], ms[i].capabilities.len() as int);
        }
    }
}

/// Whether `m` holds a peer capability naming `c`'s interface and asking
/// for exactly `c`'s rights.
pub open spec fn requested_by(m: ManifestView, c: ConnectionView) -> bool {
    exists|k: int|
        0 <= k < m.capabilities.len() && {
            let cap = #[trigger] m.capabilities[k];
            &&& cap.kind == CapabilityKind::Peer
            &&& cap.target == c.interface
            &&& cap.rights == c.rights
        }
}

proof fn lemma_wiring_requested(cs: Seq<ManifestView>, m: ManifestView, n: int)
    requires
        0 <= n <= m.capabilities.len(),
        wiring(cs, m, n) is Ok,
    ensures
        forall|k: int|
            0 <= k < wiring(cs, m, n)->Ok_0.0.len() ==> {
                let c = #[trigger] wiring(cs, m, n)->Ok_0.0[k];
                c.requester == m.name && requested_by(m, c)
            },
    decreases n,
{
    if n > 0 {
        lemma_wiring_requested(cs, m, n - 1);
        let done = wiring(cs, m, n - 1)->Ok_0.0;
        let now = wiring(cs, m, n)->Ok_0.0;
        assert forall|k: int| 0 <= k < now.len() implies (#[trigger] now[k]).requester == m.name
            && requested_by(m, now[k]) by {
            if k < done.len() {
                assert(now[k] == done[k]);
            } else {
                let cap = m.capabilities[n - 1];
                assert(cap.kind == CapabilityKind::Peer && cap.target == now[k].interface
                    && cap.rights == now[k].rights);
            }
        }
    }
}

/// Every connection a manifest forms carries exactly the rights of a peer
/// capability of that manifest naming its interface.
pub proof fn lemma_connections_carry_requested_rights(cs: Seq<ManifestView>, m: ManifestView)
    requires
        connections_for_spec(cs, m) is Ok,
    ensures
        forall|k: int|
            0 <= k < connections_for_spec(cs, m)->Ok_0.len() ==> {
                let c = #[trigger] connections_for_spec(cs, m)->Ok_0[k];
                c.requester == m.name && requested_by(m, c)
            },
{
    lemma_wiring_requested(cs, m, m.capabilities.len() as int);
}

proof fn lemma_edges_requested(cs: Seq<ManifestView>, n: int)
    requires
        0 <= n <= cs.len(),
        edges(cs, n) is Ok,
    ensures
        forall|k: int|
            0 <= k < edges(cs, n)->Ok_0.len() ==> exists|j: int|
                0 <= j < cs.len() && (#[trigger] cs[j]).name == (#[trigger] edges(cs, n)->Ok_0[k]).requester
                    && requested_by(cs[j], edges(cs, n)->Ok_0[k]),
    decreases n,
{
    if n > 0 {
        lemma_edges_requested(cs, n - 1);
        let m = cs[n - 1];
        lemma_connections_carry_requested_rights(cs, m);
        let done = edges(cs, n - 1)->Ok_0;
        let more = connections_for_spec(cs, m)->Ok_0;
        let all = done + more;
        assert forall|k: int| 0 <= k < all.len() implies exists|j: int|
            0 <= j < cs.len() && (#[trigger] cs[j]).name == (#[trigger] all[k]).requester
                && requested_by(cs[j], all[k]) by {
            if k >= done.len() {
                assert(all[k] == more[k - done.len()]);
                assert(cs[n - 1].name == all[k].requester);
            } else {
                assert(all[k] == done[k]);
            }
        }
    }
}

/// Each connection a built graph holds carries exactly the rights list of
/// the peer capability that formed it: its requester is a component of
/// the graph whose manifest holds a peer capability naming the
/// connection's interface with those very rights.
pub proof fn lemma_built_connections_carry_requested_rights(ms: Seq<ManifestView>)
    requires
        built(ms) is Ok,
    ensures
        ({
            let g = built(ms)->Ok_0;
            forall|k: int|
                0 <= k < g.connections.len() ==> exists|j: int|
                    0 <= j < g.components.len() && (#[trigger] g.components[j]).name == (
                    #[trigger] g.connections[k]).requester && requested_by(
                        g.components[j],
                        g.connections[k],
                    )
        }),
{
    let cs = nodes(ms, ms.len() as int)->Ok_0;
    lemma_edges_requested(cs, cs.len() as int);
    let g = built(ms)->Ok_0;
    let es = edges(cs, cs.len() as int)->Ok_0;
    assert(g.components == cs && g.connections == es);
    assert forall|k: int| 0 <= k < g.connections.len() implies exists|j: int|
        0 <= j < g.components.len() && (#[trigger] g.components[j]).name == (
        #[trigger] g.connections[k]).requester && requested_by(g.components[j], g.connections[k]) by {
        assert(g.connections[k] == es[k]);
        let j = choose|j: int|
            0 <= j < cs.len() && (#[trigger] cs[j]).name == es[k].requester && requested_by(
                cs[j],
                es[k],
            );
        assert(g.components[j] == cs[j]);
    }
}

// ---- messages ------------------------------------------------------------------

/// The message a graph rejection reads as.
pub open spec fn graph_message(f: GraphFault) -> Seq<char> {
    match f {
        GraphFault::DuplicateComponent { name } => "two components are named `"@ + name + "`"@,
        GraphFault::DuplicateInterface { interface, first, second } => "components `"@ + first
            + "` and `"@ + second + "` both export interface `"@ + interface + "`"@,
        GraphFault::UnresolvedPeer { component, interface } => "`"@ + component
            + "` requests peer interface `"@ + interface + "`, which no component exports"@,
        GraphFault::SelfConnection { component, interface } => "`"@ + component
            + "` requests peer interface `"@ + interface + "`, which it exports itself"@,
    }
}

impl GraphError {
    /// The message this rejection reads as.
    pub fn message(&self) -> (m: String)
        ensures
            m@ == graph_message(self@),
    {
        let mut out: Vec<char> = Vec::new();
        match self {
            GraphError::DuplicateComponent { name } => {
                crate::text::put_str(&mut out, "two components are named `");
                crate::text::put_str(&mut out, name.as_str());
                crate::text::put_str(&mut out, "`");
            },
            GraphError::DuplicateInterface { interface, first, second } => {
                crate::text::put_str(&mut out, "components `");
                crate::text::put_str(&mut out, first.as_str());
                crate::text::put_str(&mut out, "` and `");
                crate::text::put_str(&mut out, second.as_str());
                crate::text::put_str(&mut out, "` both export interface `");
                crate::text::put_str(&mut out, interface.as_str());
                crate::text::put_str(&mut out, "`");
            },
            GraphError::UnresolvedPeer { component, interface } => {
                crate::text::put_str(&mut out, "`");
                crate::text::put_str(&mut out, component.as_str());
                crate::text::put_str(&mut out, "` requests peer interface `");
                crate::text::put_str(&mut out, interface.as_str());
                crate::text::put_str(&mut out, "`, which no component exports");
            },
            GraphError::SelfConnection { component, interface } => {
                crate::text::put_str(&mut out, "`");
                crate::text::put_str(&mut out, component.as_str());
                crate::text::put_str(&mut out, "` requests peer interface `");
                crate::text::put_str(&mut out, interface.as_str());
                crate::text::put_str(&mut out, "`, which it exports itself");
            },
        }
        crate::text::string_of(out.as_slice())
    }
}

} // verus!
