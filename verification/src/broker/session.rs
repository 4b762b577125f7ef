//! The decisions of a running session: which grants each component's
//! bundle carries, how a re-wired or delegated component's rings are
//! paired with its peers', what its restart policy says on exit, and the
//! headers the bootstrap and control envelopes carry.
//!
//! Creating rings, spawning and watching processes is the caller's; the
//! session's plans say exactly what to create and hand to whom.

use vstd::prelude::*;
use crate::broker::catalogue::{
    CatalogueError, CatalogueFault, InterfaceCatalogue, catalogue_message, resolution,
};
use crate::broker::graph::{
    Connection, ConnectionView, Graph, GraphError, GraphFault, GraphView, added, conns,
    connections_for_spec, exporting, graph_message, manifests, named, touching,
};
use crate::broker::manifest::{
    CapabilityKind, CapabilityRequestView, Manifest, ManifestView, RestartPolicy, strs,
};
use crate::broker::spawnable::SpawnableSet;
use crate::bundle::Role;
use crate::msg::envelope::{Header, MessageKind};

verus! {

/// The program to exec for a component: its binary and argument vector.
#[derive(Debug, Clone, PartialEq, Eq)]
pub struct Program {
    /// The component binary.
    pub path: String,
    /// The argument vector after `argv[0]`.
    pub args: Vec<String>,
}

/// What supervising did with one component that exited.
#[derive(Debug, Clone, PartialEq, Eq)]
pub struct Exit {
    /// The component that exited.
    pub name: String,
    /// The exit status as from `wait(2)`; zero is a clean exit.
    pub status: i32,
    /// Whether its restart policy re-wired and restarted it.
    pub restarted: bool,
}

/// Why wiring a session failed in its own logic: a connection's requested
/// rights did not resolve against the interface catalogue.
#[derive(Debug, Clone, PartialEq, Eq)]
pub enum SessionError {
    Rights(CatalogueError),
}

/// Whether a component that exited with `status` is restarted: always,
/// never, or only on a non-zero status.
pub open spec fn restarts(policy: RestartPolicy, status: i32) -> bool {
    match policy {
        RestartPolicy::Always => true,
        RestartPolicy::OnFailure => status != 0,
        RestartPolicy::Never => false,
    }
}

/// Whether a component that exited with `status` is restarted.
pub fn restart_wanted(policy: RestartPolicy, status: i32) -> (b: bool)
    ensures
        b == restarts(policy, status),
{
    match policy {
        RestartPolicy::Always => true,
        RestartPolicy::OnFailure => status != 0,
        RestartPolicy::Never => false,
    }
}

/// The header of a bootstrap-bundle envelope: it rides on no interface
/// ring, so its interface id is zero, and method id 0 marks the initial
/// bundle.
pub fn bundle_header() -> (h: Header)
    ensures
        h == (Header { kind: MessageKind::Event, interface_id: 0, method_id: 0 }),
{
    Header { kind: MessageKind::Event, interface_id: 0, method_id: 0 }
}

/// The header of a re-wire control envelope: the same control connection,
/// method id 1.
pub fn control_header() -> (h: Header)
    ensures
        h == (Header { kind: MessageKind::Event, interface_id: 0, method_id: 1 }),
{
    Header { kind: MessageKind::Event, interface_id: 0, method_id: 1 }
}

/// One ring end to hand out: the interface it speaks, which end it is,
/// and the object rights both ends carry.
#[derive(Debug, Clone, PartialEq, Eq)]
pub struct GrantPlan {
    pub interface: String,
    pub role: Role,
    pub object_rights: u32,
}

/// The mathematical form of a [`GrantPlan`].
pub struct GrantPlanView {
    pub interface: Seq<char>,
    pub role: Role,
    pub object_rights: u32,
}

impl View for GrantPlan {
    type V = GrantPlanView;

    open spec fn view(&self) -> GrantPlanView {
        GrantPlanView { interface: self.interface@, role: self.role, object_rights: self.object_rights }
    }
}

pub open spec fn plans(v: Seq<GrantPlan>) -> Seq<GrantPlanView> {
    v.map_values(|p: GrantPlan| p@)
}

/// The object-rights masks of the first `n` connections, resolved in
/// order, or the first resolution that fails.
pub open spec fn masks(
    cat: Map<Seq<char>, Seq<(Seq<char>, u32)>>,
    cs: Seq<ConnectionView>,
    n: int,
) -> Result<Seq<u32>, CatalogueFault>
    decreases n,
{
    if n <= 0 {
        Ok(Seq::empty())
    } else {
        match masks(cat, cs, n - 1) {
            Err(e) => Err(e),
            Ok(ms) => match resolution(cat, cs[n - 1].interface, cs[n - 1].rights) {
                Err(e) => Err(e),
                Ok(m) => Ok(ms.push(m)),
            },
        }
    }
}

/// The grants `name` receives from the first `n` connections: the client
/// end of each it requested, the server end of each it provides.
pub open spec fn grants_for(cs: Seq<ConnectionView>, ms: Seq<u32>, name: Seq<char>, n: int) -> Seq<
    GrantPlanView,
>
    decreases n,
{
    if n <= 0 {
        Seq::empty()
    } else {
        let c = cs[n - 1];
        let before = grants_for(cs, ms, name, n - 1);
        let with_client = if c.requester == name {
            before.push(GrantPlanView { interface: c.interface, role: Role::Client, object_rights: ms[n - 1] })
        } else {
            before
        };
        if c.provider == name {
            with_client.push(GrantPlanView { interface: c.interface, role: Role::Server, object_rights: ms[n - 1] })
        } else {
            with_client
        }
    }
}

/// One ring per connection, the requester holding the client end and the
/// provider the server end: each component's grants, in component order.
pub open spec fn bundle_plans(
    cat: Map<Seq<char>, Seq<(Seq<char>, u32)>>,
    names: Seq<Seq<char>>,
    cs: Seq<ConnectionView>,
) -> Result<Seq<(Seq<char>, Seq<GrantPlanView>)>, CatalogueFault> {
    match masks(cat, cs, cs.len() as int) {
        Err(e) => Err(e),
        Ok(ms) => Ok(Seq::new(names.len(), |i: int| (names[i], grants_for(cs, ms, names[i], cs.len() as int)))),
    }
}

/// How many of `gs` are ends of `role`.
pub open spec fn ends_of(gs: Seq<GrantPlanView>, role: Role) -> nat
    decreases gs.len(),
{
    if gs.len() == 0 {
        0
    } else {
        ends_of(gs.drop_last(), role) + if gs.last().role == role {
            1nat
        } else {
            0nat
        }
    }
}

/// How many of the first `n` connections `name` provides.
pub open spec fn provided_by(cs: Seq<ConnectionView>, name: Seq<char>, n: int) -> nat
    decreases n,
{
    if n <= 0 {
        0
    } else {
        provided_by(cs, name, n - 1) + if cs[n - 1].provider == name {
            1nat
        } else {
            0nat
        }
    }
}

/// How many of the first `n` connections `name` requested.
pub open spec fn requested_by_name(cs: Seq<ConnectionView>, name: Seq<char>, n: int) -> nat
    decreases n,
{
    if n <= 0 {
        0
    } else {
        requested_by_name(cs, name, n - 1) + if cs[n - 1].requester == name {
            1nat
        } else {
            0nat
        }
    }
}

/// Whether `gs` holds an end of `role` for `interface` carrying `rights`.
pub open spec fn holds_end(gs: Seq<GrantPlanView>, interface: Seq<char>, role: Role, rights: u32) -> bool {
    exists|j: int|
        0 <= j < gs.len() && (#[trigger] gs[j]).interface == interface && gs[j].role == role
            && gs[j].object_rights == rights
}

proof fn lemma_ends_push(gs: Seq<GrantPlanView>, g: GrantPlanView, role: Role)
    ensures
        ends_of(gs.push(g), role) == ends_of(gs, role) + if g.role == role {
            1nat
        } else {
            0nat
        },
        forall|i: Seq<char>, r: Role, m: u32| holds_end(gs, i, r, m) ==> #[trigger] holds_end(gs.push(g), i, r, m),
        holds_end(gs.push(g), g.interface, g.role, g.object_rights),
{
    assert(gs.push(g).drop_last() =~= gs);
    assert forall|i: Seq<char>, r: Role, m: u32| holds_end(gs, i, r, m) implies #[trigger] holds_end(
        gs.push(g),
        i,
        r,
        m,
    ) by {
        let j = choose|j: int|
            0 <= j < gs.len() && (#[trigger] gs[j]).interface == i && gs[j].role == r
                && gs[j].object_rights == m;
        assert(gs.push(g)[j] == gs[j]);
    }
    assert(gs.push(g)[gs.len() as int] == g);
}

proof fn lemma_grants_for_ends(cs: Seq<ConnectionView>, ms: Seq<u32>, name: Seq<char>, n: int)
    requires
        0 <= n <= cs.len(),
    ensures
        ends_of(grants_for(cs, ms, name, n), Role::Server) == provided_by(cs, name, n),
        ends_of(grants_for(cs, ms, name, n), Role::Client) == requested_by_name(cs, name, n),
        forall|k: int|
            0 <= k < n && (#[trigger] cs[k]).provider == name ==> holds_end(
                grants_for(cs, ms, name, n),
                cs[k].interface,
                Role::Server,
                ms[k],
            ),
        forall|k: int|
            0 <= k < n && (#[trigger] cs[k]).requester == name ==> holds_end(
                grants_for(cs, ms, name, n),
                cs[k].interface,
                Role::Client,
                ms[k],
            ),
    decreases n,
{
    if n > 0 {
        lemma_grants_for_ends(cs, ms, name, n - 1);
        let c = cs[n - 1];
        let before = grants_for(cs, ms, name, n - 1);
        let client = GrantPlanView { interface: c.interface, role: Role::Client, object_rights: ms[n - 1] };
        let server = GrantPlanView { interface: c.interface, role: Role::Server, object_rights: ms[n - 1] };
        let with_client = if c.requester == name {
            before.push(client)
        } else {
            before
        };
        if c.requester == name {
            lemma_ends_push(before, client, Role::Server);
            lemma_ends_push(before, client, Role::Client);
        }
        if c.provider == name {
            lemma_ends_push(with_client, server, Role::Server);
            lemma_ends_push(with_client, server, Role::Client);
        }
    }
}

/// Every ring of a planned session has both its ends handed out: for each
/// connection, the provider's bundle holds a server end and the
/// requester's bundle a client end for its interface, carrying its
/// resolved rights; and a component receives exactly as many server ends
/// as connections it provides, and as many client ends as connections it
/// requested.
pub proof fn lemma_bundles_hold_both_ends(
    cat: Map<Seq<char>, Seq<(Seq<char>, u32)>>,
    names: Seq<Seq<char>>,
    cs: Seq<ConnectionView>,
)
    requires
        bundle_plans(cat, names, cs) is Ok,
    ensures
        ({
            let bs = bundle_plans(cat, names, cs)->Ok_0;
            let ms = masks(cat, cs, cs.len() as int)->Ok_0;
            &&& bs.len() == names.len()
            &&& forall|i: int|
                0 <= i < names.len() ==> (#[trigger] bs[i]).0 == names[i] && ends_of(
                    bs[i].1,
                    Role::Server,
                ) == provided_by(cs, names[i], cs.len() as int) && ends_of(bs[i].1, Role::Client)
                    == requested_by_name(cs, names[i], cs.len() as int)
            &&& forall|i: int, k: int|
                0 <= i < names.len() && 0 <= k < cs.len() && names[i] == (#[trigger] cs[k]).provider
                    ==> holds_end(#[trigger] bs[i].1, cs[k].interface, Role::Server, ms[k])
            &&& forall|i: int, k: int|
                0 <= i < names.len() && 0 <= k < cs.len() && names[i] == (#[trigger] cs[k]).requester
                    ==> holds_end(#[trigger] bs[i].1, cs[k].interface, Role::Client, ms[k])
        }),
{
    let ms = masks(cat, cs, cs.len() as int)->Ok_0;
    let bs = bundle_plans(cat, names, cs)->Ok_0;
    assert forall|i: int| 0 <= i < names.len() implies (#[trigger] bs[i]).0 == names[i] && ends_of(
        bs[i].1,
        Role::Server,
    ) == provided_by(cs, names[i], cs.len() as int) && ends_of(bs[i].1, Role::Client)
        == requested_by_name(cs, names[i], cs.len() as int) by {
        lemma_grants_for_ends(cs, ms, names[i], cs.len() as int);
    }
    assert forall|i: int, k: int|
        0 <= i < names.len() && 0 <= k < cs.len() && names[i] == (#[trigger] cs[k]).provider
            implies holds_end(#[trigger] bs[i].1, cs[k].interface, Role::Server, ms[k]) by {
        lemma_grants_for_ends(cs, ms, names[i], cs.len() as int);
    }
    assert forall|i: int, k: int|
        0 <= i < names.len() && 0 <= k < cs.len() && names[i] == (#[trigger] cs[k]).requester
            implies holds_end(#[trigger] bs[i].1, cs[k].interface, Role::Client, ms[k]) by {
        lemma_grants_for_ends(cs, ms, names[i], cs.len() as int);
    }
}

proof fn lemma_masks_err_persists(
    cat: Map<Seq<char>, Seq<(Seq<char>, u32)>>,
    cs: Seq<ConnectionView>,
    k: int,
    n: int,
)
    requires
        0 < k <= n,
        masks(cat, cs, k) is Err,
    ensures
        masks(cat, cs, n) == masks(cat, cs, k),
    decreases n - k,
{
    if k < n {
        lemma_masks_err_persists(cat, cs, k, n - 1);
    }
}

proof fn lemma_masks_len(cat: Map<Seq<char>, Seq<(Seq<char>, u32)>>, cs: Seq<ConnectionView>, n: int)
    requires
        0 <= n,
        masks(cat, cs, n) is Ok,
    ensures
        masks(cat, cs, n)->Ok_0.len() == n,
    decreases n,
{
    if n > 0 {
        lemma_masks_len(cat, cs, n - 1);
    }
}

/// Resolve every connection's object-rights mask, in order.
fn resolve_all(catalogue: &InterfaceCatalogue, connections: &[Connection]) -> (r: Result<
    Vec<u32>,
    CatalogueError,
>)
    ensures
        match masks(catalogue@, conns(connections@), connections@.len() as int) {
            Ok(ms) => r matches Ok(v) && v@ == ms,
            Err(e) => r matches Err(x) && x@ == e,
        },
{
    let ghost cs = conns(connections@);
    let mut out: Vec<u32> = Vec::new();
    let mut i: usize = 0;
    while i < connections.len()
        invariant
            i <= connections@.len(),
            cs == conns(connections@),
            masks(catalogue@, cs, i as int) == Ok::<Seq<u32>, CatalogueFault>(out@),
        decreases connections@.len() - i,
    {
        let c = &connections[i];
        assert(cs[i as int] == c@);
        let m = match catalogue.resolve(c.interface.as_str(), c.rights.as_slice()) {
            Ok(m) => m,
            Err(e) => {
                proof {
                    lemma_masks_err_persists(catalogue@, cs, i + 1, cs.len() as int);
                }
                return Err(e);
            },
        };
        out.push(m);
        i = i + 1;
    }
    Ok(out)
}

/// The grants `name` receives from `connections`, given their masks.
fn grants_of(connections: &[Connection], ms: &Vec<u32>, name: &String) -> (r: Vec<GrantPlan>)
    requires
        ms@.len() == connections@.len(),
    ensures
        plans(r@) == grants_for(conns(connections@), ms@, name@, connections@.len() as int),
{
    let ghost cs = conns(connections@);
    let mut out: Vec<GrantPlan> = Vec::new();
    let mut i: usize = 0;
    while i < connections.len()
        invariant
            i <= connections@.len(),
            ms@.len() == connections@.len(),
            cs == conns(connections@),
            plans(out@) == grants_for(cs, ms@, name@, i as int),
        decreases connections@.len() - i,
    {
        let c = &connections[i];
        assert(cs[i as int] == c@);
        let ghost before = out@;
        if c.requester == *name {
            out.push(
                GrantPlan { interface: c.interface.clone(), role: Role::Client, object_rights: ms[i] },
            );
        }
        let ghost mid = out@;
        if c.provider == *name {
            out.push(
                GrantPlan { interface: c.interface.clone(), role: Role::Server, object_rights: ms[i] },
            );
        }
        proof {
            if c.requester@ == name@ {
                assert(plans(mid) =~= plans(before).push(
                    GrantPlanView { interface: c.interface@, role: Role::Client, object_rights: ms@[i as int] },
                ));
            } else {
                assert(mid == before);
            }
            if c.provider@ == name@ {
                assert(plans(out@) =~= plans(mid).push(
                    GrantPlanView { interface: c.interface@, role: Role::Server, object_rights: ms@[i as int] },
                ));
            } else {
                assert(out@ == mid);
            }
        }
        i = i + 1;
    }
    out
}

/// Plan every component's bundle: one ring per connection of the graph,
/// the requester holding the client end and the provider the server end,
/// both carrying the connection's resolved object rights. A component with
/// no connections still gets a bundle, an empty one.
pub fn plan_bundles(graph: &Graph, catalogue: &InterfaceCatalogue) -> (r: Result<
    Vec<(String, Vec<GrantPlan>)>,
    SessionError,
>)
    ensures
        match bundle_plans(
            catalogue@,
            graph@.components.map_values(|m: crate::broker::manifest::ManifestView| m.name),
            graph@.connections,
        ) {
            Ok(bs) => r matches Ok(v) && v@.len() == bs.len() && (forall|i: int|
                0 <= i < bs.len() ==> (#[trigger] v@[i]).0@ == bs[i].0 && plans(v@[i].1@)
                    == bs[i].1),
            Err(e) => r matches Err(SessionError::Rights(x)) && x@ == e,
        },
{
    let connections = graph.connections();
    let ms = match resolve_all(catalogue, connections) {
        Ok(ms) => ms,
        Err(e) => return Err(SessionError::Rights(e)),
    };
    proof {
        lemma_masks_len(catalogue@, conns(connections@), connections@.len() as int);
    }
    let components = graph.components();
    let ghost names = graph@.components.map_values(|m: crate::broker::manifest::ManifestView| m.name);
    let mut out: Vec<(String, Vec<GrantPlan>)> = Vec::new();
    let mut i: usize = 0;
    while i < components.len()
        invariant
            i <= components@.len(),
            manifests(components@) == graph@.components,
            conns(connections@) == graph@.connections,
            names == graph@.components.map_values(|m: crate::broker::manifest::ManifestView| m.name),
            ms@ == masks(catalogue@, graph@.connections, graph@.connections.len() as int)->Ok_0,
            ms@.len() == connections@.len(),
            out@.len() == i,
            forall|j: int|
                0 <= j < i ==> (#[trigger] out@[j]).0@ == names[j] && plans(out@[j].1@)
                    == grants_for(graph@.connections, ms@, names[j], connections@.len() as int),
        decreases components@.len() - i,
    {
        let name = &components[i].name;
        assert(names[i as int] == name@) by {
            assert(manifests(components@)[i as int] == components@[i as int]@);
        }
        let g = grants_of(connections, &ms, name);
        out.push((name.clone(), g));
        i = i + 1;
    }
    Ok(out)
}

/// The grants re-wiring `component`'s first `n` connections makes: its
/// own end of each, and each peer's end with that peer's name.
pub open spec fn rewire_plan(cs: Seq<ConnectionView>, ms: Seq<u32>, component: Seq<char>, n: int) -> (
    Seq<GrantPlanView>,
    Seq<(Seq<char>, GrantPlanView)>,
)
    decreases n,
{
    if n <= 0 {
        (Seq::empty(), Seq::empty())
    } else {
        let (own, peers) = rewire_plan(cs, ms, component, n - 1);
        let c = cs[n - 1];
        let m = ms[n - 1];
        if c.requester == component {
            (
                own.push(GrantPlanView { interface: c.interface, role: Role::Client, object_rights: m }),
                peers.push((c.provider, GrantPlanView { interface: c.interface, role: Role::Server, object_rights: m })),
            )
        } else {
            (
                own.push(GrantPlanView { interface: c.interface, role: Role::Server, object_rights: m }),
                peers.push((c.requester, GrantPlanView { interface: c.interface, role: Role::Client, object_rights: m })),
            )
        }
    }
}

pub open spec fn peer_plans(v: Seq<(String, GrantPlan)>) -> Seq<(Seq<char>, GrantPlanView)> {
    v.map_values(|p: (String, GrantPlan)| (p.0@, p.1@))
}

/// Plan the re-wiring of one component's connections: a fresh ring per
/// connection, the component's own ends for its bundle and each peer's
/// end paired with that peer's name. The requester holds the client end,
/// the provider the server end, exactly as at first wiring.
pub fn plan_connections(
    catalogue: &InterfaceCatalogue,
    connections: &[Connection],
    component: &str,
) -> (r: Result<(Vec<GrantPlan>, Vec<(String, GrantPlan)>), SessionError>)
    ensures
        match masks(catalogue@, conns(connections@), connections@.len() as int) {
            Ok(ms) => r matches Ok((own, peers)) && plans(own@) == rewire_plan(
                conns(connections@),
                ms,
                component@,
                connections@.len() as int,
            ).0 && peer_plans(peers@) == rewire_plan(
                conns(connections@),
                ms,
                component@,
                connections@.len() as int,
            ).1,
            Err(e) => r matches Err(SessionError::Rights(x)) && x@ == e,
        },
{
    let ms = match resolve_all(catalogue, connections) {
        Ok(ms) => ms,
        Err(e) => return Err(SessionError::Rights(e)),
    };
    proof {
        lemma_masks_len(catalogue@, conns(connections@), connections@.len() as int);
    }
    let ghost cs = conns(connections@);
    let me = component.to_owned();
    let mut own: Vec<GrantPlan> = Vec::new();
    let mut peers: Vec<(String, GrantPlan)> = Vec::new();
    let mut i: usize = 0;
    while i < connections.len()
        invariant
            i <= connections@.len(),
            ms@.len() == connections@.len(),
            cs == conns(connections@),
            me@ == component@,
            plans(own@) == rewire_plan(cs, ms@, component@, i as int).0,
            peer_plans(peers@) == rewire_plan(cs, ms@, component@, i as int).1,
        decreases connections@.len() - i,
    {
        let c = &connections[i];
        assert(cs[i as int] == c@);
        let m = ms[i];
        let ghost own0 = own@;
        let ghost peers0 = peers@;
        if c.requester == me {
            own.push(GrantPlan { interface: c.interface.clone(), role: Role::Client, object_rights: m });
            peers.push(
                (
                    c.provider.clone(),
                    GrantPlan { interface: c.interface.clone(), role: Role::Server, object_rights: m },
                ),
            );
        } else {
            own.push(GrantPlan { interface: c.interface.clone(), role: Role::Server, object_rights: m });
            peers.push(
                (
                    c.requester.clone(),
                    GrantPlan { interface: c.interface.clone(), role: Role::Client, object_rights: m },
                ),
            );
        }
        assert(plans(own@) =~= plans(own0).push(own@.last()@));
        assert(peer_plans(peers@) =~= peer_plans(peers0).push((peers@.last().0@, peers@.last().1@)));
        i = i + 1;
    }
    Ok((own, peers))
}

/// A copy of a connection.
fn copy_connection(c: &Connection) -> (r: Connection)
    ensures
        r@ == c@,
{
    let mut rights: Vec<String> = Vec::new();
    let mut i: usize = 0;
    while i < c.rights.len()
        invariant
            i <= c.rights@.len(),
            strs(rights@) == strs(c.rights@.take(i as int)),
        decreases c.rights@.len() - i,
    {
        let ghost before = rights@;
        rights.push(c.rights[i].clone());
        assert(c.rights@.take(i + 1) =~= c.rights@.take(i as int).push(c.rights@[i as int]));
        assert(strs(rights@) =~= strs(before).push(c.rights@[i as int]@));
        assert(strs(c.rights@.take(i + 1)) =~= strs(c.rights@.take(i as int)).push(c.rights@[i as int]@));
        i = i + 1;
    }
    assert(c.rights@.take(c.rights@.len() as int) =~= c.rights@);
    Connection {
        requester: c.requester.clone(),
        provider: c.provider.clone(),
        interface: c.interface.clone(),
        rights,
    }
}

/// Plan re-wiring a restarted component: a fresh ring for every
/// connection it touches, in graph order, its own ends for its fresh
/// bundle and each peer's end paired with that peer's name.
pub fn rewire(graph: &Graph, catalogue: &InterfaceCatalogue, component: &str) -> (r: Result<
    (Vec<GrantPlan>, Vec<(String, GrantPlan)>),
    SessionError,
>)
    ensures
        ({
            let cs = touching(graph@.connections, component@);
            match masks(catalogue@, cs, cs.len() as int) {
                Ok(ms) => r matches Ok((own, peers)) && plans(own@) == rewire_plan(
                    cs,
                    ms,
                    component@,
                    cs.len() as int,
                ).0 && peer_plans(peers@) == rewire_plan(cs, ms, component@, cs.len() as int).1,
                Err(e) => r matches Err(SessionError::Rights(x)) && x@ == e,
            }
        }),
{
    let touched = graph.connections_of(component);
    let mut owned: Vec<Connection> = Vec::new();
    let mut i: usize = 0;
    while i < touched.len()
        invariant
            i <= touched@.len(),
            conns(owned@) == touched@.take(i as int).map_values(|c: &Connection| c@),
        decreases touched@.len() - i,
    {
        let c = copy_connection(touched[i]);
        let ghost before = owned@;
        owned.push(c);
        assert(touched@.take(i + 1) =~= touched@.take(i as int).push(touched@[i as int]));
        assert(conns(owned@) =~= conns(before).push(c@));
        assert(touched@.take(i + 1).map_values(|c: &Connection| c@) =~= touched@.take(
            i as int,
        ).map_values(|c: &Connection| c@).push(touched@[i as int]@));
        i = i + 1;
    }
    assert(touched@.take(touched@.len() as int) =~= touched@);
    plan_connections(catalogue, owned.as_slice(), component)
}

// ---- per-component decisions ------------------------------------------------

/// The restart policy of the component named `name`; a component the graph
/// does not know is restarted always.
pub open spec fn policy_of(g: GraphView, name: Seq<char>) -> RestartPolicy {
    match named(g.components, name) {
        Some(i) => g.components[i].restart,
        None => RestartPolicy::Always,
    }
}

/// Whether the component `name`, which exited with `status`, is re-wired
/// and restarted, by its manifest's restart policy.
pub fn restart_after_exit(graph: &Graph, name: &str, status: i32) -> (b: bool)
    ensures
        b == restarts(policy_of(graph@, name@), status),
{
    let policy = match graph.component(name) {
        Some(m) => m.restart,
        None => RestartPolicy::Always,
    };
    restart_wanted(policy, status)
}

/// The Casper services the first `n` capabilities name, in order.
pub open spec fn casper_targets(caps: Seq<CapabilityRequestView>, n: int) -> Seq<Seq<char>>
    decreases n,
{
    if n <= 0 {
        Seq::empty()
    } else if caps[n - 1].kind == CapabilityKind::Casper {
        casper_targets(caps, n - 1).push(caps[n - 1].target)
    } else {
        casper_targets(caps, n - 1)
    }
}

/// The Casper services a component's manifest asks channels for: the
/// target of each `casper` capability, in manifest order.
pub fn casper_services(manifest: &Manifest) -> (r: Vec<String>)
    ensures
        strs(r@) == casper_targets(manifest@.capabilities, manifest@.capabilities.len() as int),
{
    let ghost caps = manifest@.capabilities;
    let mut out: Vec<String> = Vec::new();
    let mut i: usize = 0;
    while i < manifest.capabilities.len()
        invariant
            i <= manifest.capabilities@.len(),
            caps == manifest@.capabilities,
            strs(out@) == casper_targets(caps, i as int),
        decreases manifest.capabilities@.len() - i,
    {
        let cap = &manifest.capabilities[i];
        assert(caps[i as int] == cap@);
        if cap.kind == CapabilityKind::Casper {
            let ghost before = out@;
            out.push(cap.target.clone());
            assert(strs(out@) =~= strs(before).push(cap.target@));
        }
        i = i + 1;
    }
    out
}

// ---- delegated spawn ---------------------------------------------------------

/// Why a delegated spawn is refused before anything is created.
#[derive(Debug, Clone, PartialEq, Eq)]
pub enum SpawnRefusal {
    /// The requester holds no `spawn` capability.
    NotPermitted { requester: String },
    /// The spawnable set holds no manifest of the requested name.
    UnknownManifest { manifest: String },
    /// A component of the child's name is already in the session.
    NameTaken { name: String },
    /// The child's authority does not resolve against the running graph.
    Unresolved(GraphError),
}

/// The mathematical form of a [`SpawnRefusal`].
pub enum SpawnRefusalView {
    NotPermitted { requester: Seq<char> },
    UnknownManifest { manifest: Seq<char> },
    NameTaken { name: Seq<char> },
    Unresolved(GraphFault),
}

impl View for SpawnRefusal {
    type V = SpawnRefusalView;

    open spec fn view(&self) -> SpawnRefusalView {
        match self {
            SpawnRefusal::NotPermitted { requester } => SpawnRefusalView::NotPermitted {
                requester: requester@,
            },
            SpawnRefusal::UnknownManifest { manifest } => SpawnRefusalView::UnknownManifest {
                manifest: manifest@,
            },
            SpawnRefusal::NameTaken { name } => SpawnRefusalView::NameTaken { name: name@ },
            SpawnRefusal::Unresolved(e) => SpawnRefusalView::Unresolved(e@),
        }
    }
}

/// Whether a manifest declares a `spawn` capability.
pub open spec fn declares_spawn(m: ManifestView) -> bool {
    exists|k: int|
        0 <= k < m.capabilities.len() && (#[trigger] m.capabilities[k]).kind == CapabilityKind::Spawn
}

/// Whether the component named `requester` may ask for a child: it is in
/// the graph and its manifest declares a `spawn` capability.
pub open spec fn may_spawn(cs: Seq<ManifestView>, requester: Seq<char>) -> bool {
    match named(cs, requester) {
        Some(i) => declares_spawn(cs[i]),
        None => false,
    }
}

/// What a request from `requester` for the spawnable manifest named
/// `manifest` comes to, checked in order: the requester's permission, the
/// manifest's presence in the spawnable set, the child's name being free in
/// the session, and the child's connections resolving against the running
/// graph. On admission, the child's manifest and its connections.
pub open spec fn admission(
    g: GraphView,
    spawnable: Map<Seq<char>, ManifestView>,
    requester: Seq<char>,
    manifest: Seq<char>,
) -> Result<(ManifestView, Seq<ConnectionView>), SpawnRefusalView> {
    if !may_spawn(g.components, requester) {
        Err(SpawnRefusalView::NotPermitted { requester })
    } else if !spawnable.contains_key(manifest) {
        Err(SpawnRefusalView::UnknownManifest { manifest })
    } else {
        let child = spawnable[manifest];
        if named(g.components, child.name) is Some {
            Err(SpawnRefusalView::NameTaken { name: child.name })
        } else {
            match connections_for_spec(g.components, child) {
                Ok(cs) => Ok((child, cs)),
                Err(e) => Err(SpawnRefusalView::Unresolved(e)),
            }
        }
    }
}

proof fn lemma_declares_spawn_reordered(a: ManifestView, b: ManifestView)
    requires
        a.capabilities.to_multiset() == b.capabilities.to_multiset(),
        declares_spawn(a),
    ensures
        declares_spawn(b),
{
    let k = choose|k: int|
        0 <= k < a.capabilities.len() && (#[trigger] a.capabilities[k]).kind == CapabilityKind::Spawn;
    let c = a.capabilities[k];
    assert(a.capabilities.contains(c));
    vstd::seq_lib::to_multiset_contains(a.capabilities, c);
    vstd::seq_lib::to_multiset_contains(b.capabilities, c);
    assert(b.capabilities.contains(c));
    let j = choose|j: int| 0 <= j < b.capabilities.len() && b.capabilities[j] == c;
    assert(b.capabilities[j].kind == CapabilityKind::Spawn);
}

/// Whether a manifest may spawn does not depend on where its `spawn`
/// capability stands: two manifests holding the same capabilities, in
/// whatever order, are alike in it.
pub proof fn lemma_spawn_permission_ignores_order(a: ManifestView, b: ManifestView)
    requires
        a.capabilities.to_multiset() == b.capabilities.to_multiset(),
    ensures
        declares_spawn(a) == declares_spawn(b),
{
    if declares_spawn(a) {
        lemma_declares_spawn_reordered(a, b);
    }
    if declares_spawn(b) {
        lemma_declares_spawn_reordered(b, a);
    }
}

/// A request passes the permission check exactly when the requester's
/// manifest holds a capability of kind `spawn`, at any position among its
/// capabilities; otherwise it is refused as not permitted, naming the
/// requester.
pub proof fn lemma_spawn_permission_any_position(
    g: GraphView,
    spawnable: Map<Seq<char>, ManifestView>,
    requester: Seq<char>,
    manifest: Seq<char>,
    i: int,
)
    requires
        named(g.components, requester) == Some(i),
    ensures
        (exists|k: int|
            0 <= k < g.components[i].capabilities.len()
                && (#[trigger] g.components[i].capabilities[k]).kind == CapabilityKind::Spawn) ==> !(
        admission(g, spawnable, requester, manifest) matches Err(SpawnRefusalView::NotPermitted { .. })),
        (forall|k: int|
            0 <= k < g.components[i].capabilities.len()
                ==> (#[trigger] g.components[i].capabilities[k]).kind != CapabilityKind::Spawn) ==> (
        admission(g, spawnable, requester, manifest) == Err::<
            (ManifestView, Seq<ConnectionView>),
            SpawnRefusalView,
        >(SpawnRefusalView::NotPermitted { requester })),
{
}

/// Whether a manifest declares a `spawn` capability.
fn holds_spawn(m: &Manifest) -> (b: bool)
    ensures
        b == declares_spawn(m@),
{
    let mut i: usize = 0;
    while i < m.capabilities.len()
        invariant
            i <= m.capabilities@.len(),
            forall|k: int| 0 <= k < i ==> (#[trigger] m@.capabilities[k]).kind != CapabilityKind::Spawn,
        decreases m.capabilities@.len() - i,
    {
        assert(m@.capabilities[i as int] == m.capabilities@[i as int]@);
        if m.capabilities[i].kind == CapabilityKind::Spawn {
            return true;
        }
        i = i + 1;
    }
    false
}

/// Check a delegated-spawn request before anything is created: the
/// requester must declare `kind = spawn`, the named manifest must be in the
/// spawnable set, the child's name must be free in the session, and the
/// child's connections must resolve against the running graph. Nothing is
/// changed; on admission the child's manifest and connections are handed
/// back for wiring and spawning.
pub fn admit_spawn<'a>(
    graph: &Graph,
    spawnable: &'a SpawnableSet,
    requester: &str,
    manifest: &str,
) -> (r: Result<(&'a Manifest, Vec<Connection>), SpawnRefusal>)
    ensures
        match admission(graph@, spawnable@, requester@, manifest@) {
            Ok((m, cs)) => r matches Ok((x, v)) && x@ == m && conns(v@) == cs,
            Err(e) => r matches Err(x) && x@ == e,
        },
{
    let permitted = match graph.component(requester) {
        Some(m) => holds_spawn(m),
        None => false,
    };
    if !permitted {
        return Err(SpawnRefusal::NotPermitted { requester: requester.to_owned() });
    }
    let child = match spawnable.get(manifest) {
        Some(m) => m,
        None => return Err(SpawnRefusal::UnknownManifest { manifest: manifest.to_owned() }),
    };
    if graph.component(child.name.as_str()).is_some() {
        return Err(SpawnRefusal::NameTaken { name: child.name.clone() });
    }
    match graph.connections_for(child) {
        Ok(cs) => Ok((child, cs)),
        Err(e) => Err(SpawnRefusal::Unresolved(e)),
    }
}

/// An admitted child joins the running graph, appended after every
/// component already there and bringing exactly the connections its
/// admission reported, whenever no running component already exports the
/// interface it exports.
pub proof fn lemma_admitted_child_joins(
    g: GraphView,
    spawnable: Map<Seq<char>, ManifestView>,
    requester: Seq<char>,
    manifest: Seq<char>,
)
    requires
        admission(g, spawnable, requester, manifest) is Ok,
        exporting(g.components, admission(g, spawnable, requester, manifest)->Ok_0.0.interface) is None,
    ensures
        ({
            let (child, cs) = admission(g, spawnable, requester, manifest)->Ok_0;
            added(g, child) == Ok::<GraphView, GraphFault>(
                GraphView { components: g.components.push(child), connections: g.connections + cs },
            )
        }),
{
}

// ---- carrying out an admitted spawn ------------------------------------------

/// The fallible steps of carrying out an admitted delegated spawn, in the
/// order they are taken: wire the child's rings, open its Casper channels,
/// find its program, spawn it, watch its process descriptor, and add it to
/// the graph. The session changes only after the last of them.
#[derive(Debug, Clone, Copy, PartialEq, Eq, Structural)]
pub enum SpawnStage {
    Wire,
    OpenCasper,
    FindProgram,
    Spawn,
    Watch,
    Join,
}

/// What follows one step of a delegated spawn.
#[derive(Debug, Clone, PartialEq, Eq)]
pub enum SpawnAction {
    /// The step succeeded: take the next one.
    Next(SpawnStage),
    /// The step failed: answer `Refused` with `reason`, shutting the child
    /// down first where `shutdown` says it is already running. The session
    /// is left as it was.
    Refuse { reason: String, shutdown: bool },
    /// Every step succeeded: supervise the child, tell each live peer of
    /// its fresh ring end, and answer `Spawned`.
    Commit,
}

/// The mathematical form of a [`SpawnAction`].
pub enum SpawnActionView {
    Next(SpawnStage),
    Refuse { reason: Seq<char>, shutdown: bool },
    Commit,
}

impl View for SpawnAction {
    type V = SpawnActionView;

    open spec fn view(&self) -> SpawnActionView {
        match self {
            SpawnAction::Next(s) => SpawnActionView::Next(*s),
            SpawnAction::Refuse { reason, shutdown } => SpawnActionView::Refuse {
                reason: reason@,
                shutdown: *shutdown,
            },
            SpawnAction::Commit => SpawnActionView::Commit,
        }
    }
}

/// The step taken after `s` succeeds; none after the last.
pub open spec fn stage_after(s: SpawnStage) -> Option<SpawnStage> {
    match s {
        SpawnStage::Wire => Some(SpawnStage::OpenCasper),
        SpawnStage::OpenCasper => Some(SpawnStage::FindProgram),
        SpawnStage::FindProgram => Some(SpawnStage::Spawn),
        SpawnStage::Spawn => Some(SpawnStage::Watch),
        SpawnStage::Watch => Some(SpawnStage::Join),
        SpawnStage::Join => None,
    }
}

/// Whether the child process is already running when `s` is taken.
pub open spec fn child_running(s: SpawnStage) -> bool {
    s is Watch || s is Join
}

/// The reason a failure of step `s`, reported as `err`, is answered with.
pub open spec fn stage_refusal(s: SpawnStage, child: Seq<char>, err: Seq<char>) -> Seq<char> {
    match s {
        SpawnStage::Wire => "could not wire the child's connections: "@ + err,
        SpawnStage::OpenCasper => "could not open the child's Casper channels: "@ + err,
        SpawnStage::FindProgram => "no program resolved for `"@ + child + "`"@,
        SpawnStage::Spawn => "could not spawn the child: "@ + err,
        SpawnStage::Watch => "could not watch the child's process descriptor: "@ + err,
        SpawnStage::Join => "the child's graph add failed: "@ + err,
    }
}

/// What follows step `s` for the child named `child`, given the step's
/// failure, if it failed.
pub open spec fn spawn_next(s: SpawnStage, child: Seq<char>, failure: Option<Seq<char>>) -> SpawnActionView {
    match failure {
        Some(err) => SpawnActionView::Refuse {
            reason: stage_refusal(s, child, err),
            shutdown: child_running(s),
        },
        None => match stage_after(s) {
            Some(n) => SpawnActionView::Next(n),
            None => SpawnActionView::Commit,
        },
    }
}

/// Decide what follows step `stage` of spawning `child`, given the text of
/// its failure, or `None` where it succeeded.
pub fn spawn_step(stage: SpawnStage, child: &str, failure: Option<&str>) -> (a: SpawnAction)
    ensures
        a@ == spawn_next(
            stage,
            child@,
            match failure {
                Some(e) => Some(e@),
                None => None,
            },
        ),
{
    match failure {
        None => match stage {
            SpawnStage::Wire => SpawnAction::Next(SpawnStage::OpenCasper),
            SpawnStage::OpenCasper => SpawnAction::Next(SpawnStage::FindProgram),
            SpawnStage::FindProgram => SpawnAction::Next(SpawnStage::Spawn),
            SpawnStage::Spawn => SpawnAction::Next(SpawnStage::Watch),
            SpawnStage::Watch => SpawnAction::Next(SpawnStage::Join),
            SpawnStage::Join => SpawnAction::Commit,
        },
        Some(err) => {
            let mut out: Vec<char> = Vec::new();
            match stage {
                SpawnStage::Wire => {
                    crate::text::put_str(&mut out, "could not wire the child's connections: ");
                    crate::text::put_str(&mut out, err);
                },
                SpawnStage::OpenCasper => {
                    crate::text::put_str(&mut out, "could not open the child's Casper channels: ");
                    crate::text::put_str(&mut out, err);
                },
                SpawnStage::FindProgram => {
                    crate::text::put_str(&mut out, "no program resolved for `");
                    crate::text::put_str(&mut out, child);
                    crate::text::put_str(&mut out, "`");
                },
                SpawnStage::Spawn => {
                    crate::text::put_str(&mut out, "could not spawn the child: ");
                    crate::text::put_str(&mut out, err);
                },
                SpawnStage::Watch => {
                    crate::text::put_str(&mut out, "could not watch the child's process descriptor: ");
                    crate::text::put_str(&mut out, err);
                },
                SpawnStage::Join => {
                    crate::text::put_str(&mut out, "the child's graph add failed: ");
                    crate::text::put_str(&mut out, err);
                },
            }
            let shutdown = match stage {
                SpawnStage::Watch | SpawnStage::Join => true,
                _ => false,
            };
            SpawnAction::Refuse { reason: crate::text::string_of(out.as_slice()), shutdown }
        },
    }
}

/// The `k`-th step of a delegated spawn, counting from zero.
pub open spec fn stage_at(k: int) -> SpawnStage {
    if k <= 0 {
        SpawnStage::Wire
    } else if k == 1 {
        SpawnStage::OpenCasper
    } else if k == 2 {
        SpawnStage::FindProgram
    } else if k == 3 {
        SpawnStage::Spawn
    } else if k == 4 {
        SpawnStage::Watch
    } else {
        SpawnStage::Join
    }
}

/// Where a delegated spawn stands after taking steps from `s` on, the
/// `i`-th of them failing with `failures[i]` where that is `Some`: the
/// first action that is not `Next`, or the next step still to take.
pub open spec fn spawn_run(
    failures: Seq<Option<Seq<char>>>,
    child: Seq<char>,
    s: SpawnStage,
) -> SpawnActionView
    decreases failures.len(),
{
    if failures.len() == 0 {
        SpawnActionView::Next(s)
    } else {
        match spawn_next(s, child, failures[0]) {
            SpawnActionView::Next(n) => spawn_run(failures.drop_first(), child, n),
            other => other,
        }
    }
}

/// Whether the first `n` steps taken all succeeded.
pub open spec fn all_succeed(failures: Seq<Option<Seq<char>>>, n: int) -> bool {
    &&& failures.len() >= n
    &&& forall|i: int| 0 <= i < n ==> #[trigger] failures[i] is None
}

/// Whether the `k`-th step taken is the first to fail.
pub open spec fn first_failure(failures: Seq<Option<Seq<char>>>, k: int) -> bool {
    &&& 0 <= k < failures.len()
    &&& failures[k] is Some
    &&& forall|i: int| 0 <= i < k ==> #[trigger] failures[i] is None
}

/// The refusal for a failure of step number `k`, reported as `err`.
pub open spec fn refusal_of(k: int, child: Seq<char>, err: Seq<char>) -> SpawnActionView {
    SpawnActionView::Refuse { reason: stage_refusal(stage_at(k), child, err), shutdown: k >= 4 }
}

proof fn lemma_spawn_run_from(failures: Seq<Option<Seq<char>>>, child: Seq<char>, j: int)
    requires
        0 <= j <= 5,
    ensures
        (spawn_run(failures, child, stage_at(j)) is Commit) == all_succeed(failures, 6 - j),
        forall|k: int|
            0 <= k < 6 - j && #[trigger] first_failure(failures, k) ==> spawn_run(
                failures,
                child,
                stage_at(j),
            ) == refusal_of(j + k, child, failures[k]->0),
    decreases failures.len(),
{
    if failures.len() > 0 && failures[0] is None && j < 5 {
        let rest = failures.drop_first();
        assert(stage_after(stage_at(j)) == Some(stage_at(j + 1)));
        lemma_spawn_run_from(rest, child, j + 1);
        if all_succeed(failures, 6 - j) {
            assert forall|i: int| 0 <= i < 5 - j implies #[trigger] rest[i] is None by {
                assert(failures[i + 1] is None);
            }
        }
        if all_succeed(rest, 5 - j) {
            assert forall|i: int| 0 <= i < 6 - j implies #[trigger] failures[i] is None by {
                if i > 0 {
                    assert(rest[i - 1] is None);
                }
            }
        }
        assert forall|k: int|
            0 <= k < 6 - j && #[trigger] first_failure(failures, k) implies spawn_run(
            failures,
            child,
            stage_at(j),
        ) == refusal_of(j + k, child, failures[k]->0) by {
            assert(k >= 1);
            assert(rest[k - 1] == failures[k]);
            assert forall|i: int| 0 <= i < k - 1 implies #[trigger] rest[i] is None by {
                assert(failures[i + 1] is None);
            }
            assert(first_failure(rest, k - 1));
            assert(j + 1 + (k - 1) == j + k);
        }
    } else if failures.len() > 0 && failures[0] is Some {
        assert forall|k: int|
            0 <= k < 6 - j && #[trigger] first_failure(failures, k) implies k == 0 by {
            if k > 0 {
                assert(failures[0] is None);
            }
        }
    }
}

/// A delegated spawn commits, and so changes the session, only once every
/// one of its steps has succeeded; and where a step fails first, the
/// refusal names that step's failure and shuts the child down exactly when
/// the spawn itself had already succeeded.
pub proof fn lemma_spawn_commits_only_after_every_step(
    failures: Seq<Option<Seq<char>>>,
    child: Seq<char>,
)
    ensures
        (spawn_run(failures, child, SpawnStage::Wire) is Commit) == all_succeed(failures, 6),
        forall|k: int|
            0 <= k < 6 && #[trigger] first_failure(failures, k) ==> spawn_run(
                failures,
                child,
                SpawnStage::Wire,
            ) == refusal_of(k, child, failures[k]->0),
{
    lemma_spawn_run_from(failures, child, 0);
    assert(stage_at(0) == SpawnStage::Wire);
}

// ---- supervision ---------------------------------------------------------------

/// The components a running session supervises, by name, in the order
/// they joined: graph order at launch, then each delegated child.
pub struct Roster {
    names: Vec<String>,
}

impl View for Roster {
    type V = Seq<Seq<char>>;

    closed spec fn view(&self) -> Seq<Seq<char>> {
        strs(self.names@)
    }
}

/// The position of the first `name` in `names`.
pub open spec fn index_of(names: Seq<Seq<char>>, name: Seq<char>) -> Option<int>
    decreases names.len(),
{
    if names.len() == 0 {
        None
    } else if names[0] == name {
        Some(0)
    } else {
        match index_of(names.drop_first(), name) {
            Some(i) => Some(i + 1),
            None => None,
        }
    }
}

proof fn lemma_index_of_at(names: Seq<Seq<char>>, name: Seq<char>, i: int)
    requires
        0 <= i <= names.len(),
        forall|j: int| 0 <= j < i ==> #[trigger] names[j] != name,
        i == names.len() || names[i] == name,
    ensures
        index_of(names, name) == (if i < names.len() {
            Some(i)
        } else {
            None::<int>
        }),
    decreases names.len(),
{
    if names.len() > 0 && i > 0 {
        let t = names.drop_first();
        assert forall|j: int| 0 <= j < i - 1 implies #[trigger] t[j] != name by {
            assert(t[j] == names[j + 1]);
        }
        if i < names.len() {
            assert(t[i - 1] == names[i]);
        }
        lemma_index_of_at(t, name, i - 1);
    }
}

/// The first `n` peer grants whose peer is still supervised, each with
/// the peer's position: a peer that has gone is not told.
pub open spec fn live_targets(
    names: Seq<Seq<char>>,
    peers: Seq<(Seq<char>, GrantPlanView)>,
    n: int,
) -> Seq<(int, GrantPlanView)>
    decreases n,
{
    if n <= 0 {
        Seq::empty()
    } else {
        let prev = live_targets(names, peers, n - 1);
        match index_of(names, peers[n - 1].0) {
            Some(i) => prev.push((i, peers[n - 1].1)),
            None => prev,
        }
    }
}

/// What supervision does about a component that exited.
#[derive(Debug, Clone, PartialEq, Eq)]
pub enum ExitPlan {
    /// Stop it: its jail is reclaimed and it leaves the session; its
    /// peers' rings stay closed.
    Stop,
    /// Restart it holding a fresh bundle of `own` ring ends, and send each
    /// supervised peer, at its position, its fresh end.
    Restart { own: Vec<GrantPlan>, notify: Vec<(usize, GrantPlan)> },
}

/// The mathematical form of an [`ExitPlan`].
pub enum ExitPlanView {
    Stop,
    Restart { own: Seq<GrantPlanView>, notify: Seq<(int, GrantPlanView)> },
}

pub open spec fn notified(v: Seq<(usize, GrantPlan)>) -> Seq<(int, GrantPlanView)> {
    v.map_values(|p: (usize, GrantPlan)| (p.0 as int, p.1@))
}

impl View for ExitPlan {
    type V = ExitPlanView;

    open spec fn view(&self) -> ExitPlanView {
        match self {
            ExitPlan::Stop => ExitPlanView::Stop,
            ExitPlan::Restart { own, notify } => ExitPlanView::Restart {
                own: plans(own@),
                notify: notified(notify@),
            },
        }
    }
}

/// What the exit of the component at `index`, with `status`, comes to:
/// by its restart policy, a stop, or a restart with its connections
/// re-wired and each supervised peer told of its fresh end.
pub open spec fn exit_plan(
    names: Seq<Seq<char>>,
    g: GraphView,
    cat: Map<Seq<char>, Seq<(Seq<char>, u32)>>,
    index: int,
    status: i32,
) -> Result<ExitPlanView, CatalogueFault> {
    let name = names[index];
    if !restarts(policy_of(g, name), status) {
        Ok(ExitPlanView::Stop)
    } else {
        let cs = touching(g.connections, name);
        match masks(cat, cs, cs.len() as int) {
            Err(e) => Err(e),
            Ok(ms) => {
                let (own, peers) = rewire_plan(cs, ms, name, cs.len() as int);
                Ok(ExitPlanView::Restart { own, notify: live_targets(names, peers, peers.len() as int) })
            },
        }
    }
}

impl Roster {
    /// The roster of a session launched from `graph`: every component, in
    /// graph order.
    pub fn new(graph: &Graph) -> (r: Roster)
        ensures
            r@ == graph@.components.map_values(|m: ManifestView| m.name),
    {
        let components = graph.components();
        let mut names: Vec<String> = Vec::new();
        let mut i: usize = 0;
        while i < components.len()
            invariant
                i <= components@.len(),
                manifests(components@) == graph@.components,
                strs(names@) == graph@.components.take(i as int).map_values(|m: ManifestView| m.name),
            decreases components@.len() - i,
        {
            let ghost before = names@;
            assert(graph@.components[i as int] == components@[i as int]@);
            names.push(components[i].name.clone());
            assert(strs(names@) =~= strs(before).push(components@[i as int].name@));
            assert(graph@.components.take(i + 1) =~= graph@.components.take(i as int).push(
                graph@.components[i as int],
            ));
            assert(graph@.components.take(i + 1).map_values(|m: ManifestView| m.name)
                =~= graph@.components.take(i as int).map_values(|m: ManifestView| m.name).push(
                graph@.components[i as int].name,
            ));
            i = i + 1;
        }
        assert(graph@.components.take(components@.len() as int) =~= graph@.components);
        Roster { names }
    }

    /// How many components are supervised.
    pub fn len(&self) -> (n: usize)
        ensures
            n == self@.len(),
    {
        self.names.len()
    }

    /// Whether the session is over: nothing is supervised.
    pub fn is_empty(&self) -> (b: bool)
        ensures
            b == (self@.len() == 0),
    {
        self.names.len() == 0
    }

    /// The name of the component at `index`.
    pub fn name(&self, index: usize) -> (n: &String)
        requires
            index < self@.len(),
        ensures
            n@ == self@[index as int],
    {
        &self.names[index]
    }

    /// The position of the component named `name`, if it is supervised.
    pub fn position(&self, name: &str) -> (r: Option<usize>)
        ensures
            match index_of(self@, name@) {
                Some(i) => r matches Some(p) && p as int == i,
                None => r is None,
            },
    {
        let mut i: usize = 0;
        while i < self.names.len()
            invariant
                i <= self.names@.len(),
                self@ == strs(self.names@),
                forall|j: int| 0 <= j < i ==> #[trigger] self@[j] != name@,
            decreases self.names@.len() - i,
        {
            assert(self@[i as int] == self.names@[i as int]@);
            if crate::text::eq_str(crate::text::chars_of(self.names[i].as_str()).as_slice(), name) {
                proof {
                    lemma_index_of_at(self@, name@, i as int);
                }
                return Some(i);
            }
            i = i + 1;
        }
        proof {
            lemma_index_of_at(self@, name@, i as int);
        }
        None
    }

    /// The peer grants to deliver, each paired with its peer's position;
    /// a peer no longer supervised is skipped.
    pub fn notify_targets(&self, peers: &[(String, GrantPlan)]) -> (r: Vec<(usize, GrantPlan)>)
        ensures
            notified(r@) == live_targets(self@, peer_plans(peers@), peers@.len() as int),
    {
        let ghost ps = peer_plans(peers@);
        let mut out: Vec<(usize, GrantPlan)> = Vec::new();
        let mut i: usize = 0;
        while i < peers.len()
            invariant
                i <= peers@.len(),
                ps == peer_plans(peers@),
                notified(out@) == live_targets(self@, ps, i as int),
            decreases peers@.len() - i,
        {
            assert(ps[i as int] == (peers@[i as int].0@, peers@[i as int].1@));
            let ghost before = out@;
            let key: &str = peers[i].0.as_str();
            assert(key@ == ps[i as int].0);
            match self.position(key) {
                Some(p) => {
                    let g = GrantPlan {
                        interface: peers[i].1.interface.clone(),
                        role: peers[i].1.role,
                        object_rights: peers[i].1.object_rights,
                    };
                    out.push((p, g));
                    assert(g@ == ps[i as int].1);
                    assert(index_of(self@, ps[i as int].0) == Some(p as int));
                    assert(notified(out@) =~= notified(before).push((p as int, g@)));
                },
                None => {
                    assert(index_of(self@, ps[i as int].0) is None);
                },
            }
            i = i + 1;
        }
        out
    }

    /// Decide about the component at `index`, which exited with `status`:
    /// stopped, it leaves the roster; restarted, it keeps its place and
    /// its connections are re-wired.
    pub fn on_exit(
        &mut self,
        graph: &Graph,
        catalogue: &InterfaceCatalogue,
        index: usize,
        status: i32,
    ) -> (r: Result<ExitPlan, SessionError>)
        requires
            index < old(self)@.len(),
        ensures
            match exit_plan(old(self)@, graph@, catalogue@, index as int, status) {
                Ok(p) => r matches Ok(x) && x@ == p,
                Err(e) => r matches Err(SessionError::Rights(x)) && x@ == e,
            },
            match r {
                Ok(ExitPlan::Stop) => final(self)@ == old(self)@.remove(index as int),
                _ => final(self)@ == old(self)@,
            },
    {
        let name = self.names[index].clone();
        assert(name@ == self@[index as int]);
        if !restart_after_exit(graph, name.as_str(), status) {
            let ghost before = self.names@;
            self.names.remove(index);
            assert(strs(self.names@) =~= strs(before).remove(index as int));
            return Ok(ExitPlan::Stop);
        }
        let (own, peers) = rewire(graph, catalogue, name.as_str())?;
        let notify = self.notify_targets(peers.as_slice());
        Ok(ExitPlan::Restart { own, notify })
    }

    /// A delegated child joins the session, supervised after every
    /// component already there.
    pub fn join(&mut self, name: String)
        ensures
            final(self)@ == old(self)@.push(name@),
    {
        let ghost before = self.names@;
        self.names.push(name);
        assert(strs(self.names@) =~= strs(before).push(name@));
    }
}

// ---- messages ------------------------------------------------------------------

impl SessionError {
    /// The message this error reads as.
    pub fn message(&self) -> (m: String)
        ensures
            m@ == (match self {
                SessionError::Rights(e) => "launching a session: "@ + catalogue_message(e@),
            }),
    {
        let mut out: Vec<char> = Vec::new();
        match self {
            SessionError::Rights(e) => {
                crate::text::put_str(&mut out, "launching a session: ");
                crate::text::put_str(&mut out, e.message().as_str());
            },
        }
        crate::text::string_of(out.as_slice())
    }
}

/// The reason a refused delegated spawn is answered with.
pub open spec fn refusal_reason(r: SpawnRefusalView) -> Seq<char> {
    match r {
        SpawnRefusalView::NotPermitted { requester } => "`"@ + requester
            + "` holds no `spawn` capability"@,
        SpawnRefusalView::UnknownManifest { manifest } => "no spawnable manifest named `"@ + manifest
            + "`"@,
        SpawnRefusalView::NameTaken { name } => "a component named `"@ + name
            + "` is already in the session"@,
        SpawnRefusalView::Unresolved(e) => "the child's authority does not resolve: "@
            + graph_message(e),
    }
}

impl SpawnRefusal {
    /// The reason this refusal is answered with.
    pub fn reason(&self) -> (m: String)
        ensures
            m@ == refusal_reason(self@),
    {
        let mut out: Vec<char> = Vec::new();
        match self {
            SpawnRefusal::NotPermitted { requester } => {
                crate::text::put_str(&mut out, "`");
                crate::text::put_str(&mut out, requester.as_str());
                crate::text::put_str(&mut out, "` holds no `spawn` capability");
            },
            SpawnRefusal::UnknownManifest { manifest } => {
                crate::text::put_str(&mut out, "no spawnable manifest named `");
                crate::text::put_str(&mut out, manifest.as_str());
                crate::text::put_str(&mut out, "`");
            },
            SpawnRefusal::NameTaken { name } => {
                crate::text::put_str(&mut out, "a component named `");
                crate::text::put_str(&mut out, name.as_str());
                crate::text::put_str(&mut out, "` is already in the session");
            },
            SpawnRefusal::Unresolved(e) => {
                crate::text::put_str(&mut out, "the child's authority does not resolve: ");
                crate::text::put_str(&mut out, e.message().as_str());
            },
        }
        crate::text::string_of(out.as_slice())
    }
}

} // verus!
