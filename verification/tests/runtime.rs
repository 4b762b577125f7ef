use abyss::broker::catalogue::{CatalogueError, InterfaceCatalogue};
use abyss::broker::graph::Graph;
use abyss::broker::manifest::{Manifest, RestartPolicy};
use abyss::broker::graph::GraphError;
use abyss::broker::session::{
    ExitPlan, GrantPlan, Roster, SessionError, SpawnRefusal, admit_spawn, bundle_header, casper_services,
    control_header, plan_bundles, plan_connections, restart_after_exit, restart_wanted, rewire,
};
use abyss::broker::spawnable::SpawnableSet;
use abyss::bundle::{Role, casper_parts, casper_value, grant_parts, grant_rights, grant_value};
use abyss::cap::{CapBody, KIND_FD_CAPABILITY};
use abyss::looper::{
    Idle, RecvStep, Ring, RingClosed, SendStep, Tasks, TryRecvError, TrySendError, answer,
};
use abyss::msg::envelope::{MessageKind, RawHandle};
use abyss::msg::error::WireError;
use abyss::render::{Color, CoverageMask, CpuBackend, FillRule, GlyphCache, Pixmap, mask_targets};

// ---- the ring -------------------------------------------------------------------

#[test]
fn try_send_and_try_recv() {
    let mut ring: Ring<i32> = Ring::new(1);
    assert!(ring.try_send(1).is_ok());
    assert_eq!(ring.try_send(2), Err(TrySendError::Full(2)));
    assert_eq!(ring.try_recv(), Ok(1));
    assert_eq!(ring.try_recv(), Err(TryRecvError::Empty));
    assert!(ring.drop_sender());
    assert_eq!(ring.try_recv(), Err(TryRecvError::Closed));
}

#[test]
fn a_closed_ring_refuses_a_send_and_drains_before_closing() {
    let mut ring: Ring<i32> = Ring::new(4);
    assert_eq!(ring.step_send(1), SendStep::Sent);
    assert_eq!(ring.step_send(2), SendStep::Sent);
    ring.add_sender();
    assert!(!ring.drop_sender());
    assert!(ring.drop_sender());
    assert_eq!(ring.step_recv(), RecvStep::Received(1));
    assert_eq!(ring.step_recv(), RecvStep::Received(2));
    assert_eq!(ring.step_recv(), RecvStep::Closed);
    ring.close_receiver();
    assert_eq!(ring.step_send(3), SendStep::Closed);
    assert_eq!(ring.try_send(3), Err(TrySendError::Closed(3)));
}

#[test]
fn a_full_ring_makes_a_sender_wait() {
    let mut ring: Ring<i32> = Ring::new(2);
    assert_eq!(ring.step_send(1), SendStep::Sent);
    assert_eq!(ring.step_send(2), SendStep::Sent);
    assert_eq!(ring.step_send(3), SendStep::Wait(3));
    assert_eq!(ring.len(), 2);
    let mut empty: Ring<i32> = Ring::new(2);
    assert_eq!(empty.step_recv(), RecvStep::Wait);
}

#[test]
fn channel_send_then_recv() {
    let mut ring: Ring<i32> = Ring::new(2);
    assert_eq!(ring.step_send(7), SendStep::Sent);
    assert_eq!(ring.step_recv(), RecvStep::Received(7));
}

#[test]
fn channel_is_fifo() {
    let mut ring: Ring<i32> = Ring::new(8);
    for i in 0..8 {
        assert_eq!(ring.step_send(i), SendStep::Sent);
    }
    for i in 0..8 {
        assert_eq!(ring.step_recv(), RecvStep::Received(i));
    }
}

#[test]
fn recv_reports_closed_when_all_senders_drop() {
    let mut ring: Ring<i32> = Ring::new(2);
    assert!(ring.drop_sender());
    assert_eq!(ring.step_recv(), RecvStep::Closed);
}

#[test]
fn buffered_messages_drain_before_closed() {
    let mut ring: Ring<i32> = Ring::new(4);
    assert_eq!(ring.step_send(1), SendStep::Sent);
    assert_eq!(ring.step_send(2), SendStep::Sent);
    assert!(ring.drop_sender());
    assert_eq!(ring.step_recv(), RecvStep::Received(1));
    assert_eq!(ring.step_recv(), RecvStep::Received(2));
    assert_eq!(ring.step_recv(), RecvStep::Closed);
}

#[test]
fn send_reports_closed_when_receiver_drops() {
    let mut ring: Ring<i32> = Ring::new(2);
    ring.close_receiver();
    assert_eq!(ring.step_send(1), SendStep::Closed);
}

#[test]
fn a_reply_reaches_the_caller() {
    let mut ring: Ring<i32> = Ring::new(1);
    assert_eq!(answer(&mut ring, 42), Ok(()));
    assert_eq!(ring.try_recv(), Ok(42));
}

#[test]
fn answering_a_gone_caller_is_ring_closed() {
    let mut gone: Ring<i32> = Ring::new(1);
    gone.close_receiver();
    assert_eq!(answer(&mut gone, 1), Err(RingClosed));
}

// ---- the session's decisions ------------------------------------------------------

#[test]
fn restart_policies_decide_on_the_exit_status() {
    assert!(restart_wanted(RestartPolicy::Always, 0));
    assert!(restart_wanted(RestartPolicy::Always, 1));
    assert!(restart_wanted(RestartPolicy::OnFailure, 139));
    assert!(!restart_wanted(RestartPolicy::OnFailure, 0));
    assert!(!restart_wanted(RestartPolicy::Never, 1));
    assert_eq!(bundle_header().method_id, 0);
    assert_eq!(control_header().method_id, 1);
    assert_eq!(control_header().kind, MessageKind::Event);
}

fn manifest(name: &str, interface: &str, caps: &str) -> Manifest {
    let text = format!(
        "name = {name}\ninterface = {interface}\nversion = 1\n{caps}\
         [jail]\nroot = /\nnetwork = none\nuser = _{name}\n\
         [budget]\nmemory = 1M\nfds = 8\n[restart]\npolicy = always\n",
    );
    Manifest::parse(&text).expect("test manifest parses")
}

fn peer(interface: &str, rights: &str) -> String {
    format!("[capability]\nkind = peer\ninterface = {interface}\nrights = {rights}\n")
}

fn plan(interface: &str, role: Role, object_rights: u32) -> GrantPlan {
    GrantPlan {
        interface: interface.to_owned(),
        role,
        object_rights,
    }
}

#[test]
fn every_connection_plans_a_client_end_and_a_server_end() {
    let g = Graph::build(vec![
        manifest("compositor", "display", &peer("input", "recv")),
        manifest("input", "input", ""),
        manifest("idle", "idle", ""),
    ])
    .expect("builds");
    let mut catalogue = InterfaceCatalogue::new();
    catalogue.register("input", &[("recv", 0b10)]);
    let bundles = plan_bundles(&g, &catalogue).expect("the rights resolve");
    assert_eq!(
        bundles,
        vec![
            ("compositor".to_owned(), vec![plan("input", Role::Client, 0b10)]),
            ("input".to_owned(), vec![plan("input", Role::Server, 0b10)]),
            ("idle".to_owned(), vec![]),
        ]
    );

    let (own, peers) =
        plan_connections(&catalogue, g.connections(), "input").expect("resolves");
    assert_eq!(own, vec![plan("input", Role::Server, 0b10)]);
    assert_eq!(
        peers,
        vec![("compositor".to_owned(), plan("input", Role::Client, 0b10))]
    );
}

/// The single bundle plan of the component named `name`.
fn bundle_of<'b>(bundles: &'b [(String, Vec<GrantPlan>)], name: &str) -> &'b Vec<GrantPlan> {
    &bundles
        .iter()
        .find(|(component, _)| component == name)
        .expect("the component is in the wiring")
        .1
}

fn peer_recv(interface: &str) -> String {
    peer(interface, "recv")
}

#[test]
fn wire_assembles_a_bundle_per_component() {
    // compositor → input is one connection; `log` peers no one.
    let graph = Graph::build(vec![
        manifest("compositor", "display", &peer_recv("input")),
        manifest("input", "input", ""),
        manifest("log", "log", ""),
    ])
    .expect("the graph builds");

    // `input`'s rights classes; the `peer` capability asks for `recv`.
    let mut catalogue = InterfaceCatalogue::new();
    catalogue.register("input", &[("recv", 0b01), ("send", 0b10)]);

    let bundles = plan_bundles(&graph, &catalogue).expect("the session wires");
    assert_eq!(bundles.len(), 3);

    // The requester holds the client end of the ring …
    let compositor = bundle_of(&bundles, "compositor");
    assert_eq!(compositor.len(), 1);
    assert_eq!(compositor[0].interface, "input");
    assert_eq!(compositor[0].role, Role::Client);

    // … the provider the server end.
    let input = bundle_of(&bundles, "input");
    assert_eq!(input.len(), 1);
    assert_eq!(input[0].interface, "input");
    assert_eq!(input[0].role, Role::Server);

    // And the object-rights mask the catalogue resolved `recv` to, the
    // same on both ends of the connection.
    assert_eq!(compositor[0].object_rights, 0b01);
    assert_eq!(input[0].object_rights, 0b01);

    // A component that peers no one is wired an empty bundle.
    assert!(bundle_of(&bundles, "log").is_empty());
}

#[test]
fn an_empty_manifest_set_wires_to_nothing() {
    let graph = Graph::build(vec![]).expect("graph");
    let bundles = plan_bundles(&graph, &InterfaceCatalogue::new()).expect("wire");
    assert!(bundles.is_empty());
}

#[test]
fn an_unknown_rights_class_fails_the_wiring() {
    // The manifest asks for `recv`, but the catalogue's `input` has no
    // such class: a malformed manifest set.
    let graph = Graph::build(vec![
        manifest("compositor", "display", &peer_recv("input")),
        manifest("input", "input", ""),
    ])
    .expect("the graph builds");

    let mut catalogue = InterfaceCatalogue::new();
    catalogue.register("input", &[("send", 0b10)]);

    match plan_bundles(&graph, &catalogue) {
        Err(SessionError::Rights(CatalogueError::UnknownRightsClass { class, .. })) => {
            assert_eq!(class, "recv");
        }
        Err(other) => panic!("expected an unknown-rights-class error, got {other:?}"),
        Ok(_) => panic!("expected the wiring to fail"),
    }
}

#[test]
fn rewire_freshens_one_components_rings() {
    // compositor → input: input is the provider, compositor the peer.
    let graph = Graph::build(vec![
        manifest("compositor", "display", &peer_recv("input")),
        manifest("input", "input", ""),
    ])
    .expect("the graph builds");

    let mut catalogue = InterfaceCatalogue::new();
    catalogue.register("input", &[("recv", 0b01)]);

    // Re-wire `input`: one server-end grant for itself, and the matching
    // client end for its one peer, the requester.
    let (bundle, peers) = rewire(&graph, &catalogue, "input").expect("input re-wires");
    assert_eq!(bundle.len(), 1);
    assert_eq!(bundle[0].interface, "input");
    assert_eq!(bundle[0].role, Role::Server);
    assert_eq!(bundle[0].object_rights, 0b01);

    assert_eq!(peers.len(), 1);
    assert_eq!(peers[0].0, "compositor");
    assert_eq!(peers[0].1.interface, "input");
    assert_eq!(peers[0].1.role, Role::Client);
    assert_eq!(peers[0].1.object_rights, 0b01);

    // Re-wiring the requester is the mirror image.
    let (bundle, peers) = rewire(&graph, &catalogue, "compositor").expect("compositor re-wires");
    assert_eq!(bundle[0].role, Role::Client);
    assert_eq!(peers[0].0, "input");
    assert_eq!(peers[0].1.role, Role::Server);
}

#[test]
fn rewire_a_component_with_no_peers_is_empty() {
    let graph = Graph::build(vec![manifest("lonely", "lonely", "")]).expect("the graph builds");
    let (bundle, peers) =
        rewire(&graph, &InterfaceCatalogue::new(), "lonely").expect("a lone component re-wires");
    assert!(bundle.is_empty());
    assert!(peers.is_empty());
}

fn manifest_with_policy(name: &str, interface: &str, caps: &str, policy: &str) -> Manifest {
    let text = format!(
        "name = {name}\ninterface = {interface}\nversion = 1\n{caps}\
         [jail]\nroot = /\nnetwork = none\nuser = _{name}\n\
         [budget]\nmemory = 1M\nfds = 8\n[restart]\npolicy = {policy}\n",
    );
    Manifest::parse(&text).expect("test manifest parses")
}

const SPAWN_CAP: &str = "[capability]\nkind = spawn\ntarget = apps\nrights = spawn\n";

#[test]
fn an_exit_is_judged_by_the_components_own_policy() {
    let g = Graph::build(vec![
        manifest_with_policy("flaky", "flaky", "", "on-failure"),
        manifest_with_policy("once", "once", "", "never"),
    ])
    .expect("builds");
    assert!(restart_after_exit(&g, "flaky", 1));
    assert!(!restart_after_exit(&g, "flaky", 0));
    assert!(!restart_after_exit(&g, "once", 1));
    // A component the graph does not know is restarted always.
    assert!(restart_after_exit(&g, "stranger", 0));
}

#[test]
fn casper_channels_are_opened_for_each_casper_capability_in_order() {
    let m = manifest(
        "resolver",
        "resolver",
        "[capability]\nkind = casper\ntarget = system.dns\nrights = lookup\n\
         [capability]\nkind = peer\ninterface = log\nrights = recv\n\
         [capability]\nkind = casper\ntarget = system.pwd\nrights = lookup\n",
    );
    assert_eq!(casper_services(&m), vec!["system.dns".to_owned(), "system.pwd".to_owned()]);
    assert!(casper_services(&manifest("plain", "plain", "")).is_empty());
}

#[test]
fn a_permitted_request_for_a_free_spawnable_name_is_admitted() {
    let g = Graph::build(vec![
        manifest("launcher", "launcher", SPAWN_CAP),
        manifest("input", "input", ""),
    ])
    .expect("builds");
    let spawnable =
        SpawnableSet::build(vec![manifest("editor", "editor", &peer("input", "recv"))]).expect("set");
    let (child, connections) =
        admit_spawn(&g, &spawnable, "launcher", "editor").expect("admitted");
    assert_eq!(child.name, "editor");
    assert_eq!(connections.len(), 1);
    assert_eq!(connections[0].requester, "editor");
    assert_eq!(connections[0].provider, "input");
}

#[test]
fn a_spawn_request_is_refused_for_each_failed_check() {
    let g = Graph::build(vec![
        manifest("launcher", "launcher", SPAWN_CAP),
        manifest("input", "input", ""),
    ])
    .expect("builds");
    let spawnable = SpawnableSet::build(vec![
        manifest("input", "input2", ""),
        manifest("orphan", "orphan", &peer("missing", "recv")),
        manifest("editor", "editor", ""),
    ])
    .expect("set");

    // A component without `kind = spawn` may not ask.
    assert_eq!(
        admit_spawn(&g, &spawnable, "input", "editor").err(),
        Some(SpawnRefusal::NotPermitted { requester: "input".to_owned() })
    );
    assert_eq!(
        admit_spawn(&g, &spawnable, "nobody", "editor").err(),
        Some(SpawnRefusal::NotPermitted { requester: "nobody".to_owned() })
    );
    assert_eq!(
        admit_spawn(&g, &spawnable, "launcher", "ghost").err(),
        Some(SpawnRefusal::UnknownManifest { manifest: "ghost".to_owned() })
    );
    assert_eq!(
        admit_spawn(&g, &spawnable, "launcher", "input").err(),
        Some(SpawnRefusal::NameTaken { name: "input".to_owned() })
    );
    assert_eq!(
        admit_spawn(&g, &spawnable, "launcher", "orphan").err(),
        Some(SpawnRefusal::Unresolved(GraphError::UnresolvedPeer {
            component: "orphan".to_owned(),
            interface: "missing".to_owned(),
        }))
    );
}

#[test]
fn an_admitted_child_joins_the_graph_with_its_connections() {
    let mut g = Graph::build(vec![
        manifest("launcher", "launcher", SPAWN_CAP),
        manifest("input", "input", ""),
    ])
    .expect("builds");
    let spawnable = SpawnableSet::build(vec![
        manifest("editor", "editor", &peer("input", "recv")),
        manifest("clone", "input", ""),
    ])
    .expect("set");
    let (child, connections) =
        admit_spawn(&g, &spawnable, "launcher", "editor").expect("admitted");
    let child = child.clone();
    g.add(child).expect("the admitted child joins");
    assert_eq!(g.components().len(), 3);
    assert_eq!(g.components()[2].name, "editor");
    assert_eq!(g.connections(), connections.as_slice());

    // A child exporting an interface already exported is admitted, but
    // cannot join.
    let (clone, _) = admit_spawn(&g, &spawnable, "launcher", "clone").expect("admitted");
    assert_eq!(
        g.add(clone.clone()),
        Err(GraphError::DuplicateInterface {
            interface: "input".to_owned(),
            first: "input".to_owned(),
            second: "clone".to_owned(),
        })
    );
}

#[test]
fn a_refusal_is_answered_with_its_reason() {
    assert_eq!(
        SpawnRefusal::NotPermitted {
            requester: "input".to_owned()
        }
        .reason(),
        "`input` holds no `spawn` capability"
    );
    assert_eq!(
        SpawnRefusal::Unresolved(GraphError::UnresolvedPeer {
            component: "orphan".to_owned(),
            interface: "missing".to_owned(),
        })
        .reason(),
        "the child's authority does not resolve: `orphan` requests peer interface `missing`, which no component exports"
    );
    assert_eq!(RingClosed.message(), "ring closed: the peer endpoint is gone");
}

#[test]
fn an_exit_restarts_or_stops_by_policy_and_tells_only_live_peers() {
    let g = Graph::build(vec![
        manifest_with_policy("compositor", "display", &peer_recv("input"), "never"),
        manifest_with_policy("input", "input", "", "always"),
    ])
    .expect("builds");
    let mut catalogue = InterfaceCatalogue::new();
    catalogue.register("input", &[("recv", 1)]);

    let mut roster = Roster::new(&g);
    assert_eq!(roster.len(), 2);
    assert_eq!(roster.position("input"), Some(1));
    assert_eq!(roster.name(0), "compositor");

    // `input` restarts: a fresh server end for itself, the client end for
    // the compositor, which is still supervised.
    assert_eq!(
        roster.on_exit(&g, &catalogue, 1, 0),
        Ok(ExitPlan::Restart {
            own: vec![plan("input", Role::Server, 1)],
            notify: vec![(0, plan("input", Role::Client, 1))],
        })
    );
    assert_eq!(roster.len(), 2);

    // The compositor's policy is `never`: it is stopped and leaves.
    assert_eq!(roster.on_exit(&g, &catalogue, 0, 0), Ok(ExitPlan::Stop));
    assert_eq!(roster.len(), 1);
    assert_eq!(roster.position("compositor"), None);

    // Now a restart of `input` has no one left to tell.
    assert_eq!(
        roster.on_exit(&g, &catalogue, 0, 1),
        Ok(ExitPlan::Restart {
            own: vec![plan("input", Role::Server, 1)],
            notify: vec![],
        })
    );

    roster.join("editor".to_owned());
    assert_eq!(roster.position("editor"), Some(1));
    assert!(!roster.is_empty());
}

// ---- bundle messages --------------------------------------------------------------

#[test]
fn a_grant_value_reads_back_and_its_handle_is_checked() {
    let v = grant_value(&"input".to_owned(), Role::Client, 3);
    assert_eq!(grant_parts(&v), Ok(("input".to_owned(), Role::Client, 3)));

    let body = CapBody {
        cap_rights: [7; 16],
        object_rights: 9,
    };
    let good = RawHandle {
        kind: KIND_FD_CAPABILITY,
        body: body.encode(),
    };
    assert_eq!(grant_rights(&good), Ok(body));
    let wrong_kind = RawHandle {
        kind: KIND_FD_CAPABILITY + 1,
        body: body.encode(),
    };
    assert_eq!(
        grant_rights(&wrong_kind),
        Err(WireError::MalformedHandle(
            "a bundle grant must be an fd capability (kind 1), got kind 2".to_owned()
        ))
    );
    let short = RawHandle {
        kind: KIND_FD_CAPABILITY,
        body: vec![0; 3],
    };
    assert_eq!(
        grant_rights(&short),
        Err(WireError::MalformedHandle(
            "a capability body must be 20 bytes, got 3".to_owned()
        ))
    );
    let c = casper_value(&"dns".to_owned(), 0);
    assert_eq!(casper_parts(&c), Ok(("dns".to_owned(), 0)));
}

// ---- pixels -----------------------------------------------------------------------

#[test]
fn a_pixel_reads_back_what_was_set() {
    let mut p = Pixmap::new(3, 2);
    assert_eq!(p.data().len(), 6);
    assert_eq!(p.pixel(2, 1), Color::transparent());
    p.set_pixel(2, 1, Color::rgb(1, 2, 3));
    assert_eq!(p.pixel(2, 1), Color::rgba(1, 2, 3, 255));
    assert_eq!(p.pixel(1, 1), Color::transparent());
    assert_eq!(p.data()[5], Color::rgb(1, 2, 3));
    p.clear(Color::white());
    assert!(p.data().iter().all(|c| *c == Color::white()));
    assert_eq!((p.width(), p.height()), (3, 2));
}

#[test]
fn a_backend_owns_its_pixmap() {
    let b = CpuBackend::new(4, 4);
    assert_eq!(b.pixmap().width(), 4);
    let mut p = b.into_pixmap();
    p.set_pixel(0, 0, Color::black());
    let b = CpuBackend::from_pixmap(p);
    assert_eq!(b.pixmap().pixel(0, 0), Color::black());
    let cache = GlyphCache::new();
    assert!(cache.is_empty());
    assert_eq!(cache.len(), 0);
}

// ---- the executor's table ---------------------------------------------------------

#[test]
fn a_looper_stops_only_when_every_task_has_completed() {
    let mut t = Tasks::new();
    assert_eq!(t.when_idle(), Idle::Stop);
    let a = t.install();
    let b = t.install();
    assert_eq!((a, b), (0, 1));
    assert_eq!(t.live(), 2);
    assert_eq!(t.when_idle(), Idle::Wait);
    t.finish(a);
    assert!(!t.is_present(a));
    assert!(t.is_present(b));
    assert!(!t.is_present(7));
    assert_eq!(t.when_idle(), Idle::Wait);
    t.finish(b);
    assert_eq!(t.live(), 0);
    assert_eq!(t.when_idle(), Idle::Stop);
}

#[test]
fn winding_rules_decide_what_is_inside() {
    assert!(!FillRule::NonZero.contains(0));
    assert!(FillRule::NonZero.contains(-2));
    assert!(FillRule::NonZero.contains(2));
    assert!(!FillRule::EvenOdd.contains(2));
    assert!(!FillRule::EvenOdd.contains(0));
    assert!(FillRule::EvenOdd.contains(-1));
    assert!(FillRule::EvenOdd.contains(3));
}

#[test]
fn a_mask_covers_only_the_inked_cells_that_land_on_the_target() {
    let data = [0u8, 5, 6, 7, 0, 9];
    let mask = CoverageMask {
        x: -1,
        y: 1,
        width: 3,
        height: 2,
        data: &data,
    };
    // The left column falls off the target, the second row below it, and
    // a zero cell leaves no ink.
    assert_eq!(mask_targets(&mask, 2, 2), vec![(0, 1, 5), (1, 1, 6)]);
    assert_eq!(mask_targets(&mask, 4, 4), vec![(0, 1, 5), (1, 1, 6), (1, 2, 9)]);

    let short = CoverageMask {
        x: 0,
        y: 0,
        width: 3,
        height: 2,
        data: &data[..5],
    };
    assert!(mask_targets(&short, 4, 4).is_empty());
}
