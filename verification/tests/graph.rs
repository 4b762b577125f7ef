use abyss::broker::session::{spawn_step, SpawnAction, SpawnStage};
use abyss::broker::graph::{Graph, GraphError};
use abyss::broker::manifest::Manifest;
use abyss::broker::spawnable::{SpawnableError, SpawnableSet};

fn manifest(name: &str, interface: &str, caps: &str) -> Manifest {
    let text = format!(
        "name = {name}\ninterface = {interface}\nversion = 1\n{caps}\
         [jail]\nroot = /\nnetwork = none\nuser = _{name}\n\
         [budget]\nmemory = 1M\nfds = 8\n[restart]\npolicy = always\n",
    );
    Manifest::parse(&text).expect("test manifest parses")
}

fn peer(interface: &str) -> String {
    format!("[capability]\nkind = peer\ninterface = {interface}\nrights = recv\n")
}

#[test]
fn builds_a_two_component_graph() {
    let g = Graph::build(vec![
        manifest("compositor", "display", &peer("input")),
        manifest("input", "input", ""),
    ])
    .expect("the graph builds");

    assert_eq!(g.components().len(), 2);
    assert_eq!(g.exporter("input").map(|m| m.name.as_str()), Some("input"));
    assert_eq!(
        g.component("compositor").map(|m| m.name.as_str()),
        Some("compositor")
    );

    assert_eq!(g.connections().len(), 1);
    let c = &g.connections()[0];
    assert_eq!(c.requester, "compositor");
    assert_eq!(c.provider, "input");
    assert_eq!(c.interface, "input");

    assert_eq!(g.connections_of("input").len(), 1);
    assert_eq!(g.connections_of("compositor").len(), 1);
}

#[test]
fn an_empty_manifest_set_builds() {
    let g = Graph::build(vec![]).expect("the empty graph builds");
    assert!(g.components().is_empty());
    assert!(g.connections().is_empty());
}

#[test]
fn rejects_duplicate_component_names() {
    let err = Graph::build(vec![
        manifest("twin", "alpha", ""),
        manifest("twin", "beta", ""),
    ])
    .unwrap_err();
    assert_eq!(
        err,
        GraphError::DuplicateComponent {
            name: "twin".to_string(),
        },
    );
}

#[test]
fn rejects_duplicate_interfaces() {
    let err = Graph::build(vec![
        manifest("first", "display", ""),
        manifest("second", "display", ""),
    ])
    .unwrap_err();
    assert_eq!(
        err,
        GraphError::DuplicateInterface {
            interface: "display".to_string(),
            first: "first".to_string(),
            second: "second".to_string(),
        },
    );
}

#[test]
fn rejects_an_unresolved_peer() {
    let err = Graph::build(vec![manifest("shell", "shell", &peer("nonesuch"))]).unwrap_err();
    assert_eq!(
        err,
        GraphError::UnresolvedPeer {
            component: "shell".to_string(),
            interface: "nonesuch".to_string(),
        },
    );
}

#[test]
fn rejects_a_self_connection() {
    let err = Graph::build(vec![manifest("echo", "echo", &peer("echo"))]).unwrap_err();
    assert_eq!(
        err,
        GraphError::SelfConnection {
            component: "echo".to_string(),
            interface: "echo".to_string(),
        },
    );
}

#[test]
fn non_peer_capabilities_form_no_connections() {
    let device = "[capability]\nkind = device\nclass = gpu\nrights = mmap\n";
    let g = Graph::build(vec![manifest("compositor", "display", device)])
        .expect("a device-only component builds");
    assert!(g.connections().is_empty());
}

#[test]
fn deduplicates_a_repeated_peer_capability() {
    let caps = format!("{}{}", peer("input"), peer("input"));
    let g = Graph::build(vec![
        manifest("compositor", "display", &caps),
        manifest("input", "input", ""),
    ])
    .expect("the graph builds");
    assert_eq!(g.connections().len(), 1);
}

#[test]
fn add_extends_a_built_graph_with_a_delegated_child() {
    let mut g = Graph::build(vec![manifest("input", "input", "")]).expect("the graph builds");
    assert!(g.connections().is_empty());

    g.add(manifest("compositor", "display", &peer("input")))
        .expect("the child joins the graph");

    assert_eq!(
        g.component("compositor").map(|m| m.name.as_str()),
        Some("compositor"),
    );
    assert_eq!(g.connections().len(), 1);
    let c = &g.connections()[0];
    assert_eq!(c.requester, "compositor");
    assert_eq!(c.provider, "input");
    assert_eq!(g.connections_of("input").len(), 1);
    assert_eq!(g.connections_of("compositor").len(), 1);
}

#[test]
fn add_rejects_a_duplicate_name_and_changes_nothing() {
    let mut g = Graph::build(vec![manifest("twin", "alpha", "")]).expect("the graph builds");
    let err = g.add(manifest("twin", "beta", "")).unwrap_err();
    assert_eq!(
        err,
        GraphError::DuplicateComponent {
            name: "twin".to_string(),
        },
    );
    assert_eq!(
        g.components().len(),
        1,
        "the rejected add left the graph unchanged"
    );
}

#[test]
fn add_rejects_an_unresolved_peer_and_changes_nothing() {
    let mut g = Graph::build(vec![manifest("input", "input", "")]).expect("the graph builds");
    let err = g
        .add(manifest("shell", "shell", &peer("nonesuch")))
        .unwrap_err();
    assert_eq!(
        err,
        GraphError::UnresolvedPeer {
            component: "shell".to_string(),
            interface: "nonesuch".to_string(),
        },
    );
    assert_eq!(
        g.components().len(),
        1,
        "the rejected add left the graph unchanged"
    );
    assert!(g.connections().is_empty());
}

// ---- further cases ----------------------------------------------------------

#[test]
fn a_peer_may_resolve_to_a_later_component_and_rights_are_carried() {
    let g = Graph::build(vec![
        manifest("shell", "shell", &peer("display")),
        manifest("compositor", "display", &peer("input")),
        manifest("input", "input", ""),
    ])
    .expect("the graph builds");
    assert_eq!(g.connections().len(), 2);
    assert_eq!(g.connections()[0].requester, "shell");
    assert_eq!(g.connections()[0].provider, "compositor");
    assert_eq!(g.connections()[0].rights, ["recv"]);
    assert_eq!(g.connections()[1].requester, "compositor");
    assert_eq!(g.connections_of("compositor").len(), 2);
    assert_eq!(g.connections_of("nobody").len(), 0);
    assert!(g.exporter("nothing").is_none());
    assert!(g.component("nobody").is_none());
}

#[test]
fn connections_for_leaves_the_graph_unchanged() {
    let g = Graph::build(vec![manifest("input", "input", "")]).expect("builds");
    let child = manifest("child", "child", &peer("input"));
    let conns = g.connections_for(&child).expect("resolves");
    assert_eq!(conns.len(), 1);
    assert_eq!(conns[0].provider, "input");
    assert_eq!(g.components().len(), 1);
    assert!(g.connections().is_empty());
}

#[test]
fn add_rejects_a_duplicate_interface_naming_both() {
    let mut g = Graph::build(vec![manifest("first", "display", "")]).expect("builds");
    assert_eq!(
        g.add(manifest("second", "display", "")).unwrap_err(),
        GraphError::DuplicateInterface {
            interface: "display".to_string(),
            first: "first".to_string(),
            second: "second".to_string(),
        },
    );
}

fn minimal(name: &str) -> Manifest {
    Manifest::parse(&format!(
        "name = {name}\ninterface = {name}-iface\nversion = 1\n\
         [jail]\nroot = /\nnetwork = none\nuser = _{name}\n\
         [budget]\nmemory = 1M\nfds = 8\n[restart]\npolicy = always\n",
    ))
    .expect("the test manifest parses")
}

#[test]
fn build_indexes_manifests_by_name() {
    let set = SpawnableSet::build(vec![minimal("editor"), minimal("browser")])
        .expect("the spawnable set assembles");
    assert_eq!(set.len(), 2);
    assert_eq!(set.get("editor").map(|m| m.name.as_str()), Some("editor"));
    assert_eq!(set.get("browser").map(|m| m.name.as_str()), Some("browser"));
    assert!(set.get("absent").is_none());
}

#[test]
fn an_empty_set_holds_nothing() {
    let set = SpawnableSet::build(Vec::new()).expect("the empty set assembles");
    assert!(set.is_empty());
    assert!(set.get("anything").is_none());
    assert!(SpawnableSet::new().is_empty());
}

#[test]
fn build_rejects_two_manifests_of_one_name() {
    match SpawnableSet::build(vec![minimal("twin"), minimal("twin")]) {
        Err(SpawnableError::DuplicateManifest { name }) => assert_eq!(name, "twin"),
        other => panic!("expected a duplicate-manifest error, got {other:?}"),
    }
}

#[test]
fn graph_errors_read_as_messages() {
    assert_eq!(
        GraphError::UnresolvedPeer {
            component: "shell".to_owned(),
            interface: "nonesuch".to_owned()
        }
        .message(),
        "`shell` requests peer interface `nonesuch`, which no component exports"
    );
    assert_eq!(
        SpawnableError::DuplicateManifest {
            name: "twin".to_owned()
        }
        .message(),
        "two spawnable manifests are named `twin`"
    );
}

#[test]
fn a_delegated_spawn_walks_its_steps_in_order_and_commits_last() {
    let mut stage = SpawnStage::Wire;
    let mut taken = vec![stage];
    loop {
        match spawn_step(stage, "child", None) {
            SpawnAction::Next(next) => {
                stage = next;
                taken.push(stage);
            }
            SpawnAction::Commit => break,
            SpawnAction::Refuse { .. } => panic!("no step failed"),
        }
    }
    assert_eq!(
        taken,
        vec![
            SpawnStage::Wire,
            SpawnStage::OpenCasper,
            SpawnStage::FindProgram,
            SpawnStage::Spawn,
            SpawnStage::Watch,
            SpawnStage::Join,
        ]
    );
}

#[test]
fn a_failed_spawn_step_is_refused_and_shuts_down_only_a_running_child() {
    assert_eq!(
        spawn_step(SpawnStage::Wire, "kid", Some("no ring")),
        SpawnAction::Refuse {
            reason: "could not wire the child's connections: no ring".to_owned(),
            shutdown: false
        }
    );
    assert_eq!(
        spawn_step(SpawnStage::OpenCasper, "kid", Some("denied")),
        SpawnAction::Refuse {
            reason: "could not open the child's Casper channels: denied".to_owned(),
            shutdown: false
        }
    );
    assert_eq!(
        spawn_step(SpawnStage::FindProgram, "kid", Some("")),
        SpawnAction::Refuse {
            reason: "no program resolved for `kid`".to_owned(),
            shutdown: false
        }
    );
    assert_eq!(
        spawn_step(SpawnStage::Spawn, "kid", Some("exec failed")),
        SpawnAction::Refuse {
            reason: "could not spawn the child: exec failed".to_owned(),
            shutdown: false
        }
    );
    assert_eq!(
        spawn_step(SpawnStage::Watch, "kid", Some("kqueue full")),
        SpawnAction::Refuse {
            reason: "could not watch the child's process descriptor: kqueue full".to_owned(),
            shutdown: true
        }
    );
    assert_eq!(
        spawn_step(SpawnStage::Join, "kid", Some("taken")),
        SpawnAction::Refuse {
            reason: "the child's graph add failed: taken".to_owned(),
            shutdown: true
        }
    );
}
