use abyss::broker::manifest::{
    CapabilityKind, Manifest, ManifestError, Network, RestartPolicy, parse_size,
};

const EXAMPLE: &str = "\
# the compositor's manifest
name      = compositor
interface = display
version   = 1

[capability]
kind   = device
class  = gpu
rights = mmap, ioctl

[capability]
kind      = peer
interface = input
rights    = recv

[jail]
root    = /
network = none
user    = _compositor

[budget]
memory = 96M
fds    = 64

[restart]
policy = always
";

fn size(text: &str) -> Option<u64> {
    let chars: Vec<char> = text.chars().collect();
    parse_size(&chars)
}

#[test]
fn parses_the_example_manifest() {
    let m = Manifest::parse(EXAMPLE).expect("the example manifest parses");
    assert_eq!(m.name, "compositor");
    assert_eq!(m.interface, "display");
    assert_eq!(m.version, 1);

    assert_eq!(m.capabilities.len(), 2);
    assert_eq!(m.capabilities[0].kind, CapabilityKind::Device);
    assert_eq!(m.capabilities[0].target, "gpu");
    assert_eq!(m.capabilities[0].rights, ["mmap", "ioctl"]);
    assert_eq!(m.capabilities[1].kind, CapabilityKind::Peer);
    assert_eq!(m.capabilities[1].target, "input");
    assert_eq!(m.capabilities[1].rights, ["recv"]);

    assert_eq!(m.jail.root, "/");
    assert_eq!(m.jail.network, Network::Isolated);
    assert_eq!(m.jail.user, "_compositor");

    assert_eq!(m.budget.memory, 96 * 1024 * 1024);
    assert_eq!(m.budget.fds, 64);
    assert_eq!(m.budget.cpu, None);

    assert_eq!(m.restart, RestartPolicy::Always);
}

#[test]
fn parses_a_minimal_manifest() {
    let m = Manifest::parse(
        "name = x\ninterface = y\nversion = 2\n\
         [jail]\nroot = /\nnetwork = host\nuser = _x\n\
         [budget]\nmemory = 4096\nfds = 8\ncpu = 25\n\
         [restart]\npolicy = never\n",
    )
    .expect("minimal manifest parses");
    assert!(m.capabilities.is_empty());
    assert_eq!(m.budget.memory, 4096);
    assert_eq!(m.budget.cpu, Some(25));
    assert_eq!(m.jail.network, Network::Host);
    assert_eq!(m.restart, RestartPolicy::Never);
}

#[test]
fn memory_capability_needs_no_target() {
    let m = Manifest::parse(
        "name = x\ninterface = y\nversion = 1\n\
         [capability]\nkind = memory\nrights = mmap\n\
         [jail]\nroot = /\nnetwork = none\nuser = _x\n\
         [budget]\nmemory = 1M\nfds = 4\n\
         [restart]\npolicy = on-failure\n",
    )
    .expect("memory capability parses without a target");
    assert_eq!(m.capabilities[0].kind, CapabilityKind::Memory);
    assert_eq!(m.capabilities[0].target, "");
}

#[test]
fn comments_and_blank_lines_are_ignored() {
    let m = Manifest::parse(
        "\n  # a comment\nname = x  # trailing comment\n\n\
         interface = y\nversion = 0\n\
         [jail]\nroot = /\nnetwork = none\nuser = _x\n\
         [budget]\nmemory = 0\nfds = 0\n\
         [restart]\npolicy = always\n",
    )
    .expect("comments and blank lines parse");
    assert_eq!(m.name, "x");
}

#[test]
fn rejects_a_garbage_line() {
    assert_eq!(
        Manifest::parse("name = x\nthis is not valid\n"),
        Err(ManifestError::Syntax { line: 2 }),
    );
}

#[test]
fn rejects_an_unknown_section() {
    assert_eq!(
        Manifest::parse("name = x\n[mystery]\n"),
        Err(ManifestError::UnknownSection {
            line: 2,
            name: "mystery".to_string(),
        }),
    );
}

#[test]
fn rejects_a_repeated_section() {
    assert_eq!(
        Manifest::parse("[jail]\nroot = /\n[jail]\n"),
        Err(ManifestError::DuplicateSection {
            line: 3,
            name: "jail",
        }),
    );
}

#[test]
fn rejects_an_unknown_key() {
    assert_eq!(
        Manifest::parse("name = x\ncolour = blue\n"),
        Err(ManifestError::UnknownKey {
            line: 2,
            section: "identity",
            key: "colour".to_string(),
        }),
    );
}

#[test]
fn rejects_a_duplicate_key() {
    assert_eq!(
        Manifest::parse("name = x\nname = y\n"),
        Err(ManifestError::DuplicateKey {
            line: 2,
            key: "name".to_string(),
        }),
    );
}

#[test]
fn rejects_a_bad_enum_value() {
    let err = Manifest::parse(
        "name = x\ninterface = y\nversion = 1\n\
         [jail]\nroot = /\nnetwork = carrier-pigeon\nuser = _x\n",
    );
    assert!(matches!(err, Err(ManifestError::BadValue { line: 6, .. })));
}

#[test]
fn rejects_a_non_numeric_version() {
    assert!(matches!(
        Manifest::parse("version = twelve\n"),
        Err(ManifestError::BadValue { line: 1, .. })
    ));
}

#[test]
fn reports_a_missing_required_field() {
    assert_eq!(
        Manifest::parse(
            "name = x\ninterface = y\nversion = 1\n\
             [jail]\nroot = /\nnetwork = none\nuser = _x\n\
             [budget]\nmemory = 1M\nfds = 4\n",
        ),
        Err(ManifestError::Missing {
            section: "restart",
            field: "policy",
        }),
    );
}

#[test]
fn reports_a_capability_missing_its_kind() {
    assert_eq!(
        Manifest::parse("name = x\n[capability]\nclass = gpu\n"),
        Err(ManifestError::Missing {
            section: "capability",
            field: "kind",
        }),
    );
}

#[test]
fn size_suffixes_are_binary() {
    assert_eq!(size("0"), Some(0));
    assert_eq!(size("512"), Some(512));
    assert_eq!(size("4K"), Some(4 * 1024));
    assert_eq!(size("8m"), Some(8 * 1024 * 1024));
    assert_eq!(size("2G"), Some(2 * 1024 * 1024 * 1024));
    assert_eq!(size(""), None);
    assert_eq!(size("notanumber"), None);
    assert_eq!(size("999999999999G"), None);
}

#[test]
fn two_target_aliases_collide() {
    assert_eq!(
        Manifest::parse("[capability]\nclass = gpu\ninterface = input\n"),
        Err(ManifestError::DuplicateKey {
            line: 3,
            key: "target".to_string(),
        }),
    );
}

// ---- further cases ----------------------------------------------------------

#[test]
fn a_leading_plus_is_a_number_and_a_sign_alone_is_not() {
    assert_eq!(size("+7"), Some(7));
    assert_eq!(size("+"), None);
    assert_eq!(size("-1"), None);
    assert_eq!(size(" 3 k "), Some(3 * 1024));
    assert_eq!(size("18446744073709551615"), Some(u64::MAX));
    assert_eq!(size("18446744073709551616"), None);
}

#[test]
fn crlf_lines_and_a_missing_final_newline_parse() {
    let m = Manifest::parse(
        "name = x\r\ninterface = y\r\nversion = 3\r\n[jail]\r\nroot = /srv\r\n\
         network = none\r\nuser = u\r\n[budget]\r\nmemory = 2G\r\nfds = 1\r\n\
         [restart]\r\npolicy = never",
    )
    .expect("CRLF manifest parses");
    assert_eq!(m.version, 3);
    assert_eq!(m.jail.root, "/srv");
    assert_eq!(m.budget.memory, 2 * 1024 * 1024 * 1024);
}

#[test]
fn an_empty_rights_list_and_stray_commas_leave_only_tokens() {
    let m = Manifest::parse(
        "name = x\ninterface = y\nversion = 1\n\
         [capability]\nkind = settings\nsubtree = /ui\nrights = , read ,, write,\n\
         [jail]\nroot = /\nnetwork = none\nuser = _x\n\
         [budget]\nmemory = 1\nfds = 1\n[restart]\npolicy = always\n",
    )
    .expect("parses");
    assert_eq!(m.capabilities[0].kind, CapabilityKind::Settings);
    assert_eq!(m.capabilities[0].target, "/ui");
    assert_eq!(m.capabilities[0].rights, ["read", "write"]);
}

#[test]
fn a_line_without_a_key_is_a_syntax_error() {
    assert_eq!(
        Manifest::parse("name = x\n = y\n"),
        Err(ManifestError::Syntax { line: 2 }),
    );
    assert_eq!(
        Manifest::parse("[jail\n"),
        Err(ManifestError::Syntax { line: 1 }),
    );
}

#[test]
fn an_empty_text_misses_the_name_first() {
    assert_eq!(
        Manifest::parse(""),
        Err(ManifestError::Missing {
            section: "identity",
            field: "name",
        }),
    );
}

#[test]
fn a_peer_without_a_target_is_missing_it() {
    assert_eq!(
        Manifest::parse("[capability]\nkind = peer\n"),
        Err(ManifestError::Missing {
            section: "capability",
            field: "target",
        }),
    );
}

#[test]
fn a_bad_memory_size_and_a_bad_policy_are_bad_values() {
    assert!(matches!(
        Manifest::parse("[budget]\nmemory = lots\n"),
        Err(ManifestError::BadValue { line: 2, .. })
    ));
    assert!(matches!(
        Manifest::parse("[restart]\npolicy = sometimes\n"),
        Err(ManifestError::BadValue { line: 2, .. })
    ));
    assert!(matches!(
        Manifest::parse("[capability]\nkind = wormhole\n"),
        Err(ManifestError::BadValue { line: 2, .. })
    ));
}

#[test]
fn rejections_read_as_messages_naming_their_line() {
    assert_eq!(
        ManifestError::Syntax { line: 3 }.message(),
        "line 3: expected `key = value` or `[section]`"
    );
    assert_eq!(
        ManifestError::UnknownKey {
            line: 12,
            section: "jail",
            key: "colour".to_owned()
        }
        .message(),
        "line 12: key `colour` is not valid in `[jail]`"
    );
    assert_eq!(
        ManifestError::Missing {
            section: "identity",
            field: "name"
        }
        .message(),
        "missing required key `name` in `[identity]`"
    );
}
