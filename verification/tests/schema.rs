use abyss::msg::envelope::MessageKind;
use abyss::msg::schema::{
    MethodDecl, MethodTableError, RenameRule, delimit, method_ordinal, rights_classes,
};
use abyss::msg::wire::Method;

/// An interface's message enum, with the method table its declaration
/// implies: ordinals by declaration order, kinds by marker.
enum Op {
    Connect(i64),
    SetTitle { title: String },
    Closed,
    Ping,
}

const OP_KINDS: [MessageKind; 4] = [
    MessageKind::Request,
    MessageKind::Command,
    MessageKind::Event,
    MessageKind::Request,
];

impl Op {
    fn declared_index(&self) -> usize {
        match self {
            Op::Connect(_) => 0,
            Op::SetTitle { .. } => 1,
            Op::Closed => 2,
            Op::Ping => 3,
        }
    }
}

impl Method for Op {
    const RIGHTS_CLASSES: &'static [(&'static str, u32)] = &[];

    fn method_id(&self) -> u16 {
        method_ordinal(self.declared_index()).expect("fewer than 65536 methods")
    }

    fn kind(&self) -> MessageKind {
        OP_KINDS[self.declared_index()]
    }
}

#[test]
fn derived_method_assigns_ordinals_by_declaration_and_kinds_by_attribute() {
    assert_eq!(Op::Connect(0).method_id(), 0);
    assert_eq!(Op::Connect(0).kind(), MessageKind::Request);

    let set_title = Op::SetTitle {
        title: String::new(),
    };
    assert_eq!(set_title.method_id(), 1);
    assert_eq!(set_title.kind(), MessageKind::Command);

    assert_eq!(Op::Closed.method_id(), 2);
    assert_eq!(Op::Closed.kind(), MessageKind::Event);

    assert_eq!(Op::Ping.method_id(), 3);
    assert_eq!(Op::Ping.kind(), MessageKind::Request);
}

fn decl(kind: MessageKind, rights: Option<&str>) -> MethodDecl {
    MethodDecl {
        kind,
        rights: rights.map(str::to_owned),
    }
}

#[test]
fn rights_classes_collect_ordinal_bits_in_first_seen_order() {
    let decls = [
        decl(MessageKind::Request, Some("read")),
        decl(MessageKind::Command, Some("write")),
        decl(MessageKind::Event, None),
        decl(MessageKind::Request, Some("read")),
    ];
    assert_eq!(
        rights_classes(&decls),
        Ok(vec![("read".to_owned(), 0b1001), ("write".to_owned(), 0b0010)])
    );
    assert_eq!(rights_classes(&[]), Ok(vec![]));
}

#[test]
fn a_classed_method_past_ordinal_31_is_rejected() {
    let mut decls: Vec<MethodDecl> = (0..33).map(|_| decl(MessageKind::Event, None)).collect();
    decls[31] = decl(MessageKind::Request, Some("top"));
    assert_eq!(
        rights_classes(&decls),
        Ok(vec![("top".to_owned(), 0x8000_0000)])
    );
    decls[32] = decl(MessageKind::Request, Some("over"));
    assert_eq!(
        rights_classes(&decls),
        Err(MethodTableError::ClassedOrdinalTooLarge { index: 32 })
    );
    assert_eq!(method_ordinal(65535), Some(65535));
    assert_eq!(method_ordinal(65536), None);
}

#[test]
fn rename_rules_delimit_camel_case_and_separators() {
    assert_eq!(delimit("SetTitle", '-'), "set-title");
    assert_eq!(delimit("set_title", '-'), "set-title");
    assert_eq!(delimit("HTTPServer", '_'), "h_t_t_p_server");
    assert_eq!(delimit("_leading", '_'), "leading");
    assert_eq!(delimit("a__b", '_'), "a_b");
    assert_eq!(RenameRule::Kebab.apply("MaxDepth"), "max-depth");
    assert_eq!(RenameRule::Snake.apply("MaxDepth"), "max_depth");
    assert_eq!(RenameRule::Unchanged.apply("MaxDepth"), "MaxDepth");
    assert_eq!(RenameRule::named("kebab-case"), Some(RenameRule::Kebab));
    assert_eq!(RenameRule::named("snake_case"), Some(RenameRule::Snake));
    assert_eq!(RenameRule::named("camelCase"), None);
}
