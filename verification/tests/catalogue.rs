use abyss::broker::catalogue::{CatalogueError, CatalogueSyntaxError, InterfaceCatalogue};

fn catalogue() -> InterfaceCatalogue {
    let mut catalogue = InterfaceCatalogue::new();
    catalogue.register("settings", &[("read", 0b0011), ("write", 0b1100)]);
    catalogue
}

#[test]
fn resolves_a_token_set_to_the_union_of_class_masks() {
    let catalogue = catalogue();
    assert_eq!(
        catalogue.resolve("settings", &["read".to_owned()]),
        Ok(0b0011)
    );
    assert_eq!(
        catalogue.resolve("settings", &["read".to_owned(), "write".to_owned()]),
        Ok(0b1111),
    );
}

#[test]
fn an_empty_token_set_resolves_to_no_rights() {
    assert_eq!(catalogue().resolve("settings", &[]), Ok(0));
}

#[test]
fn an_unknown_interface_is_rejected() {
    assert_eq!(
        catalogue().resolve("display", &["read".to_owned()]),
        Err(CatalogueError::UnknownInterface("display".to_owned())),
    );
}

#[test]
fn an_unknown_rights_class_is_rejected() {
    assert_eq!(
        catalogue().resolve("settings", &["admin".to_owned()]),
        Err(CatalogueError::UnknownRightsClass {
            interface: "settings".to_owned(),
            class: "admin".to_owned(),
        }),
    );
}

const CATALOGUE: &str = "\
# the system interface catalogue

[interface]
name    = display
present = 0, 1
capture = 3

[interface]
name = input
recv = 0
";

#[test]
fn parse_reads_interfaces_and_their_rights_classes() {
    let catalogue = InterfaceCatalogue::parse(CATALOGUE).expect("the catalogue parses");
    assert_eq!(
        catalogue.resolve("display", &["present".to_owned()]),
        Ok(0b0011)
    );
    assert_eq!(
        catalogue.resolve("display", &["capture".to_owned()]),
        Ok(0b1000)
    );
    assert_eq!(
        catalogue.resolve("display", &["present".to_owned(), "capture".to_owned()]),
        Ok(0b1011),
    );
    assert_eq!(catalogue.resolve("input", &["recv".to_owned()]), Ok(0b0001));
}

#[test]
fn parse_accepts_a_class_that_covers_no_method() {
    let catalogue =
        InterfaceCatalogue::parse("[interface]\nname = void\nnone =\n").expect("parses");
    assert_eq!(catalogue.resolve("void", &["none".to_owned()]), Ok(0));
}

#[test]
fn parse_rejects_a_garbage_line() {
    assert_eq!(
        InterfaceCatalogue::parse("[interface]\nname = x\nnot a key value line\n").err(),
        Some(CatalogueSyntaxError::Syntax { line: 3 }),
    );
}

#[test]
fn parse_rejects_an_unknown_section() {
    assert_eq!(
        InterfaceCatalogue::parse("[component]\nname = x\n").err(),
        Some(CatalogueSyntaxError::UnknownSection { line: 1 }),
    );
}

#[test]
fn parse_rejects_a_class_outside_an_interface() {
    assert_eq!(
        InterfaceCatalogue::parse("recv = 0\n").err(),
        Some(CatalogueSyntaxError::Structure { line: 1 }),
    );
}

#[test]
fn parse_rejects_an_interface_with_no_name() {
    assert_eq!(
        InterfaceCatalogue::parse("[interface]\nrecv = 0\n").err(),
        Some(CatalogueSyntaxError::Structure { line: 1 }),
    );
}

#[test]
fn parse_rejects_a_non_numeric_ordinal() {
    assert_eq!(
        InterfaceCatalogue::parse("[interface]\nname = x\nrecv = 0, two\n").err(),
        Some(CatalogueSyntaxError::BadRights { line: 3 }),
    );
}

#[test]
fn parse_rejects_an_ordinal_past_the_mask_width() {
    assert_eq!(
        InterfaceCatalogue::parse("[interface]\nname = x\nrecv = 32\n").err(),
        Some(CatalogueSyntaxError::BadRights { line: 3 }),
    );
}

#[test]
fn parse_rejects_a_duplicate_interface() {
    assert_eq!(
        InterfaceCatalogue::parse("[interface]\nname = dup\n[interface]\nname = dup\n").err(),
        Some(CatalogueSyntaxError::Duplicate { line: 3 }),
    );
}

#[test]
fn parse_rejects_a_duplicate_rights_class() {
    assert_eq!(
        InterfaceCatalogue::parse("[interface]\nname = x\nrecv = 0\nrecv = 1\n").err(),
        Some(CatalogueSyntaxError::Duplicate { line: 4 }),
    );
}

// ---- further cases ----------------------------------------------------------

#[test]
fn a_re_registration_replaces_the_entry() {
    let mut catalogue = catalogue();
    catalogue.register("settings", &[("read", 0b0100)]);
    assert_eq!(catalogue.resolve("settings", &["read".to_owned()]), Ok(0b0100));
    assert_eq!(
        catalogue.resolve("settings", &["write".to_owned()]),
        Err(CatalogueError::UnknownRightsClass {
            interface: "settings".to_owned(),
            class: "write".to_owned(),
        }),
    );
}

#[test]
fn the_mask_of_a_list_is_the_union_of_its_parts() {
    let catalogue = InterfaceCatalogue::parse(CATALOGUE).expect("the catalogue parses");
    let a = catalogue.resolve("display", &["present".to_owned()]).unwrap();
    let b = catalogue.resolve("display", &["capture".to_owned()]).unwrap();
    let both = catalogue
        .resolve("display", &["present".to_owned(), "capture".to_owned()])
        .unwrap();
    assert_eq!(both, a | b);
    let twice = catalogue
        .resolve("display", &["present".to_owned(), "present".to_owned()])
        .unwrap();
    assert_eq!(twice, a);
}

#[test]
fn ordinal_31_is_the_top_bit_and_a_plus_sign_is_accepted() {
    let catalogue =
        InterfaceCatalogue::parse("[interface]\nname = x\ntop = 31, +0\n").expect("parses");
    assert_eq!(catalogue.resolve("x", &["top".to_owned()]), Ok(0x8000_0001));
}

#[test]
fn a_missing_name_on_the_last_block_is_a_structure_error() {
    assert_eq!(
        InterfaceCatalogue::parse("[interface]\nname = a\n[interface]\nrecv = 1\n").err(),
        Some(CatalogueSyntaxError::Structure { line: 3 }),
    );
    assert_eq!(
        InterfaceCatalogue::parse("[interface]\nname = a\nname = b\n").err(),
        Some(CatalogueSyntaxError::Duplicate { line: 3 }),
    );
    assert_eq!(
        InterfaceCatalogue::parse("[interface\n").err(),
        Some(CatalogueSyntaxError::Syntax { line: 1 }),
    );
}

#[test]
fn catalogue_errors_read_as_messages() {
    assert_eq!(
        CatalogueError::UnknownRightsClass {
            interface: "input".to_owned(),
            class: "recv".to_owned()
        }
        .message(),
        "interface `input` has no rights class `recv`"
    );
    assert_eq!(
        CatalogueSyntaxError::Structure { line: 4 }.message(),
        "line 4: a rights class outside an `[interface]`, or an `[interface]` with no `name`"
    );
}
