use abyss::log::{Level, LevelFilter, enabled, initial_level, level, render, set_level};

#[test]
fn levels_are_ordered_by_severity() {
    assert!(Level::Error < Level::Warn);
    assert!(Level::Warn < Level::Info);
    assert!(Level::Info < Level::Debug);
    assert!(Level::Debug < Level::Trace);
}

#[test]
fn parse_is_case_insensitive_and_total() {
    assert_eq!(Level::parse("INFO"), Some(Level::Info));
    assert_eq!(Level::parse(" debug "), Some(Level::Debug));
    assert_eq!(Level::parse("Trace"), Some(Level::Trace));
    assert_eq!(Level::parse("loud"), None);
    assert_eq!(Level::parse(""), None);
}

#[test]
fn labels_are_the_uppercase_names() {
    assert_eq!(Level::Error.label(), "ERROR");
    assert_eq!(Level::Info.label(), "INFO");
    assert_eq!(Level::Trace.label(), "TRACE");
}

#[test]
fn a_rendered_line_has_the_canonical_shape() {
    let line = render(
        Level::Info,
        "abyss_broker::graph",
        1234,
        &format!("built ({} components)", 3),
    );
    assert_eq!(
        line,
        "[    1.234] INFO  abyss_broker::graph: built (3 components)"
    );

    let err = render(Level::Error, "abyss_broker", 0, "no manifest");
    assert_eq!(err, "[    0.000] ERROR abyss_broker: no manifest");
}

#[test]
fn the_level_filter_and_the_macros() {
    let mut filter = LevelFilter { max: initial_level(None) };
    set_level(&mut filter, Level::Warn);
    assert!(enabled(&filter, Level::Error));
    assert!(enabled(&filter, Level::Warn));
    assert!(!enabled(&filter, Level::Info));
    assert!(!enabled(&filter, Level::Trace));

    set_level(&mut filter, Level::Trace);
    assert_eq!(level(&filter), Level::Trace);
    assert!(enabled(&filter, Level::Trace));
}

#[test]
fn the_initial_level_comes_from_its_configured_name() {
    assert_eq!(initial_level(None), Level::Info);
    assert_eq!(initial_level(Some("WARN")), Level::Warn);
    assert_eq!(initial_level(Some("nonsense")), Level::Info);
}

#[test]
fn long_uptimes_and_short_labels_keep_their_columns() {
    assert_eq!(
        render(Level::Warn, "t", 123_456_789, "m"),
        "[123456.789] WARN  t: m"
    );
    assert_eq!(render(Level::Debug, "t", 5, ""), "[    0.005] DEBUG t: ");
}
