use rusty_links::RustyLinks;

#[test]
fn test_first_contains_plug_version() {
    let output = RustyLinks {}.version();
    assert!(output.contains("0.1.0"));
}

#[test]
fn driver_name_is_the_plugin_driver() {
    assert_eq!(RustyLinks {}.driver_name(), "rusty-links-driver");
}
