use sail::noop::NoopTableFormat;

#[test]
fn noop_format_is_named_noop() {
    assert_eq!(NoopTableFormat.name(), "noop");
}

#[test]
fn noop_format_refuses_reading() {
    assert_eq!(
        NoopTableFormat.create_provider(),
        Err("noop table format does not support reading")
    );
}
