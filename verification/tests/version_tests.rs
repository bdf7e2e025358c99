use firedbg_rust_debugger::version::parse_rustc_version;

#[test]
fn test_parse_rustc_version() {
    assert_eq!(
        parse_rustc_version("rustc 1.73.0 (cc66ad468 2023-10-03)"),
        "1.73"
    );
    assert_eq!(
        parse_rustc_version("rustc 1.72.1 (xxxxxxxxx 2023-09-19)"),
        "1.72"
    );
    assert_eq!(
        parse_rustc_version("rustc 1.72.0 (xxxxxxxxx 2023-08-24)"),
        "1.72"
    );
    assert_eq!(
        parse_rustc_version("rustc 1.71.1 (xxxxxxxxx 2023-08-03)"),
        "1.71"
    );
    assert_eq!(
        parse_rustc_version("rustc 1.71.0 (xxxxxxxxx 2023-07-13)"),
        "1.71"
    );
    assert_eq!(
        parse_rustc_version("rustc 1.70.0 (xxxxxxxxx 2023-06-01)"),
        "1.70"
    );
}
