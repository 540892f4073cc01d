use debian_analyzer::debcargo::{
    debcargo_binary_name, debnormalize, format_description, semver_pair,
    unmangle_debcargo_version, CrateVersion,
};

#[test]
fn test_debcargo_binary_name() {
    assert_eq!(debcargo_binary_name("foo", ""), "librust-foo-dev");
    assert_eq!(debcargo_binary_name("foo", "-1"), "librust-foo-1-dev");
    assert_eq!(debcargo_binary_name("foo", "-1.2"), "librust-foo-1.2-dev");
    assert_eq!(
        debcargo_binary_name("foo", "-1.2.3"),
        "librust-foo-1.2.3-dev"
    );
}

#[test]
fn test_semver_pair() {
    assert_eq!(
        semver_pair(&CrateVersion {
            major: 1,
            minor: 2,
            patch: 3
        }),
        "1.2"
    );
    assert_eq!(
        semver_pair(&CrateVersion {
            major: 1,
            minor: 2,
            patch: 6
        }),
        "1.2"
    );
}

#[test]
fn test_debnormalize() {
    assert_eq!(debnormalize("foo_bar"), "foo-bar");
    assert_eq!(debnormalize("foo"), "foo");
}

#[test]
fn debnormalize_lowers_case() {
    assert_eq!(debnormalize("Foo_Bar_BAZ"), "foo-bar-baz");
}

#[test]
fn semver_pair_writes_large_numbers() {
    assert_eq!(
        semver_pair(&CrateVersion {
            major: 0,
            minor: 18446744073709551615,
            patch: 0
        }),
        "0.18446744073709551615"
    );
    assert_eq!(
        semver_pair(&CrateVersion {
            major: 10,
            minor: 100,
            patch: 0
        }),
        "10.100"
    );
}

#[test]
fn unmangle_turns_tildes_into_hyphens() {
    assert_eq!(unmangle_debcargo_version("1.0.0~beta1"), "1.0.0-beta1");
    assert_eq!(unmangle_debcargo_version("1.0.0"), "1.0.0");
    assert_eq!(unmangle_debcargo_version("1~a~b"), "1-a-b");
}

#[test]
fn descriptions_are_written_as_control_files_write_them() {
    assert_eq!(
        format_description(
            "A great package",
            "This package does amazing things.\nIt is very useful."
        ),
        "A great package\n This package does amazing things.\n It is very useful."
    );
    assert_eq!(
        format_description("Summary", "First paragraph.\n\nSecond paragraph."),
        "Summary\n First paragraph.\n .\n Second paragraph."
    );
    assert_eq!(format_description("Summary", ""), "Summary");
    assert_eq!(format_description("", "x\n"), "\n x");
    for long in [
        "",
        "\n",
        "a",
        "a\n",
        "a\r\n",
        "a\r",
        "a\r\nb\r",
        "\r\n",
        "\r",
        "a\n\n",
        "a\n \t \nb",
        " a \n\u{a0}\n.\n",
        "\n\n\n",
        "a\rb\n\r\r\n",
    ] {
        for summary in ["S", "", "two\nlines"] {
            assert_eq!(
                format_description(summary, long),
                debian_control::fields::format_description(summary, long),
                "{:?} under {:?}",
                long,
                summary
            );
        }
    }
}
