use debian_analyzer::debcargo::{
    Cargo, CrateVersion, Debcargo, DebcargoEditor, Element, KeyValue, MultiArch, Priority,
    Table, Value, DEFAULT_PRIORITY,
};

fn text(key: &str, value: &str) -> KeyValue {
    KeyValue {
        key: key.to_string(),
        value: Value::Text(value.to_string()),
    }
}

fn flag(key: &str, value: bool) -> KeyValue {
    KeyValue {
        key: key.to_string(),
        value: Value::Flag(value),
    }
}

fn cargo(name: &str, version: &str) -> Cargo {
    Cargo {
        package: Some(vec![text("name", name), text("version", version)]),
        features: None,
    }
}

#[test]
fn test_debcargo_editor() {
    let mut editor = DebcargoEditor::new();
    editor.main.debcargo.tables.push(Table {
        name: "source".to_string(),
        entries: vec![
            text("standards-version", "4.5.1"),
            text("homepage", "https://example.com"),
            text("vcs_git", "https://example.com"),
            text("vcs_browser", "https://example.com"),
            text("section", "notrust"),
            text("priority", "optional"),
            text("requires_root", "no"),
            text("maintainer", "Jelmer Vernooij <jelmer@debian.org>"),
        ],
    });

    assert_eq!(editor.source().standards_version(), "4.5.1");
    assert_eq!(
        editor.source().vcs_git().as_deref(),
        Some("https://example.com")
    );
    assert_eq!(
        editor.source().vcs_browser().as_deref(),
        Some("https://example.com")
    );
    assert_eq!(editor.source().section(), "notrust");
    assert_eq!(editor.source().priority(), DEFAULT_PRIORITY);
    assert!(!editor.source().rules_requires_root());
    assert_eq!(
        editor.source().maintainer(),
        "Jelmer Vernooij <jelmer@debian.org>"
    );
    assert_eq!(editor.source().name(), None);
    assert_eq!(editor.source().uploaders(), None);
    assert_eq!(
        editor.source().homepage().as_deref(),
        Some("https://example.com")
    );
}

#[test]
fn test_extra_lines_manipulation() {
    let mut editor = DebcargoEditor::new();
    let source = editor.source();

    assert_eq!(source.extra_lines(), Vec::<String>::new());

    source.set_extra_lines(vec![
        "Vcs-Svn: https://svn.example.com/repo".to_string(),
        "X-Custom: value".to_string(),
    ]);
    assert_eq!(
        source.extra_lines(),
        vec![
            "Vcs-Svn: https://svn.example.com/repo".to_string(),
            "X-Custom: value".to_string(),
        ]
    );

    source.add_extra_line("Another-Field: another value".to_string());
    assert_eq!(
        source.extra_lines(),
        vec![
            "Vcs-Svn: https://svn.example.com/repo".to_string(),
            "X-Custom: value".to_string(),
            "Another-Field: another value".to_string(),
        ]
    );

    source.add_extra_line("X-Custom: value".to_string());
    assert_eq!(
        source.extra_lines(),
        vec![
            "Vcs-Svn: https://svn.example.com/repo".to_string(),
            "X-Custom: value".to_string(),
            "Another-Field: another value".to_string(),
        ]
    );

    source.remove_extra_line("X-Custom: value");
    assert_eq!(
        source.extra_lines(),
        vec![
            "Vcs-Svn: https://svn.example.com/repo".to_string(),
            "Another-Field: another value".to_string(),
        ]
    );
}

#[test]
fn test_extra_field_manipulation() {
    let mut editor = DebcargoEditor::new();
    let source = editor.source();

    assert_eq!(source.get_extra_field("Vcs-Svn"), None);

    source.set_extra_field("Vcs-Svn", "https://svn.example.com/repo");
    assert_eq!(
        source.get_extra_field("Vcs-Svn"),
        Some("https://svn.example.com/repo".to_string())
    );

    source.set_extra_field("Vcs-Svn", "https://svn.example.com/new-repo");
    assert_eq!(
        source.get_extra_field("Vcs-Svn"),
        Some("https://svn.example.com/new-repo".to_string())
    );
    assert_eq!(
        source.extra_lines(),
        vec!["Vcs-Svn: https://svn.example.com/new-repo".to_string()]
    );

    source.set_extra_field("X-Custom", "custom value");
    assert_eq!(
        source.get_extra_field("X-Custom"),
        Some("custom value".to_string())
    );
    assert_eq!(
        source.get_extra_field("Vcs-Svn"),
        Some("https://svn.example.com/new-repo".to_string())
    );
    assert_eq!(
        source.extra_lines(),
        vec![
            "Vcs-Svn: https://svn.example.com/new-repo".to_string(),
            "X-Custom: custom value".to_string(),
        ]
    );

    source.remove_extra_field("Vcs-Svn");
    assert_eq!(source.get_extra_field("Vcs-Svn"), None);
    assert_eq!(
        source.get_extra_field("X-Custom"),
        Some("custom value".to_string())
    );
    assert_eq!(
        source.extra_lines(),
        vec!["X-Custom: custom value".to_string()]
    );
}

#[test]
fn test_set_vcs_url() {
    let mut editor = DebcargoEditor::new();
    let source = editor.source();

    source.set_vcs_url("Git", "https://github.com/example/repo.git");
    assert_eq!(
        source.vcs_git(),
        Some("https://github.com/example/repo.git".to_string())
    );

    source.set_vcs_url("Browser", "https://github.com/example/repo");
    assert_eq!(
        source.vcs_browser(),
        Some("https://github.com/example/repo".to_string())
    );

    source.set_vcs_url("Svn", "https://svn.example.com/repo");
    assert_eq!(
        source.get_extra_field("Vcs-Svn"),
        Some("https://svn.example.com/repo".to_string())
    );

    source.set_vcs_url("Bzr", "https://bzr.example.com/repo");
    assert_eq!(
        source.get_extra_field("Vcs-Bzr"),
        Some("https://bzr.example.com/repo".to_string())
    );

    source.set_vcs_url("git", "https://gitlab.com/example/repo.git");
    assert_eq!(
        source.vcs_git(),
        Some("https://gitlab.com/example/repo.git".to_string())
    );

    source.set_vcs_url("browser", "https://gitlab.com/example/repo");
    assert_eq!(
        source.vcs_browser(),
        Some("https://gitlab.com/example/repo".to_string())
    );
}

#[test]
fn test_extra_field_parsing() {
    let mut editor = DebcargoEditor::new();
    let source = editor.source();

    source.set_extra_lines(vec!["Vcs-Svn:    https://svn.example.com/repo".to_string()]);
    assert_eq!(
        source.get_extra_field("Vcs-Svn"),
        Some("https://svn.example.com/repo".to_string())
    );

    source.set_extra_lines(vec!["Vcs-Bzr:https://bzr.example.com/repo".to_string()]);
    assert_eq!(
        source.get_extra_field("Vcs-Bzr"),
        Some("https://bzr.example.com/repo".to_string())
    );
}

#[test]
fn test_get_vcs_url() {
    let mut editor = DebcargoEditor::new();
    let source = editor.source();

    source.set_vcs_git("https://github.com/example/repo.git");
    source.set_vcs_browser("https://github.com/example/repo");
    source.set_extra_field("Vcs-Svn", "https://svn.example.com/repo");
    source.set_extra_field("Vcs-Bzr", "https://bzr.example.com/repo");

    assert_eq!(
        source.get_vcs_url("Git"),
        Some("https://github.com/example/repo.git".to_string())
    );
    assert_eq!(
        source.get_vcs_url("git"),
        Some("https://github.com/example/repo.git".to_string())
    );

    assert_eq!(
        source.get_vcs_url("Browser"),
        Some("https://github.com/example/repo".to_string())
    );
    assert_eq!(
        source.get_vcs_url("browser"),
        Some("https://github.com/example/repo".to_string())
    );

    assert_eq!(
        source.get_vcs_url("Svn"),
        Some("https://svn.example.com/repo".to_string())
    );
    assert_eq!(
        source.get_vcs_url("Bzr"),
        Some("https://bzr.example.com/repo".to_string())
    );

    assert_eq!(source.get_vcs_url("Hg"), None);
}

#[test]
fn svn_goes_to_one_overflow_line_and_leaves_native_fields() {
    let mut editor = DebcargoEditor::new();
    editor.main.cargo = Some(cargo("Example", "0.1.0"));
    let git_before = editor.source().vcs_git();
    let browser_before = editor.source().vcs_browser();
    editor
        .source()
        .set_vcs_url("Svn", "https://svn.example.com/repo");
    assert_eq!(
        editor.source().extra_lines(),
        vec!["Vcs-Svn: https://svn.example.com/repo"]
    );
    assert_eq!(editor.source().vcs_git(), git_before);
    assert_eq!(editor.source().vcs_browser(), browser_before);
    assert_eq!(editor.main.debcargo.tables.len(), 1);
    assert_eq!(editor.main.debcargo.tables[0].name, "source");
    assert_eq!(editor.main.debcargo.tables[0].entries.len(), 1);
    assert_eq!(editor.main.debcargo.tables[0].entries[0].key, "extra_lines");
    // The kind of version control is looked up whatever the case of its letters.
    assert_eq!(
        editor.source().get_vcs_url("SVN"),
        Some("https://svn.example.com/repo".to_string())
    );
    editor.source().set_vcs_url("svn", "https://other.example.com");
    assert_eq!(
        editor.source().extra_lines(),
        vec!["Vcs-svn: https://other.example.com"]
    );
}

#[test]
fn defaults_come_from_the_crate_manifest() {
    let mut editor = DebcargoEditor::from_directory(
        "/tmp/x/debian/debcargo.toml",
        Debcargo {
            values: vec![],
            tables: vec![],
        },
        Cargo {
            package: Some(vec![
                text("name", "Foo_Bar"),
                text("version", "1.2.3"),
                text("homepage", "https://foo.example.com"),
                text("description", "A crate\nwith two lines"),
            ]),
            features: Some(vec!["default".to_string(), "extra".to_string()]),
        },
    );
    assert_eq!(
        editor.debcargo_toml_path.as_deref(),
        Some("/tmp/x/debian/debcargo.toml")
    );
    let source = editor.source();
    assert_eq!(source.name(), Some("rust-foo-bar".to_string()));
    assert_eq!(
        source.homepage(),
        Some("https://foo.example.com".to_string())
    );
    assert_eq!(
        source.vcs_git(),
        Some("https://salsa.debian.org/rust-team/debcargo-conf.git [src/foo_bar]".to_string())
    );
    assert_eq!(
        source.vcs_browser(),
        Some("https://salsa.debian.org/rust-team/debcargo-conf/tree/master/src/foo_bar".to_string())
    );
    assert_eq!(source.standards_version(), "4.5.1");
    assert_eq!(source.section(), "rust");
    assert_eq!(source.priority(), Priority::Optional);
    assert_eq!(
        source.maintainer(),
        "Debian Rust Maintainers <pkg-rust-maintainers@alioth-lists.debian.net>"
    );
    assert!(!source.rules_requires_root());
    assert_eq!(
        source.crate_version(),
        Some(CrateVersion {
            major: 1,
            minor: 2,
            patch: 3
        })
    );
    source.set_source_value("semver_suffix", Value::Flag(true));
    assert_eq!(source.name(), Some("rust-foo-bar-1.2".to_string()));
    assert_eq!(
        editor.global_summary(),
        Some("A crate".to_string())
    );
    assert_eq!(editor.global_description(), None);
    assert_eq!(
        editor.features(),
        Some(vec!["default".to_string(), "extra".to_string()])
    );
}

#[test]
fn setters_write_the_source_table() {
    let mut editor = DebcargoEditor::default();
    let source = editor.source();
    source.set_standards_version("4.6.0");
    source.set_homepage("https://h.example.com");
    source.set_section("net");
    source.set_priority(Priority::Extra);
    source.set_rules_requires_root(true);
    source.set_maintainer("A <a@example.com>");
    source.set_uploaders(vec!["B <b@example.com>".to_string(), "C".to_string()]);
    assert_eq!(source.standards_version(), "4.6.0");
    assert_eq!(source.homepage(), Some("https://h.example.com".to_string()));
    assert_eq!(source.section(), "net");
    assert_eq!(source.priority(), Priority::Extra);
    // The setter writes the text `yes`, which the getter does not read as a boolean.
    assert!(!source.rules_requires_root());
    assert_eq!(source.maintainer(), "A <a@example.com>");
    assert_eq!(
        source.uploaders(),
        Some(vec!["B <b@example.com>".to_string(), "C".to_string()])
    );
    source.set_source_value("requires_root", Value::Flag(true));
    assert!(source.rules_requires_root());
    source.set_source_value("priority", Value::Text("nonsense".to_string()));
    assert_eq!(source.priority(), Priority::Optional);
    source.set_source_value(
        "uploaders",
        Value::List(vec![
            Element::Text("X".to_string()),
            Element::Other,
            Element::Text("Y".to_string()),
        ]),
    );
    assert_eq!(
        source.uploaders(),
        Some(vec!["X".to_string(), "Y".to_string()])
    );
    assert_eq!(editor.main.debcargo.tables.len(), 1);
    assert_eq!(editor.main.toml_section_mut(), 0);
}

#[test]
fn commit_writes_only_what_changed() {
    let editor = DebcargoEditor::open(
        "debian/debcargo.toml",
        Debcargo {
            values: vec![],
            tables: vec![],
        },
    );
    assert!(!editor.commit("a = 1\n", "a = 1\n"));
    assert!(editor.commit("a = 1\n", "a = 2\n"));
    assert!(editor.commit("", "\n"));
    assert!(!editor.commit("", ""));
    assert!(editor.main.cargo.is_none());
}

#[test]
fn binaries_follow_the_tables() {
    let editor = DebcargoEditor::from_directory(
        "debian/debcargo.toml",
        Debcargo {
            values: vec![text("summary", "Foo"), text("description", "Long text")],
            tables: vec![
                Table {
                    name: "source".to_string(),
                    entries: vec![],
                },
                Table {
                    name: "foo".to_string(),
                    entries: vec![text("section", "utils"), text("depends", "bar")],
                },
                Table {
                    name: "other".to_string(),
                    entries: vec![],
                },
                Table {
                    name: "librust-foo-dev".to_string(),
                    entries: vec![
                        text("summary", "The library"),
                        text("description", "For developers"),
                        text("suggests", "foo-doc"),
                        text("recommends", "foo-data"),
                    ],
                },
                Table {
                    name: "foo".to_string(),
                    entries: vec![],
                },
            ],
        },
        cargo("foo", "1.2.3"),
    );
    let binaries = editor.binaries();
    assert_eq!(binaries.len(), 2);
    assert_eq!(binaries[0].name(), "foo");
    assert_eq!(binaries[0].key, "bin");
    assert_eq!(binaries[0].section, "packages.bin");
    assert_eq!(binaries[0].section(), Some("utils".to_string()));
    assert_eq!(binaries[0].depends(), Some("bar".to_string()));
    assert_eq!(binaries[0].recommended(), None);
    assert_eq!(binaries[0].suggests(), None);
    assert_eq!(
        binaries[0].summary(),
        Some("Foo - Rust source code".to_string())
    );
    assert_eq!(
        binaries[0].long_description(),
        Some("Long text".to_string())
    );
    assert_eq!(
        binaries[0].description(),
        Some("Foo - Rust source code\n Long text".to_string())
    );
    assert_eq!(binaries[0].architecture(), Some("any"));
    assert_eq!(binaries[0].multi_arch(), Some(MultiArch::Same));
    assert_eq!(binaries[1].name(), "librust-foo-dev");
    assert_eq!(binaries[1].key, "lib");
    assert_eq!(binaries[1].summary(), Some("The library".to_string()));
    assert_eq!(
        binaries[1].long_description(),
        Some("For developers".to_string())
    );
    assert_eq!(binaries[1].suggests(), Some("foo-doc".to_string()));
    assert_eq!(binaries[1].recommended(), Some("foo-data".to_string()));
    assert_eq!(binaries[1].crate_name, "foo");
    assert_eq!(
        binaries[1].crate_version,
        CrateVersion {
            major: 1,
            minor: 2,
            patch: 3
        }
    );
}

#[test]
fn binaries_without_a_program() {
    let mut editor = DebcargoEditor::from_directory(
        "debian/debcargo.toml",
        Debcargo {
            values: vec![flag("bin", false)],
            tables: vec![
                Table {
                    name: "foo".to_string(),
                    entries: vec![],
                },
                Table {
                    name: "librust-foo-dev".to_string(),
                    entries: vec![],
                },
            ],
        },
        cargo("foo", "1.2.3"),
    );
    let binaries = editor.binaries();
    assert_eq!(binaries.len(), 1);
    assert_eq!(binaries[0].name(), "librust-foo-dev");
    assert_eq!(
        binaries[0].long_description(),
        Some("Source code for Debianized Rust crate \"foo\"".to_string())
    );
    assert_eq!(binaries[0].summary(), None);
    assert_eq!(binaries[0].description(), None);
    editor
        .source()
        .set_source_value("semver_suffix", Value::Flag(true));
    assert_eq!(editor.binaries().len(), 0);
    editor.main.debcargo.tables.push(Table {
        name: "librust-foo1.2-dev".to_string(),
        entries: vec![],
    });
    let binaries = editor.binaries();
    assert_eq!(binaries.len(), 1);
    assert!(binaries[0].semver_suffix);
}

#[test]
fn default_provides_lists_every_ending_once() {
    let mut editor = DebcargoEditor::from_directory(
        "debian/debcargo.toml",
        Debcargo {
            values: vec![flag("bin", false)],
            tables: vec![Table {
                name: "librust-foo-dev".to_string(),
                entries: vec![],
            }],
        },
        Cargo {
            package: Some(vec![text("name", "foo"), text("version", "1.2.3")]),
            features: Some(vec!["extra".to_string(), "default".to_string()]),
        },
    );
    let binaries = editor.binaries();
    assert_eq!(binaries.len(), 1);
    let names = [
        "librust-foo+default-dev",
        "librust-foo+extra-dev",
        "librust-foo-1-dev",
        "librust-foo-1+default-dev",
        "librust-foo-1+extra-dev",
        "librust-foo-1.2-dev",
        "librust-foo-1.2+default-dev",
        "librust-foo-1.2+extra-dev",
        "librust-foo-1.2.3-dev",
        "librust-foo-1.2.3+default-dev",
        "librust-foo-1.2.3+extra-dev",
    ];
    let expected = format!(
        "\n{}",
        names
            .iter()
            .map(|n| format!("{} (= ${{binary:Version}})", n))
            .collect::<Vec<_>>()
            .join(",\n ")
    );
    assert_eq!(binaries[0].default_provides(), Some(expected));
    editor.main.cargo = Some(cargo("foo", "0.0.0"));
    editor
        .source()
        .set_source_value("semver_suffix", Value::Flag(true));
    editor.main.debcargo.tables[0].name = "librust-foo0.0-dev".to_string();
    let binaries = editor.binaries();
    assert_eq!(
        binaries[0].default_provides(),
        Some(
            "\nlibrust-foo-0-dev (= ${binary:Version}),\n librust-foo-0+default-dev (= ${binary:Version}),\n librust-foo-0.0-dev (= ${binary:Version}),\n librust-foo-0.0+default-dev (= ${binary:Version}),\n librust-foo-0.0.0-dev (= ${binary:Version}),\n librust-foo-0.0.0+default-dev (= ${binary:Version})"
                .to_string()
        )
    );
}

#[test]
fn binaries_need_the_crate_name_and_version() {
    let mut editor = DebcargoEditor::new();
    assert!(editor.try_binaries().is_none());
    editor.main.cargo = Some(Cargo {
        package: Some(vec![text("name", "foo"), text("version", "not a version")]),
        features: None,
    });
    assert!(editor.try_binaries().is_none());
    assert_eq!(editor.main.crate_version(), None);
    editor.main.cargo = Some(cargo("foo", "1.0.0"));
    assert_eq!(editor.try_binaries().map(|b| b.len()), Some(0));
}
