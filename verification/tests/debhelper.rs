use debian_analyzer::control::{Field, PlainBinary, PlainControl, PlainSource};
use debian_analyzer::debhelper::{
    ensure_minimum_debhelper_version, get_debhelper_compat_level,
    get_debhelper_compat_level_from_control, get_sequences, highest_stable_compat_level,
    knows_release,
    lowest_non_deprecated_compat_level, maximum_debhelper_compat_version,
    parse_debhelper_compat, try_maximum_debhelper_compat_version, EnsureDebhelperError,
    ReleaseVersion, SupportedCompatLevels,
};
use debian_analyzer::relations::{Entry, Relation, Relations, Version, VersionConstraint};

fn constraint(c: debian_control::relations::VersionConstraint) -> VersionConstraint {
    match c {
        debian_control::relations::VersionConstraint::LessThan => VersionConstraint::LessThan,
        debian_control::relations::VersionConstraint::LessThanEqual => {
            VersionConstraint::LessThanEqual
        }
        debian_control::relations::VersionConstraint::Equal => VersionConstraint::Equal,
        debian_control::relations::VersionConstraint::GreaterThan => {
            VersionConstraint::GreaterThan
        }
        debian_control::relations::VersionConstraint::GreaterThanEqual => {
            VersionConstraint::GreaterThanEqual
        }
    }
}

fn relations(parsed: debian_control::lossless::relations::Relations) -> Relations {
    let mut entries = Vec::new();
    for entry in parsed.entries() {
        let mut alternatives = Vec::new();
        for r in entry.relations() {
            let version = r
                .version()
                .map(|(c, v)| (constraint(c), Version::parse(&v.to_string()).unwrap()));
            alternatives.push(Relation::new(&r.try_name().unwrap(), version));
        }
        entries.push(Entry::new(alternatives).unwrap());
    }
    Relations { entries }
}

fn control(text: &str) -> PlainControl {
    let parsed = debian_control::Control::read_relaxed(text.as_bytes())
        .unwrap()
        .0;
    let source = parsed.source().map(|s| {
        let mut fields = Vec::new();
        for (name, value) in s.as_deb822().items() {
            if !name.starts_with("Build-Depends") {
                fields.push(Field { name, value });
            }
        }
        PlainSource {
            fields,
            build_depends: s.build_depends().map(relations),
            build_depends_indep: s.build_depends_indep().map(relations),
            build_depends_arch: s.build_depends_arch().map(relations),
        }
    });
    let mut binaries = Vec::new();
    for b in parsed.binaries() {
        let mut fields = Vec::new();
        for (name, value) in b.as_deb822().items() {
            fields.push(Field { name, value });
        }
        binaries.push(PlainBinary { fields });
    }
    PlainControl { source, binaries }
}

fn source(text: &str) -> PlainSource {
    control(text).source.unwrap()
}

fn version(text: &str) -> Version {
    Version::parse(text).unwrap()
}

#[test]
fn test_parse_debhelper_compat() {
    assert_eq!(parse_debhelper_compat("9"), Some(9));
    assert_eq!(parse_debhelper_compat("9 # comment"), Some(9));
    assert_eq!(parse_debhelper_compat("9 # comment # comment"), Some(9));
    assert_eq!(parse_debhelper_compat(""), None);
    assert_eq!(parse_debhelper_compat(" # comment"), None);
}

#[test]
fn parse_debhelper_compat_edges() {
    assert_eq!(parse_debhelper_compat("13\n"), Some(13));
    assert_eq!(parse_debhelper_compat("\t 13 \n#x"), Some(13));
    assert_eq!(parse_debhelper_compat("+7"), Some(7));
    assert_eq!(parse_debhelper_compat("007"), Some(7));
    assert_eq!(parse_debhelper_compat("255"), Some(255));
    assert_eq!(parse_debhelper_compat("256"), None);
    assert_eq!(parse_debhelper_compat("-1"), None);
    assert_eq!(parse_debhelper_compat("1 2"), None);
    assert_eq!(parse_debhelper_compat("12a"), None);
    assert_eq!(parse_debhelper_compat("+"), None);
    assert_eq!(parse_debhelper_compat("#9"), None);
    assert_eq!(parse_debhelper_compat("\u{a0}9\u{2003}"), Some(9));
}

#[test]
fn test_get_debhelper_compat_level_from_control() {
    let text = "Source: foo
Build-Depends: debhelper-compat (= 9)

Package: foo
Architecture: any
";
    assert_eq!(
        get_debhelper_compat_level_from_control(&control(text)),
        Some(9)
    );
}

#[test]
fn test_get_debhelper_compat_level_from_control_x_dh_compat() {
    let text = "Source: foo
X-DH-Compat: 9
Build-Depends: debhelper
";
    assert_eq!(
        get_debhelper_compat_level_from_control(&control(text)),
        Some(9)
    );
}

#[test]
fn marker_field_wins_over_relation() {
    let text = "Source: foo
X-DH-Compat: 12
Build-Depends: debhelper-compat (= 13)
";
    assert_eq!(
        get_debhelper_compat_level_from_control(&control(text)),
        Some(12)
    );
    let text = "Source: foo
x-dh-compat: junk
Build-Depends: debhelper-compat (= 13)
";
    assert_eq!(get_debhelper_compat_level_from_control(&control(text)), None);
}

#[test]
fn compat_level_from_control_without_data() {
    assert_eq!(
        get_debhelper_compat_level_from_control(&PlainControl {
            source: None,
            binaries: vec![]
        }),
        None
    );
    assert_eq!(
        get_debhelper_compat_level_from_control(&control("Source: foo\n")),
        None
    );
    assert_eq!(
        get_debhelper_compat_level_from_control(&control(
            "Source: foo\nBuild-Depends: debhelper-compat\n"
        )),
        None
    );
    assert_eq!(
        get_debhelper_compat_level_from_control(&control(
            "Source: foo\nBuild-Depends: debhelper-compat (= 1:13)\n"
        )),
        None
    );
    assert_eq!(
        get_debhelper_compat_level_from_control(&control(
            "Source: foo\nBuild-Depends: a | debhelper-compat (= 11), debhelper-compat (= 12)\n"
        )),
        Some(11)
    );
}

#[test]
fn compat_file_goes_before_control() {
    let c = control("Source: foo\nBuild-Depends: debhelper-compat (= 13)\n");
    assert_eq!(get_debhelper_compat_level(Some("10\n"), Some(&c)), Some(10));
    assert_eq!(get_debhelper_compat_level(Some("junk"), Some(&c)), Some(13));
    assert_eq!(get_debhelper_compat_level(None, Some(&c)), Some(13));
    assert_eq!(get_debhelper_compat_level(Some("10"), None), Some(10));
    assert_eq!(get_debhelper_compat_level(None, None), None);
}

#[test]
fn compat_levels_of_the_installed_debhelper() {
    let levels = SupportedCompatLevels {
        highest_stable_compat_level: 13,
        lowest_non_deprecated_compat_level: 10,
        lowest_virtual_debhelper_compat_level: 9,
        max_compat_level: 14,
        min_compat_level: 7,
        min_compat_level_not_scheduled_for_removal: 7,
    };
    assert_eq!(lowest_non_deprecated_compat_level(&levels), 10);
    assert_eq!(highest_stable_compat_level(&levels), 13);
    let table = vec![
        ReleaseVersion {
            release: "sid".to_string(),
            version: version("13.24.1"),
        },
        ReleaseVersion {
            release: "bionic".to_string(),
            version: version("1:11.1.6ubuntu1-2"),
        },
        ReleaseVersion {
            release: "odd".to_string(),
            version: version("x13"),
        },
        ReleaseVersion {
            release: "sid".to_string(),
            version: version("9"),
        },
    ];
    assert_eq!(maximum_debhelper_compat_version("sid", &table, &levels), 13);
    assert_eq!(
        maximum_debhelper_compat_version("bionic", &table, &levels),
        11
    );
    assert_eq!(
        maximum_debhelper_compat_version("unknown", &table, &levels),
        10
    );
    assert_eq!(
        try_maximum_debhelper_compat_version("sid", &table, &levels),
        Some(13)
    );
    assert!(knows_release("sid", &table));
    assert!(knows_release("odd", &table));
    assert!(!knows_release("unknown", &table));
    assert_eq!(
        try_maximum_debhelper_compat_version("odd", &table, &levels),
        None
    );
    assert_eq!(
        try_maximum_debhelper_compat_version("unknown", &table, &levels),
        Some(10)
    );
}

#[test]
fn test_already() {
    let mut source = source("Source: foo\nBuild-Depends: debhelper (>= 10)\n");

    assert!(!ensure_minimum_debhelper_version(&mut source, &version("10")).unwrap());
    assert_eq!(
        source.build_depends.as_ref().unwrap().to_string(),
        "debhelper (>= 10)"
    );

    assert!(!ensure_minimum_debhelper_version(&mut source, &version("9")).unwrap());
    assert_eq!(
        source.build_depends.as_ref().unwrap().to_string(),
        "debhelper (>= 10)"
    );
}

#[test]
fn test_already_compat() {
    let mut source = source("Source: foo\nBuild-Depends: debhelper-compat (= 10)\n");

    assert!(!ensure_minimum_debhelper_version(&mut source, &version("10")).unwrap());
    assert_eq!(
        source.build_depends.as_ref().unwrap().to_string(),
        "debhelper-compat (= 10)"
    );

    assert!(!ensure_minimum_debhelper_version(&mut source, &version("9")).unwrap());
    assert_eq!(
        source.build_depends.as_ref().unwrap().to_string(),
        "debhelper-compat (= 10)"
    );
}

#[test]
fn test_bump() {
    let mut source = source("Source: foo\nBuild-Depends: debhelper (>= 10)\n");

    assert!(ensure_minimum_debhelper_version(&mut source, &version("11")).unwrap());
    assert_eq!(
        source.build_depends.as_ref().unwrap().to_string(),
        "debhelper (>= 11)"
    );
}

#[test]
fn test_bump_compat() {
    let mut source = source("Source: foo\nBuild-Depends: debhelper-compat (= 10)\n");

    assert!(ensure_minimum_debhelper_version(&mut source, &version("11")).unwrap());
    assert_eq!(
        source.build_depends.as_ref().unwrap().to_string(),
        "debhelper (>= 11), debhelper-compat (= 10)"
    );

    assert!(ensure_minimum_debhelper_version(&mut source, &version("11.1")).unwrap());
    assert_eq!(
        source.build_depends.as_ref().unwrap().to_string(),
        "debhelper (>= 11.1), debhelper-compat (= 10)"
    );
}

#[test]
fn test_not_set() {
    let mut source = source("Source: foo\n");

    assert!(ensure_minimum_debhelper_version(&mut source, &version("10")).unwrap());
    assert_eq!(
        source.build_depends.as_ref().unwrap().to_string(),
        "debhelper (>= 10)"
    );
}

#[test]
fn test_in_indep() {
    let mut source = source("Source: foo\nBuild-Depends-Indep: debhelper (>= 9)\n");

    let result = ensure_minimum_debhelper_version(&mut source, &version("10"));
    assert!(result.is_err());
    assert_eq!(
        result.unwrap_err(),
        EnsureDebhelperError::DebhelperInWrongField("Build-Depends-Indep".to_string())
    );
}

#[test]
fn debhelper_in_arch_field() {
    let mut s = source(
        "Source: foo\nBuild-Depends-Arch: x | debhelper-compat (= 9)\nBuild-Depends-Indep: debhelper\n",
    );
    assert_eq!(
        ensure_minimum_debhelper_version(&mut s, &version("10")),
        Err(EnsureDebhelperError::DebhelperInWrongField(
            "Build-Depends-Arch".to_string()
        ))
    );
    assert!(s.build_depends.is_none());
}

#[test]
fn complex_compat_rules() {
    let mut s = source("Source: foo\nBuild-Depends: debhelper-compat (= 10) | foo\n");
    assert_eq!(
        ensure_minimum_debhelper_version(&mut s, &version("11")),
        Err(EnsureDebhelperError::ComplexDebhelperCompatRule)
    );
    assert_eq!(
        s.build_depends.as_ref().unwrap().to_string(),
        "debhelper-compat (= 10) | foo"
    );
    let mut s = source("Source: foo\nBuild-Depends: debhelper-compat (>= 10)\n");
    assert_eq!(
        ensure_minimum_debhelper_version(&mut s, &version("9")),
        Err(EnsureDebhelperError::ComplexDebhelperCompatRule)
    );
    let mut s = source("Source: foo\nBuild-Depends: debhelper-compat\n");
    assert_eq!(
        ensure_minimum_debhelper_version(&mut s, &version("9")),
        Err(EnsureDebhelperError::DebhelperCompatWithoutVersion)
    );
    assert_eq!(
        s.build_depends.as_ref().unwrap().to_string(),
        "debhelper-compat"
    );
}

#[test]
fn compat_relation_settles_before_plain_floor() {
    let mut s = source(
        "Source: foo\nBuild-Depends: debhelper (>= 9), debhelper-compat (= 12)\n",
    );
    assert_eq!(
        ensure_minimum_debhelper_version(&mut s, &version("11")),
        Ok(false)
    );
    assert_eq!(
        s.build_depends.as_ref().unwrap().to_string(),
        "debhelper (>= 9), debhelper-compat (= 12)"
    );
}

#[test]
fn error_messages() {
    assert_eq!(
        EnsureDebhelperError::DebhelperInWrongField("Build-Depends-Indep".to_string()).to_string(),
        "debhelper in Build-Depends-Indep"
    );
    assert_eq!(
        EnsureDebhelperError::ComplexDebhelperCompatRule.to_string(),
        "Complex rule for debhelper-compat, aborting"
    );
    assert_eq!(
        EnsureDebhelperError::DebhelperCompatWithoutVersion.to_string(),
        "debhelper-compat without version, aborting"
    );
}

#[test]
fn test_no_sequences() {
    let source = source("Source: foo\nBuild-Depends: debhelper (>= 10)\n");
    let sequences: Vec<String> = get_sequences(&source);
    assert_eq!(sequences, Vec::<String>::new());
}

#[test]
fn test_single_sequence() {
    let source = source("Source: foo\nBuild-Depends: dh-sequence-python3, debhelper (>= 10)\n");
    let sequences: Vec<String> = get_sequences(&source);
    assert_eq!(sequences, vec!["python3"]);
}

#[test]
fn test_multiple_sequences() {
    let source = source(
        "Source: foo\nBuild-Depends: dh-sequence-python3, dh-sequence-nodejs, debhelper (>= 10)\n",
    );
    let sequences: Vec<String> = get_sequences(&source);
    assert_eq!(sequences, vec!["python3", "nodejs"]);
}

#[test]
fn test_no_build_depends() {
    let source = source("Source: foo\n");
    let sequences: Vec<String> = get_sequences(&source);
    assert_eq!(sequences, Vec::<String>::new());
}

#[test]
fn sequences_keep_order_and_duplicates() {
    let source = source(
        "Source: foo\nBuild-Depends: dh-sequence-b | dh-sequence-a, x, dh-sequence-b (>= 1), dh-sequence-\n",
    );
    assert_eq!(get_sequences(&source), vec!["b", "a", "b", ""]);
}

#[test]
fn raising_the_debhelper_floor_twice_is_raising_it_once() {
    for text in [
        "Source: foo\n",
        "Source: foo\nBuild-Depends: debhelper (>= 10)\n",
        "Source: foo\nBuild-Depends: debhelper-compat (= 10)\n",
        "Source: foo\nBuild-Depends: zlib, debhelper | x, debhelper-compat (= 9), a\n",
        "Source: foo\nBuild-Depends: debhelper-compat (= 13), debhelper (>= 9)\n",
        "Source: foo\nBuild-Depends: debhelper (= 9), debhelper (>= 20)\n",
    ] {
        for minimum in ["9", "11", "13", "13.11.4~bpo12+1"] {
            let mut s = source(text);
            let first = ensure_minimum_debhelper_version(&mut s, &version(minimum));
            assert!(first.is_ok());
            let once = s.build_depends.as_ref().map(|r| r.to_string());
            let second = ensure_minimum_debhelper_version(&mut s, &version(minimum));
            assert_eq!(second, Ok(false), "{:?} to {}", text, minimum);
            assert_eq!(s.build_depends.as_ref().map(|r| r.to_string()), once);
        }
    }
    let mut s = source("Source: foo\nBuild-Depends: debhelper-compat\n");
    assert!(ensure_minimum_debhelper_version(&mut s, &version("11")).is_err());
    assert!(ensure_minimum_debhelper_version(&mut s, &version("11")).is_err());
    assert_eq!(
        s.build_depends.as_ref().unwrap().to_string(),
        "debhelper-compat"
    );
}
