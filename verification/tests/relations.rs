use debian_analyzer::relations::{
    contains, ensure_minimum_version, ensure_relation, find, same_relation, Entry,
    Relation, Relations, Version, VersionConstraint,
};

fn version(text: &str) -> Version {
    Version::parse(text).unwrap()
}

fn rel(name: &str, c: VersionConstraint, v: &str) -> Relation {
    Relation::new(name, Some((c, version(v))))
}

fn list(entries: Vec<Vec<Relation>>) -> Relations {
    Relations {
        entries: entries
            .into_iter()
            .map(|e| Entry::new(e).unwrap())
            .collect(),
    }
}

#[test]
fn version_parse_and_order() {
    assert!(Version::parse("1.0-1").is_some());
    assert!(Version::parse("2:1.0~rc1+dfsg-1ubuntu2").is_some());
    assert!(Version::parse("").is_none());
    assert!(Version::parse("1.0 1").is_none());
    assert!(Version::parse("é").is_none());
    assert_eq!(version("10").order(&version("9")), 1);
    assert_eq!(version("9").order(&version("10")), -1);
    assert_eq!(version("1.0").order(&version("1.0")), 0);
    assert_eq!(version("1.0~rc1").order(&version("1.0")), -1);
    assert_eq!(version("1:0.1").order(&version("9")), 1);
    assert_eq!(version("1.0-1").order(&version("1.0-2")), -1);
    assert_eq!(version("1.0").order(&version("1.0-0")), 0);
    assert_eq!(version("11.1").as_str(), "11.1");
    assert_eq!(version("11.1").to_string(), "11.1");
    assert_eq!(version("2:1.0~rc1+dfsg-1ubuntu2").upstream_version(), "1.0~rc1+dfsg");
    assert_eq!(version("1.2-3-4").upstream_version(), "1.2-3");
}

#[test]
fn entries_are_never_empty() {
    assert!(Entry::new(vec![]).is_none());
    let e = Entry::new(vec![Relation::simple("a"), Relation::simple("b")]).unwrap();
    assert_eq!(e.len(), 2);
    assert_eq!(e.get(1).name, "b");
    assert_eq!(e.first().name, "a");
    assert_eq!(e.relations().len(), 2);
    assert_eq!(Entry::from_relation(Relation::simple("x")).len(), 1);
    let f = e.with_relation(0, rel("c", VersionConstraint::Equal, "1"));
    assert_eq!(f.to_string(), "c (= 1) | b");
    assert_eq!(e.to_string(), "a | b");
    assert!(e.same_as(&e.clone()));
    assert!(!e.same_as(&f));
}

#[test]
fn text_of_relations() {
    let l = list(vec![
        vec![
            rel("a", VersionConstraint::LessThan, "1"),
            rel("b", VersionConstraint::LessThanEqual, "2"),
        ],
        vec![rel("c", VersionConstraint::Equal, "3")],
        vec![rel("d", VersionConstraint::GreaterThan, "4")],
        vec![rel("e", VersionConstraint::GreaterThanEqual, "5")],
        vec![Relation::simple("f")],
    ]);
    assert_eq!(
        l.to_string(),
        "a (<< 1) | b (<= 2), c (= 3), d (>> 4), e (>= 5), f"
    );
    assert_eq!(Relations::new().to_string(), "");
}

#[test]
fn contains_looks_at_every_alternative() {
    let l = list(vec![
        vec![Relation::simple("a"), Relation::simple("b")],
        vec![Relation::simple("c")],
    ]);
    assert!(contains(&l, "a"));
    assert!(contains(&l, "b"));
    assert!(contains(&l, "c"));
    assert!(!contains(&l, "d"));
    assert!(!contains(&l, "A"));
    assert!(!contains(&Relations::new(), "a"));
    assert_eq!(find(&l, "b"), Some((0, 1)));
    assert_eq!(find(&l, "c"), Some((1, 0)));
    assert_eq!(find(&l, "z"), None);
}

#[test]
fn ensure_relation_appends_unless_the_entry_is_there() {
    let mut l = list(vec![vec![Relation::simple("libc6")]]);
    assert!(ensure_relation(
        &mut l,
        Entry::from_relation(Relation::simple("libssl-dev"))
    ));
    assert_eq!(l.to_string(), "libc6, libssl-dev");
    assert!(!ensure_relation(
        &mut l,
        Entry::from_relation(Relation::simple("libssl-dev"))
    ));
    assert_eq!(l.to_string(), "libc6, libssl-dev");
    // An alternative of a group is no entry of its own.
    let mut l = list(vec![vec![Relation::simple("a"), Relation::simple("b")]]);
    assert!(ensure_relation(
        &mut l,
        Entry::from_relation(Relation::simple("a"))
    ));
    assert_eq!(l.to_string(), "a | b, a");
    // A different constraint is a different entry.
    assert!(ensure_relation(
        &mut l,
        Entry::from_relation(rel("a", VersionConstraint::GreaterThanEqual, "1"))
    ));
    assert_eq!(l.to_string(), "a | b, a, a (>= 1)");
    // New entries go last, whatever their name.
    assert!(ensure_relation(
        &mut l,
        Entry::from_relation(Relation::simple("0first"))
    ));
    assert_eq!(l.to_string(), "a | b, a, a (>= 1), 0first");
}

#[test]
fn ensure_minimum_version_adds_missing_name() {
    let mut l = list(vec![vec![Relation::simple("python3")]]);
    assert!(ensure_minimum_version(&mut l, "debhelper", &version("12")));
    assert_eq!(l.entries.len(), 2);
    assert!(l.to_string().contains("debhelper (>= 12)"));
    assert!(l.to_string().contains("python3"));
    let mut l = Relations::new();
    assert!(ensure_minimum_version(&mut l, "debhelper", &version("12")));
    assert_eq!(l.to_string(), "debhelper (>= 12)");
}

#[test]
fn ensure_minimum_version_puts_new_entry_where_dependencies_go() {
    let mut l = list(vec![vec![rel(
        "debhelper-compat",
        VersionConstraint::Equal,
        "10",
    )]]);
    assert!(ensure_minimum_version(&mut l, "debhelper", &version("11")));
    assert_eq!(l.to_string(), "debhelper (>= 11), debhelper-compat (= 10)");
    let mut l = list(vec![
        vec![Relation::simple("a")],
        vec![Relation::simple("c")],
    ]);
    assert!(ensure_minimum_version(&mut l, "b", &version("1")));
    assert_eq!(l.to_string(), "a, b (>= 1), c");
    let mut l = list(vec![
        vec![Relation::simple("c")],
        vec![Relation::simple("a")],
    ]);
    assert!(ensure_minimum_version(&mut l, "b", &version("1")));
    assert_eq!(l.to_string(), "c, a, b (>= 1)");
}

#[test]
fn ensure_minimum_version_leaves_high_enough_versions() {
    let mut l = list(vec![vec![rel(
        "debhelper",
        VersionConstraint::GreaterThanEqual,
        "10",
    )]]);
    assert!(!ensure_minimum_version(&mut l, "debhelper", &version("10")));
    assert!(!ensure_minimum_version(&mut l, "debhelper", &version("9")));
    assert!(!ensure_minimum_version(&mut l, "debhelper", &version("9.20160114~")));
    assert_eq!(l.to_string(), "debhelper (>= 10)");
    let mut l = list(vec![vec![rel("x", VersionConstraint::LessThan, "10")]]);
    assert!(!ensure_minimum_version(&mut l, "x", &version("9")));
    assert_eq!(l.to_string(), "x (<< 10)");
}

#[test]
fn ensure_minimum_version_raises_in_place() {
    let mut l = list(vec![
        vec![Relation::simple("z")],
        vec![
            Relation::simple("alt"),
            rel("debhelper", VersionConstraint::GreaterThan, "9"),
        ],
        vec![Relation::simple("a")],
        vec![rel("debhelper", VersionConstraint::GreaterThanEqual, "1")],
    ]);
    assert!(ensure_minimum_version(&mut l, "debhelper", &version("11")));
    assert_eq!(
        l.to_string(),
        "z, alt | debhelper (>> 11), a, debhelper (>= 1)"
    );
    assert!(!ensure_minimum_version(&mut l, "debhelper", &version("11")));
    let mut l = list(vec![vec![Relation::simple("debhelper")]]);
    assert!(ensure_minimum_version(&mut l, "debhelper", &version("11")));
    assert_eq!(l.to_string(), "debhelper (>= 11)");
    let mut l = list(vec![vec![rel("debhelper", VersionConstraint::Equal, "9")]]);
    assert!(ensure_minimum_version(&mut l, "debhelper", &version("11")));
    assert_eq!(l.to_string(), "debhelper (>= 11)");
    let mut l = list(vec![vec![rel("debhelper", VersionConstraint::LessThanEqual, "9")]]);
    assert!(ensure_minimum_version(&mut l, "debhelper", &version("11")));
    assert_eq!(l.to_string(), "debhelper (>= 11)");
}

#[test]
fn same_relation_compares_name_and_constraint() {
    assert!(same_relation(
        &rel("a", VersionConstraint::Equal, "1"),
        &rel("a", VersionConstraint::Equal, "1")
    ));
    assert!(!same_relation(
        &rel("a", VersionConstraint::Equal, "1"),
        &rel("a", VersionConstraint::Equal, "1.0")
    ));
    assert!(!same_relation(
        &rel("a", VersionConstraint::Equal, "1"),
        &rel("a", VersionConstraint::GreaterThanEqual, "1")
    ));
    assert!(!same_relation(
        &rel("a", VersionConstraint::Equal, "1"),
        &Relation::simple("a")
    ));
    assert!(!same_relation(&Relation::simple("b"), &Relation::simple("a")));
    assert!(same_relation(&Relation::simple("a"), &Relation::simple("a")));
}

#[test]
fn new_dependencies_among_unusual_names() {
    let names = ["", "a b", "${misc:Depends}", "@x@", "a,b", "ü", "Z", "(", "dh-x", "0"];
    for wanted in ["zz", "", "a", "${x}", "debhelper", "A", "@y@", "é"] {
        for n in 0..names.len() {
            let mut l = list(names[..n].iter().map(|s| vec![Relation::simple(s)]).collect());
            if contains(&l, wanted) {
                continue;
            }
            assert!(ensure_minimum_version(&mut l, wanted, &version("1")));
            assert_eq!(l.entries.len(), n + 1);
            let got: Vec<String> = l
                .entries
                .iter()
                .map(|e| e.first().name.clone())
                .filter(|s| s != wanted)
                .collect();
            assert_eq!(got, names[..n]);
            assert_eq!(find(&l, wanted).map(|(_, j)| j), Some(0));
        }
    }
}

#[test]
fn version_order_on_many_versions() {
    let texts = [
        "0",
        "1",
        "1.0",
        "1.0~",
        "1.0~~",
        "1.0~rc1",
        "1.0+dfsg",
        "1.0-1",
        "1.0-1~bpo1",
        "1:0",
        "4294967295:1",
        "0:1.0",
        "1.0-0",
        "a",
        "A",
        "1a",
        "1.a-b-c",
        "1.2:3-4",
        "99999999999999999999999999999999",
        "000000000000000000000000000000001",
        "1.0-99999999999999999999",
        "+",
        "~",
        ".",
        "1-",
        "-1",
    ];
    let versions: Vec<Version> = texts.iter().filter_map(|t| Version::parse(t)).collect();
    assert!(versions.len() >= 20);
    for a in &versions {
        assert_eq!(a.order(a), 0);
        for b in &versions {
            assert_eq!(a.order(b), -b.order(a));
            for c in &versions {
                if a.order(b) <= 0 && b.order(c) <= 0 {
                    assert!(a.order(c) <= 0);
                }
            }
        }
    }
    assert!(Version::parse("4294967296:1").is_none());
    assert!(Version::parse("1_0").is_none());
    assert!(Version::parse("١:1").is_none());
}
