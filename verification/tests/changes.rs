use debian_analyzer::changes::{change_between, Change};
use debian_analyzer::debhelper::{check_compat_entry, major_number_of, CompatCheck};
use debian_analyzer::relations::{
    ensure_minimum_version, ensure_relation, new_entry_place, raise_relation, same_relation,
    Entry, Relation, Relations, Version, VersionConstraint,
};
use debian_analyzer::rules::{pointless_override_index, Makefile, Rule};
use debian_analyzer::text::trim_exec;

fn floor(name: &str, c: VersionConstraint, v: &str) -> Relation {
    Relation::new(name, Some((c, Version::parse(v).unwrap())))
}

fn entries(items: Vec<Vec<Relation>>) -> Relations {
    Relations {
        entries: items
            .into_iter()
            .map(|e| Entry::new(e).unwrap())
            .collect(),
    }
}

fn names(items: &[&str]) -> Vec<String> {
    items.iter().map(|s| s.to_string()).collect()
}

fn plain(items: &[&str]) -> Relations {
    entries(items.iter().map(|n| vec![Relation::simple(n)]).collect())
}

#[test]
fn change_between_equal_lists() {
    assert_eq!(change_between(&plain(&[]), &plain(&[])), Change::Unchanged);
    assert_eq!(
        change_between(&plain(&["a", "b"]), &plain(&["a", "b"])),
        Change::Unchanged
    );
}

#[test]
fn change_between_finds_the_new_entry() {
    assert_eq!(
        change_between(&plain(&[]), &plain(&["a"])),
        Change::Inserted { at: 0 }
    );
    assert_eq!(
        change_between(&plain(&["a", "c"]), &plain(&["a", "b", "c"])),
        Change::Inserted { at: 1 }
    );
    assert_eq!(
        change_between(&plain(&["a", "c"]), &plain(&["b", "a", "c"])),
        Change::Inserted { at: 0 }
    );
    assert_eq!(
        change_between(&plain(&["a", "c"]), &plain(&["a", "c", "b"])),
        Change::Inserted { at: 2 }
    );
    assert_eq!(
        change_between(&plain(&["a", "a"]), &plain(&["a", "a", "a"])),
        Change::Inserted { at: 2 }
    );
}

#[test]
fn change_between_finds_the_entry_with_another_content() {
    let before = entries(vec![
        vec![Relation::simple("a")],
        vec![floor("b", VersionConstraint::GreaterThanEqual, "1")],
        vec![Relation::simple("c")],
    ]);
    let after = entries(vec![
        vec![Relation::simple("a")],
        vec![floor("b", VersionConstraint::GreaterThanEqual, "2")],
        vec![Relation::simple("c")],
    ]);
    assert_eq!(change_between(&before, &after), Change::Replaced { at: 1 });
    assert_eq!(
        change_between(&plain(&["a"]), &plain(&["b"])),
        Change::Replaced { at: 0 }
    );
}

#[test]
fn change_between_anything_else() {
    assert_eq!(
        change_between(&plain(&["a", "b"]), &plain(&["b", "a"])),
        Change::Rewritten
    );
    assert_eq!(
        change_between(&plain(&["a", "b"]), &plain(&["a"])),
        Change::Rewritten
    );
    assert_eq!(
        change_between(&plain(&["a"]), &plain(&["a", "b", "c"])),
        Change::Rewritten
    );
    assert_eq!(
        change_between(&plain(&["a", "b"]), &plain(&["a", "x", "c"])),
        Change::Rewritten
    );
    assert_eq!(
        change_between(&plain(&["a", "b", "c"]), &plain(&["x", "b", "y"])),
        Change::Rewritten
    );
}

#[test]
fn change_between_after_a_floor_was_ensured() {
    let before = entries(vec![
        vec![Relation::simple("debhelper-compat")],
        vec![Relation::simple("zlib")],
    ]);
    let mut after = before.clone();
    let minimum = Version::parse("11").unwrap();
    assert!(ensure_minimum_version(&mut after, "debhelper", &minimum));
    match change_between(&before, &after) {
        Change::Inserted { at } => {
            assert_eq!(after.entries[at].to_string(), "debhelper (>= 11)");
            let mut again = before.clone();
            again.entries.insert(at, after.entries[at].clone());
            assert_eq!(again.to_string(), after.to_string());
        }
        other => panic!("{:?}", other),
    }
    let raised = after.clone();
    let higher = Version::parse("12").unwrap();
    assert!(ensure_minimum_version(&mut after, "debhelper", &higher));
    match change_between(&raised, &after) {
        Change::Replaced { at } => {
            assert_eq!(after.entries[at].to_string(), "debhelper (>= 12)")
        }
        other => panic!("{:?}", other),
    }
    let kept = after.clone();
    assert!(!ensure_minimum_version(&mut after, "debhelper", &higher));
    assert_eq!(change_between(&kept, &after), Change::Unchanged);
}

#[test]
fn change_between_after_a_relation_was_ensured() {
    let before = plain(&["a", "b"]);
    let mut after = before.clone();
    assert!(ensure_relation(
        &mut after,
        Entry::from_relation(Relation::simple("c"))
    ));
    assert_eq!(change_between(&before, &after), Change::Inserted { at: 2 });
}

#[test]
fn ensuring_a_floor_twice_changes_nothing_more() {
    for text in ["1", "11", "1:2.0-1", "13.11.4~bpo1"] {
        let minimum = Version::parse(text).unwrap();
        for start in [
            plain(&[]),
            plain(&["debhelper"]),
            plain(&["a", "debhelper", "z"]),
            entries(vec![vec![floor("debhelper", VersionConstraint::Equal, "9")]]),
            entries(vec![vec![
                Relation::simple("x"),
                floor("debhelper", VersionConstraint::GreaterThan, "20"),
            ]]),
        ] {
            let mut list = start.clone();
            ensure_minimum_version(&mut list, "debhelper", &minimum);
            let once = list.to_string();
            assert!(!ensure_minimum_version(&mut list, "debhelper", &minimum));
            assert_eq!(list.to_string(), once);
        }
    }
}

#[test]
fn raise_relation_by_order() {
    let minimum = Version::parse("11").unwrap();
    let low = floor("debhelper", VersionConstraint::GreaterThanEqual, "9");
    let raised = raise_relation(&low, &minimum, -1).unwrap();
    assert!(same_relation(
        &raised,
        &floor("debhelper", VersionConstraint::GreaterThanEqual, "11")
    ));
    assert!(raise_relation(&low, &minimum, 0).is_none());
    assert!(raise_relation(&low, &minimum, 1).is_none());
    let strict = floor("debhelper", VersionConstraint::GreaterThan, "9");
    assert!(same_relation(
        &raise_relation(&strict, &minimum, -1).unwrap(),
        &floor("debhelper", VersionConstraint::GreaterThan, "11")
    ));
    for c in [
        VersionConstraint::Equal,
        VersionConstraint::LessThan,
        VersionConstraint::LessThanEqual,
    ] {
        assert!(same_relation(
            &raise_relation(&floor("debhelper", c, "9"), &minimum, -1).unwrap(),
            &floor("debhelper", VersionConstraint::GreaterThanEqual, "11")
        ));
        assert!(raise_relation(&floor("debhelper", c, "9"), &minimum, 0).is_none());
    }
    for order in [-1, 0, 1] {
        assert!(same_relation(
            &raise_relation(&Relation::simple("debhelper"), &minimum, order).unwrap(),
            &floor("debhelper", VersionConstraint::GreaterThanEqual, "11")
        ));
    }
}

#[test]
fn new_entry_place_is_the_first_difference() {
    assert_eq!(new_entry_place(&names(&[]), &names(&["x"])), 0);
    assert_eq!(new_entry_place(&names(&["a", "c"]), &names(&["a", "b", "c"])), 1);
    assert_eq!(new_entry_place(&names(&["a", "c"]), &names(&["b", "a", "c"])), 0);
    assert_eq!(new_entry_place(&names(&["a", "c"]), &names(&["a", "c", "b"])), 2);
    assert_eq!(new_entry_place(&names(&["a", "c"]), &names(&["a", "c"])), 2);
    assert_eq!(new_entry_place(&names(&["a", "c"]), &names(&["a"])), 1);
    assert_eq!(new_entry_place(&names(&["a", "c"]), &names(&[])), 0);
}

#[test]
fn check_compat_entry_by_order() {
    let pinned = Entry::from_relation(floor("debhelper-compat", VersionConstraint::Equal, "12"));
    assert!(matches!(check_compat_entry(&pinned, 1), CompatCheck::Satisfied));
    assert!(matches!(check_compat_entry(&pinned, 0), CompatCheck::Satisfied));
    assert!(matches!(check_compat_entry(&pinned, -1), CompatCheck::Open));
    let bare = Entry::from_relation(Relation::simple("debhelper-compat"));
    for order in [-1, 0, 1] {
        assert!(matches!(
            check_compat_entry(&bare, order),
            CompatCheck::WithoutVersion
        ));
    }
    let floor_only = Entry::from_relation(floor(
        "debhelper-compat",
        VersionConstraint::GreaterThanEqual,
        "12",
    ));
    let choice = Entry::new(vec![
        floor("debhelper-compat", VersionConstraint::Equal, "12"),
        Relation::simple("debhelper"),
    ])
    .unwrap();
    for order in [-1, 0, 1] {
        assert!(matches!(
            check_compat_entry(&floor_only, order),
            CompatCheck::Complex
        ));
        assert!(matches!(check_compat_entry(&choice, order), CompatCheck::Complex));
    }
}

fn one_rule(target: &str, prerequisites: &[&str], recipes: &[&str]) -> Rule {
    Rule {
        targets: names(&[target]),
        prerequisites: names(prerequisites),
        recipes: names(recipes),
    }
}

#[test]
fn pointless_override_index_is_that_of_the_first_rule_with_the_targets() {
    let makefile = Makefile {
        rules: vec![
            one_rule("%", &[], &["dh $@"]),
            one_rule("override_dh_auto_build", &[], &["dh_auto_build"]),
            one_rule("override_dh_auto_test", &[], &["dh_auto_test --foo"]),
            one_rule("override_dh_auto_build", &[], &["make"]),
        ],
    };
    assert_eq!(
        pointless_override_index(
            &makefile,
            &one_rule("override_dh_auto_build", &[], &["dh_auto_build"])
        ),
        Some(1)
    );
    assert_eq!(
        pointless_override_index(
            &makefile,
            &one_rule("override_dh_auto_test", &[], &["dh_auto_test --foo"])
        ),
        None
    );
    assert_eq!(
        pointless_override_index(
            &makefile,
            &one_rule("override_dh_clean", &[], &["dh_clean"])
        ),
        None
    );
    assert_eq!(
        pointless_override_index(&makefile, &one_rule("%", &[], &["dh $@"])),
        None
    );
}

fn white_space(c: char) -> bool {
    matches!(
        c as u32,
        0x09..=0x0D
            | 0x20
            | 0x85
            | 0xA0
            | 0x1680
            | 0x2000..=0x200A
            | 0x2028
            | 0x2029
            | 0x202F
            | 0x205F
            | 0x3000
    )
}

#[test]
fn trim_takes_off_the_white_space_characters_and_no_others() {
    for n in 0..=0x10FFFFu32 {
        let Some(c) = char::from_u32(n) else {
            continue;
        };
        assert_eq!(trim_exec(&vec![c]).is_empty(), white_space(c), "U+{:04X}", n);
        assert_eq!(c.is_whitespace(), white_space(c), "U+{:04X}", n);
    }
    assert_eq!(
        trim_exec(&"\u{2003}\ta b\u{a0}\n".chars().collect()),
        vec!['a', ' ', 'b']
    );
}

#[test]
fn major_number_of_an_upstream_version() {
    assert_eq!(major_number_of("13.11.4"), Some(13));
    assert_eq!(major_number_of("13"), Some(13));
    assert_eq!(major_number_of("9.20160814~bpo8+1"), Some(9));
    assert_eq!(major_number_of("255.0"), Some(255));
    assert_eq!(major_number_of("256.0"), None);
    assert_eq!(major_number_of("0"), Some(0));
    assert_eq!(major_number_of(""), None);
    assert_eq!(major_number_of(".5"), None);
    assert_eq!(major_number_of("13~rc1"), None);
    assert_eq!(major_number_of("a.1"), None);
    assert_eq!(major_number_of("+13.1"), Some(13));
    assert_eq!(major_number_of("-1.1"), None);
}
