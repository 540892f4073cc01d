use debian_analyzer::rules::{
    check_cdbs, discard_pointless_override, discard_pointless_overrides,
    pointless_override_target, Makefile, Rule,
};

fn rule(text: &str) -> Rule {
    let parsed: makefile_lossless::Rule = text.parse().unwrap();
    Rule {
        targets: parsed.targets().collect(),
        prerequisites: parsed.prerequisites().collect(),
        recipes: parsed.recipes().collect(),
    }
}

fn makefile(text: &str) -> Makefile {
    let parsed: makefile_lossless::Makefile = text.parse().unwrap();
    Makefile {
        rules: parsed
            .rules()
            .map(|r| Rule {
                targets: r.targets().collect(),
                prerequisites: r.prerequisites().collect(),
                recipes: r.recipes().collect(),
            })
            .collect(),
    }
}

fn copy(rule: &Rule) -> Rule {
    Rule {
        targets: rule.targets.clone(),
        prerequisites: rule.prerequisites.clone(),
        recipes: rule.recipes.clone(),
    }
}

fn strings(items: &[&str]) -> Vec<String> {
    items.iter().map(|s| s.to_string()).collect()
}

#[test]
fn test_discard_pointless_override() {
    let makefile_text = r#"
override_dh_auto_build:
	dh_auto_build
"#;
    let mut makefile = makefile(makefile_text);
    let rules: Vec<Rule> = makefile.rules.iter().map(copy).collect();
    assert_eq!(rules.len(), 1);

    let removed = discard_pointless_override(&mut makefile, &rules[0]);
    assert!(removed, "Should have removed the pointless override");

    assert_eq!(makefile.rules.len(), 0, "Rule should be removed");
}

#[test]
fn test_discard_pointless_override_with_args() {
    let makefile_text = r#"
override_dh_auto_build:
	dh_auto_build --foo
"#;
    let mut makefile = makefile(makefile_text);
    let rules: Vec<Rule> = makefile.rules.iter().map(copy).collect();
    assert_eq!(rules.len(), 1);

    let removed = discard_pointless_override(&mut makefile, &rules[0]);
    assert!(!removed, "Should NOT remove override with arguments");

    assert_eq!(makefile.rules.len(), 1, "Rule should remain");
}

#[test]
fn test_discard_pointless_override_with_comment() {
    let makefile_text = r#"
override_dh_auto_build:
	# This is a comment
	dh_auto_build
"#;
    let mut makefile = makefile(makefile_text);
    let rules: Vec<Rule> = makefile.rules.iter().map(copy).collect();
    assert_eq!(rules.len(), 1);

    let removed = discard_pointless_override(&mut makefile, &rules[0]);
    assert!(
        removed,
        "Should remove - recipes() doesn't include comments"
    );
}

#[test]
fn test_discard_pointless_override_not_override() {
    let makefile_text = r#"
build:
	dh_auto_build
"#;
    let mut makefile = makefile(makefile_text);
    let rules: Vec<Rule> = makefile.rules.iter().map(copy).collect();
    assert_eq!(rules.len(), 1);

    let removed = discard_pointless_override(&mut makefile, &rules[0]);
    assert!(!removed, "Should NOT remove non-override rules");
}

#[test]
fn test_discard_pointless_overrides() {
    let makefile_text = r#"
override_dh_auto_build:
	dh_auto_build

override_dh_auto_test:
	dh_auto_test

override_dh_auto_install:
	dh_auto_install --foo
"#;
    let mut makefile = makefile(makefile_text);
    let initial_rules = makefile.rules.len();
    assert_eq!(initial_rules, 3);

    let removed = discard_pointless_overrides(&mut makefile);
    assert_eq!(removed, 2, "Should remove 2 pointless overrides");

    assert_eq!(makefile.rules.len(), 1, "Should have 1 rule remaining");

    assert_eq!(makefile.rules[0].targets, vec!["override_dh_auto_install"]);
}

#[test]
fn pointless_only_with_one_override_target() {
    let r = Rule {
        targets: strings(&["override_dh_a", "other"]),
        prerequisites: vec![],
        recipes: strings(&["", "  dh_a\t", "   "]),
    };
    assert_eq!(
        pointless_override_target(&r),
        Some("override_dh_a".to_string())
    );
    let r = Rule {
        targets: strings(&["override_dh_a", "override_dh_b"]),
        prerequisites: vec![],
        recipes: strings(&["dh_a"]),
    };
    assert_eq!(pointless_override_target(&r), None);
    let r = Rule {
        targets: strings(&["override_dh_a"]),
        prerequisites: strings(&["build"]),
        recipes: strings(&["dh_a"]),
    };
    assert_eq!(pointless_override_target(&r), None);
    let r = Rule {
        targets: strings(&["override_dh_a"]),
        prerequisites: vec![],
        recipes: strings(&["dh_a", "dh_a"]),
    };
    assert_eq!(pointless_override_target(&r), None);
    let r = Rule {
        targets: strings(&["override_dh_a"]),
        prerequisites: vec![],
        recipes: vec![],
    };
    assert_eq!(pointless_override_target(&r), None);
    let r = Rule {
        targets: strings(&["override_"]),
        prerequisites: vec![],
        recipes: strings(&["x"]),
    };
    assert_eq!(pointless_override_target(&r), None);
}

#[test]
fn override_leaves_the_phony_targets() {
    let text = ".PHONY: build override_dh_auto_build clean\n\nbuild:\n\tmake\n\noverride_dh_auto_build:\n\tdh_auto_build\n\n.PHONY: override_dh_auto_build\n";
    let mut m = makefile(text);
    let wanted = rule("override_dh_auto_build:\n\tdh_auto_build\n");
    assert!(discard_pointless_override(&mut m, &wanted));
    assert_eq!(m.rules.len(), 2);
    assert_eq!(m.rules[0].targets, vec![".PHONY"]);
    assert_eq!(m.rules[0].prerequisites, vec!["build", "clean"]);
    assert_eq!(m.rules[1].targets, vec!["build"]);
    assert_eq!(m.rules[1].recipes, vec!["make"]);
    // A second try finds nothing to remove.
    assert!(!discard_pointless_override(&mut m, &wanted));
    assert_eq!(m.rules.len(), 2);
}

#[test]
fn rule_that_the_makefile_lacks_is_not_removed() {
    let mut m = makefile("build:\n\tmake\n");
    let wanted = rule("override_dh_auto_build:\n\tdh_auto_build\n");
    assert!(!discard_pointless_override(&mut m, &wanted));
    assert_eq!(m.rules.len(), 1);
    assert_eq!(discard_pointless_overrides(&mut m), 0);
    let mut empty = Makefile { rules: vec![] };
    assert_eq!(discard_pointless_overrides(&mut empty), 0);
}

#[test]
fn test_check_cdbs() {
    assert!(check_cdbs(
        &b"#!/usr/bin/make -f\ninclude /usr/share/cdbs/1/rules/debhelper.mk\n".to_vec()
    ));
    assert!(check_cdbs(
        &b"-include /usr/share/cdbs/1/rules/debhelper.mk".to_vec()
    ));
    assert!(check_cdbs(&b"include /usr/share/cdbs/".to_vec()));
    assert!(!check_cdbs(&b"include /usr/share/cdbs".to_vec()));
    assert!(!check_cdbs(
        &b"--include /usr/share/cdbs/1/rules/debhelper.mk".to_vec()
    ));
    assert!(!check_cdbs(
        &b" include /usr/share/cdbs/1/rules/debhelper.mk".to_vec()
    ));
    assert!(!check_cdbs(&b"#!/usr/bin/make -f\n%:\n\tdh $@\n".to_vec()));
    assert!(!check_cdbs(&b"".to_vec()));
    assert!(!check_cdbs(&b"\n\n-\ninclude /usr/share/cdbs".to_vec()));
    assert!(check_cdbs(&b"\n\n-\ninclude /usr/share/cdbs/x".to_vec()));
}
