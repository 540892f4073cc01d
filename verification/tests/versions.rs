use debian_analyzer::versions::{debianize_upstream_version, matches_release};

fn debianize_by_pattern(version: &str) -> String {
    let mut version = version.to_owned();
    let underscore_count = version.chars().filter(|c| *c == '_').count();
    let dot_count = version.chars().filter(|c| *c == '.').count();
    if underscore_count == 1 && dot_count > 1 {
        version = version.replace('_', "");
    } else if underscore_count > 0 && dot_count == 0 {
        version = version.replace('_', ".");
    }
    if version.contains("-rc") || version.contains("-beta") || version.contains("-alpha") {
        version = version.replace("-rc", "~rc");
        version = version.replace("-beta", "~beta");
        version = version.replace("-alpha", "~alpha");
    }
    let re = regex::Regex::new(r"(.*)\.([0-9])(a|b|rc|alpha|beta)([0-9]*)").unwrap();
    if let Some(c) = re.captures(&version) {
        return format!("{}.{}~{}{}", &c[1], &c[2], &c[3], &c[4]);
    }
    version
}

fn matches_by_pattern(upstream_version: &str, release_version: &str) -> bool {
    let release_version = release_version.to_lowercase();
    let upstream_version = upstream_version.to_lowercase();
    if upstream_version == release_version {
        return true;
    }
    let re = regex::Regex::new(r"(.*)[~+-](ds|dfsg|git|bzr|svn|hg).*").unwrap();
    if let Some(c) = re.captures(&upstream_version) {
        if c[1] == release_version {
            return true;
        }
    }
    let re = regex::Regex::new(r"(.*)[~+-].*").unwrap();
    if let Some(c) = re.captures(&upstream_version) {
        if c[1] == release_version {
            return true;
        }
    }
    let re = regex::Regex::new(".*~([0-9.]+)$").unwrap();
    if let Some(c) = re.captures(&upstream_version) {
        if c[1] == release_version {
            return true;
        }
    }
    false
}

fn samples() -> Vec<&'static str> {
    vec![
        "",
        "1.0",
        "1.0-beta1",
        "1.0-rc1",
        "1.0a1",
        "1.0b",
        "1.0rc12x",
        "1.0alpha1",
        "1.0beta2",
        "1.0.1a1.2b3",
        "1_0",
        "1_0_1",
        "1.0_1",
        "1.0.0_1",
        "1.0.0_1_2",
        "1.0-alpha",
        "1.0-alpha-beta-rc",
        "1.0-rc-rc",
        "1.0-r",
        "v1.0-RC1",
        ".1a",
        "x.9rc",
        "x.9r",
        "x.10a",
        "a\nb.1a2\nc.3b4",
        "a.1b\nc.2a9",
        "\n.1a",
        "1.0+ds1",
        "1.0+dfsg",
        "1.0~git20200101",
        "1.0-svn5",
        "1.0+hg",
        "1.0+bzr1+ds2",
        "1.14.3+dfsg+~0.15.3",
        "1.0~1.0",
        "1.0~",
        "~1.0",
        "1.0~a",
        "1.0+x+y",
        "1.0-1-2",
        "1.0+DS1",
        "1.0\n+ds1",
        "1.0+ds\n1",
        "a~b\nc+d",
        "0.15.3",
        "1.1",
        "1.14.3+dfsg+",
        "1.14.3+dfsg",
        "1.14.3",
        "İ1",
    ]
}

#[test]
fn test_debianize_upstream_version() {
    assert_eq!(debianize_upstream_version("1.0"), "1.0");
    assert_eq!(debianize_upstream_version("1.0-beta1"), "1.0~beta1");
    assert_eq!(debianize_upstream_version("1.0-rc1"), "1.0~rc1");
    assert_eq!(debianize_upstream_version("1.0a1"), "1.0~a1");
}

#[test]
fn test_matches_release() {
    assert!(matches_release("1.0", "1.0"));
    assert!(matches_release("1.0+ds1", "1.0"));
    assert!(matches_release("1.14.3+dfsg+~0.15.3", "0.15.3"));
    assert!(!matches_release("1.0", "1.1"));
    assert!(!matches_release("1.0+ds1", "1.1"));
}

#[test]
fn debianize_settles_underscores() {
    assert_eq!(debianize_upstream_version("1_0"), "1.0");
    assert_eq!(debianize_upstream_version("1_0_1"), "1.0.1");
    assert_eq!(debianize_upstream_version("1.0.0_1"), "1.0.01");
    assert_eq!(debianize_upstream_version("1.0_1"), "1.0_1");
    assert_eq!(debianize_upstream_version("1.0.0_1_2"), "1.0.0_1_2");
    assert_eq!(debianize_upstream_version("1.0-alpha"), "1.0~alpha");
    assert_eq!(debianize_upstream_version("1.0rc12x"), "1.0~rc12");
}

#[test]
fn debianize_agrees_with_the_pattern() {
    for v in samples() {
        assert_eq!(
            debianize_upstream_version(v),
            debianize_by_pattern(v),
            "version {:?}",
            v
        );
    }
}

#[test]
fn matches_release_agrees_with_the_pattern() {
    for upstream in samples() {
        for release in samples() {
            assert_eq!(
                matches_release(upstream, release),
                matches_by_pattern(upstream, release),
                "{:?} against {:?}",
                upstream,
                release
            );
        }
    }
}

struct Dice(u64);

impl Dice {
    fn roll(&mut self, sides: usize) -> usize {
        self.0 = self
            .0
            .wrapping_mul(6364136223846793005)
            .wrapping_add(1442695040888963407);
        ((self.0 >> 33) as usize) % sides
    }

    fn text(&mut self, pieces: &[&str], most: usize) -> String {
        let n = self.roll(most + 1);
        let mut out = String::new();
        for _ in 0..n {
            out.push_str(pieces[self.roll(pieces.len())]);
        }
        out
    }
}

const PIECES: [&str; 24] = [
    "1", "0", ".", "_", "-", "~", "+", "a", "b", "rc", "alpha", "beta", "-rc", "-beta", "-alpha",
    "ds", "dfsg", "git", "svn", "hg", "bzr", "\n", "X", ".1a",
];

fn compare_version_functions(seed: u64) {
    let mut dice = Dice(seed);
    for _ in 0..250 {
        let upstream = dice.text(&PIECES, 7);
        let release = if dice.roll(3) == 0 {
            dice.text(&PIECES, 4)
        } else {
            let cut = dice.roll(upstream.len() + 1);
            let from = dice.roll(cut + 1);
            upstream[from..cut].to_lowercase()
        };
        assert_eq!(
            debianize_upstream_version(&upstream),
            debianize_by_pattern(&upstream),
            "version {:?}",
            upstream
        );
        assert_eq!(
            matches_release(&upstream, &release),
            matches_by_pattern(&upstream, &release),
            "{:?} against {:?}",
            upstream,
            release
        );
    }
}

#[test]
fn version_functions_agree_with_the_patterns_on_many_versions() {
    compare_version_functions(7);
}

#[test]
fn version_functions_agree_with_the_patterns_on_more_versions() {
    compare_version_functions(77);
}

#[test]
fn version_functions_agree_with_the_patterns_on_yet_more_versions() {
    compare_version_functions(777);
}
