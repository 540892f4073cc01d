use debian_analyzer::release_info::{
    debian_releases, release_aliases, resolve_release_codename, suite_to_distribution,
    ubuntu_releases, DistroRelease, Vendor,
};

fn release(
    version: Option<&str>,
    codename: &str,
    series: &str,
    created: Option<i64>,
    released: Option<i64>,
) -> DistroRelease {
    DistroRelease {
        version: version.map(|v| v.to_string()),
        codename: codename.to_string(),
        series: series.to_string(),
        created,
        release: released,
        eol: None,
        eol_server: None,
        eol_esm: None,
        eol_elts: None,
        eol_lts: None,
    }
}

fn debian() -> Vec<DistroRelease> {
    let mut stretch = release(Some("9"), "Stretch", "stretch", Some(100), Some(200));
    stretch.eol = Some(400);
    stretch.eol_lts = Some(500);
    stretch.eol_elts = Some(900);
    let mut buster = release(Some("10"), "Buster", "buster", Some(200), Some(300));
    buster.eol = Some(600);
    buster.eol_lts = Some(700);
    buster.eol_elts = Some(1200);
    let mut bullseye = release(Some("11"), "Bullseye", "bullseye", Some(300), Some(400));
    bullseye.eol = Some(800);
    bullseye.eol_lts = Some(1000);
    vec![
        stretch,
        buster,
        bullseye,
        release(Some("12"), "Bookworm", "bookworm", Some(400), Some(550)),
        release(Some("13"), "Trixie", "trixie", Some(550), None),
        release(None, "Sid", "sid", Some(1), None),
        release(None, "Experimental", "experimental", Some(1), None),
    ]
}

fn ubuntu() -> Vec<DistroRelease> {
    let mut trusty = release(
        Some("14.04 LTS"),
        "Trusty Tahr",
        "trusty",
        Some(150),
        Some(250),
    );
    trusty.eol = Some(450);
    trusty.eol_esm = Some(650);
    let mut xenial = release(
        Some("16.04 LTS"),
        "Xenial Xerus",
        "xenial",
        Some(250),
        Some(350),
    );
    xenial.eol = Some(620);
    xenial.eol_server = Some(640);
    xenial.eol_esm = Some(950);
    let mut artful = release(Some("17.10"), "Artful Aardvark", "artful", Some(330), Some(360));
    artful.eol = Some(380);
    let mut bionic = release(
        Some("18.04 LTS"),
        "Bionic Beaver",
        "bionic",
        Some(350),
        Some(390),
    );
    bionic.eol = Some(990);
    bionic.eol_esm = Some(1500);
    vec![trusty, xenial, artful, bionic]
}

fn resolve(name: &str) -> Option<String> {
    resolve_release_codename(name, 600, &debian(), &ubuntu())
}

#[test]
fn test_debian() {
    assert_eq!("sid", resolve("debian/sid").unwrap());
    assert_eq!("sid", resolve("sid").unwrap());
    assert_eq!("sid", resolve("unstable").unwrap());
    assert_eq!("experimental", resolve("experimental").unwrap());
}

#[test]
fn test_ubuntu() {
    assert_eq!("trusty", resolve("ubuntu/trusty").unwrap());
    assert_eq!("trusty", resolve("trusty").unwrap());
    assert!(resolve("ubuntu/lts").is_some());
}

#[test]
fn test_resolve_debian() {
    assert_eq!("sid", resolve("sid").unwrap());
    assert_eq!("buster", resolve("buster").unwrap());
    assert_eq!("sid", resolve("unstable").unwrap());
    assert_eq!("sid", resolve("debian/unstable").unwrap());
    assert!(resolve("oldstable").is_some());
    assert!(resolve("oldoldstable").is_some());
}

#[test]
fn test_resolve_unknown() {
    assert!(resolve("blah").is_none());
}

#[test]
fn test_resolve_ubuntu() {
    assert_eq!("trusty", resolve("trusty").unwrap());
    assert_eq!("trusty", resolve("ubuntu/trusty").unwrap());
    assert!(resolve("ubuntu/lts").is_some())
}

#[test]
fn test_resolve_ubuntu_esm() {
    assert!(resolve("ubuntu/esm").is_some())
}

#[test]
fn aliases_resolve_by_age() {
    assert_eq!(resolve("stable").unwrap(), "bookworm");
    assert_eq!(resolve("oldstable").unwrap(), "bullseye");
    assert_eq!(resolve("oldoldstable").unwrap(), "buster");
    assert_eq!(resolve("debian/stable").unwrap(), "bookworm");
    assert_eq!(resolve("testing").unwrap(), "trixie");
    assert_eq!(resolve("lts").unwrap(), "buster");
    assert_eq!(resolve("debian/lts").unwrap(), "buster");
    assert_eq!(resolve("elts").unwrap(), "stretch");
    assert_eq!(resolve("ubuntu/lts").unwrap(), "xenial");
    assert_eq!(resolve("ubuntu/esm").unwrap(), "trusty");
    assert_eq!(resolve("esm").unwrap(), "trusty");
    assert_eq!(resolve("Bookworm").unwrap(), "bookworm");
    assert_eq!(resolve("Bionic Beaver").unwrap(), "bionic");
    assert_eq!(resolve("ubuntu/unstable"), None);
    assert_eq!(resolve("ubuntu/stable"), None);
    assert_eq!(resolve("ubuntu/sid"), None);
    assert_eq!(resolve("debian/trusty"), None);
    assert_eq!(resolve("kali/sid"), None);
    assert_eq!(resolve("debian/ubuntu/x"), None);
    assert_eq!(resolve(""), None);
    assert_eq!(resolve("/"), None);
}

#[test]
fn aliases_on_other_days() {
    let d = debian();
    let u = ubuntu();
    assert_eq!(
        resolve_release_codename("lts", 699, &d, &u),
        Some("buster".to_string())
    );
    assert_eq!(
        resolve_release_codename("lts", 700, &d, &u),
        Some("bullseye".to_string())
    );
    assert_eq!(resolve_release_codename("lts", 1000, &d, &u), None);
    assert_eq!(
        resolve_release_codename("ubuntu/lts", 641, &d, &u),
        Some("bionic".to_string())
    );
    assert_eq!(
        resolve_release_codename("ubuntu/lts", 640, &d, &u),
        Some("xenial".to_string())
    );
    assert_eq!(resolve_release_codename("ubuntu/lts", 100, &d, &u), None);
    assert_eq!(resolve_release_codename("stable", 600, &vec![], &u), None);
    assert_eq!(resolve_release_codename("testing", 600, &d[..4].iter().map(|r| release(None, &r.codename, &r.series, r.created, r.release)).collect(), &u), None);
}

#[test]
fn ties_go_to_the_release_listed_later() {
    let d = vec![
        release(None, "A", "a", Some(5), Some(6)),
        release(None, "B", "b", Some(5), Some(6)),
        release(None, "C", "c", None, Some(6)),
        release(None, "D", "d", Some(5), None),
        release(None, "E", "e", Some(5), None),
    ];
    assert_eq!(
        resolve_release_codename("stable", 10, &d, &vec![]),
        Some("b".to_string())
    );
    assert_eq!(
        resolve_release_codename("oldstable", 10, &d, &vec![]),
        Some("a".to_string())
    );
    assert_eq!(
        resolve_release_codename("oldoldstable", 10, &d, &vec![]),
        Some("c".to_string())
    );
    assert_eq!(
        resolve_release_codename("testing", 10, &d, &vec![]),
        Some("e".to_string())
    );
    let mut x = release(None, "X", "x", Some(5), None);
    x.eol_lts = Some(20);
    let mut y = release(None, "Y", "y", Some(5), None);
    y.eol_lts = Some(30);
    let mut z = release(None, "Z", "z", None, None);
    z.eol_lts = Some(11);
    assert_eq!(
        resolve_release_codename("lts", 10, &vec![x, y, z], &vec![]),
        Some("z".to_string())
    );
}

#[test]
fn series_of_the_releases() {
    assert_eq!(
        debian_releases(&debian()),
        vec!["stretch", "buster", "bullseye", "bookworm", "trixie", "sid", "experimental"]
    );
    assert_eq!(
        ubuntu_releases(&ubuntu()),
        vec!["trusty", "xenial", "artful", "bionic"]
    );
}

#[test]
fn suites_belong_to_distributions() {
    let d = debian_releases(&debian());
    let u = ubuntu_releases(&ubuntu());
    assert_eq!(suite_to_distribution("sid", &d, &u), Some(Vendor::Debian));
    assert_eq!(
        suite_to_distribution("buster-backports", &d, &u),
        Some(Vendor::Debian)
    );
    assert_eq!(
        suite_to_distribution("bookworm-proposed-updates", &d, &u),
        Some(Vendor::Debian)
    );
    assert_eq!(
        suite_to_distribution("bookworm-security", &d, &u),
        Some(Vendor::Debian)
    );
    assert_eq!(
        suite_to_distribution("bionic-updates", &d, &u),
        Some(Vendor::Ubuntu)
    );
    assert_eq!(
        suite_to_distribution("bionic-proposed", &d, &u),
        Some(Vendor::Ubuntu)
    );
    assert_eq!(suite_to_distribution("trusty", &d, &u), Some(Vendor::Ubuntu));
    assert_eq!(suite_to_distribution("buster-updates", &d, &u), None);
    assert_eq!(suite_to_distribution("kali", &d, &u), Some(Vendor::Kali));
    assert_eq!(
        suite_to_distribution("kali-rolling", &d, &u),
        Some(Vendor::Kali)
    );
    assert_eq!(suite_to_distribution("kalix", &d, &u), None);
    assert_eq!(suite_to_distribution("unstable", &d, &u), None);
    assert_eq!(suite_to_distribution("", &d, &u), None);
    assert_eq!(
        suite_to_distribution("x", &vec!["x".to_string()], &vec!["x".to_string()]),
        Some(Vendor::Debian)
    );
}

#[test]
fn aliases_of_releases() {
    let d = debian();
    let u = ubuntu();
    assert_eq!(release_aliases("stretch", &d, &u), vec!["stable"]);
    assert_eq!(release_aliases("buster", &d, &u), vec!["oldstable"]);
    assert_eq!(release_aliases("bullseye", &d, &u), vec!["oldoldstable"]);
    assert_eq!(release_aliases("bookworm", &d, &u), Vec::<String>::new());
    assert_eq!(release_aliases("sid", &d, &u), vec!["unstable"]);
    assert_eq!(release_aliases("Trusty Tahr", &d, &u), vec!["trusty"]);
    assert_eq!(release_aliases("sid", &vec![], &vec![]), vec!["unstable"]);
    let twice = vec![
        release(None, "Same", "one", Some(1), Some(2)),
        release(None, "Same", "two", Some(1), Some(2)),
    ];
    assert_eq!(
        release_aliases("Same", &vec![], &twice),
        vec!["one", "two"]
    );
    let sid_first = vec![release(None, "Sid", "sid", Some(1), Some(2))];
    assert_eq!(
        release_aliases("sid", &sid_first, &vec![]),
        vec!["stable", "unstable"]
    );
}
