//! Debian and Ubuntu releases: names, aliases and the suites that belong to
//! them. The tables of releases come from outside; dates are days counted
//! from a fixed day.

use crate::text::{
    char_pred, chars_of, find_char, first_index, lemma_first_index_is, lemma_first_index_none,
    occurs_at_exec, push_all, slice_of, starts_with, str_eq, string_of, views,
};
use vstd::prelude::*;

verus! {

/// A distribution that suites belong to.
#[derive(Clone, Copy, Debug, PartialEq, Eq, Structural)]
pub enum Vendor {
    Debian,
    Ubuntu,
    Kali,
}

/// One release of a distribution.
pub struct DistroRelease {
    /// The version, as in `12` or `22.04 LTS`.
    pub version: Option<String>,
    /// The code name, as in `Bookworm`.
    pub codename: String,
    /// The series, as in `bookworm`.
    pub series: String,
    /// The day on which work on the release began.
    pub created: Option<i64>,
    /// The day of the release.
    pub release: Option<i64>,
    /// The day on which support ends.
    pub eol: Option<i64>,
    /// The day on which support for servers ends.
    pub eol_server: Option<i64>,
    /// The day on which extended security maintenance ends.
    pub eol_esm: Option<i64>,
    /// The day on which extended long-term support ends.
    pub eol_elts: Option<i64>,
    /// The day on which long-term support ends.
    pub eol_lts: Option<i64>,
}

/// Pocket names for Debian.
pub const DEBIAN_POCKETS: [&'static str; 4] = ["", "-security", "-proposed-updates", "-backports"];

/// Pocket names for Ubuntu.
pub const UBUNTU_POCKETS: [&'static str; 5] = [
    "",
    "-proposed",
    "-updates",
    "-security",
    "-backports",
];

/// The pockets of a Debian release.
pub open spec fn debian_pockets() -> Seq<Seq<char>> {
    Seq::new(4, |i: int| DEBIAN_POCKETS[i]@)
}

/// The pockets of an Ubuntu release.
pub open spec fn ubuntu_pockets() -> Seq<Seq<char>> {
    Seq::new(5, |i: int| UBUNTU_POCKETS[i]@)
}

/// The series of the releases, in order.
pub open spec fn series_of(releases: Seq<DistroRelease>) -> Seq<Seq<char>> {
    Seq::new(releases.len(), |i: int| releases[i].series@)
}

fn series_exec(releases: &Vec<DistroRelease>) -> (r: Vec<String>)
    ensures
        views(r@) == series_of(releases@),
{
    let mut out: Vec<String> = Vec::new();
    let mut i: usize = 0;
    while i < releases.len()
        invariant
            i <= releases.len(),
            views(out@) == series_of(releases@).take(i as int),
        decreases releases.len() - i,
    {
        let ghost before = views(out@);
        out.push(releases[i].series.clone());
        proof {
            assert(views(out@) =~= before.push(releases@[i as int].series@));
            assert(views(out@) =~= series_of(releases@).take(i + 1));
        }
        i += 1;
    }
    proof {
        assert(series_of(releases@).take(i as int) =~= series_of(releases@));
    }
    out
}

/// The series of the Debian releases given.
pub fn debian_releases(debian: &Vec<DistroRelease>) -> (r: Vec<String>)
    ensures
        views(r@) == series_of(debian@),
{
    series_exec(debian)
}

/// The series of the Ubuntu releases given.
pub fn ubuntu_releases(ubuntu: &Vec<DistroRelease>) -> (r: Vec<String>)
    ensures
        views(r@) == series_of(ubuntu@),
{
    series_exec(ubuntu)
}

/// The suite is a release followed by one of the pockets.
pub open spec fn is_suite_of(
    suite: Seq<char>,
    releases: Seq<Seq<char>>,
    pockets: Seq<Seq<char>>,
) -> bool {
    exists|i: int, j: int|
        0 <= i < releases.len() && 0 <= j < pockets.len() && suite == #[trigger] releases[i]
            + #[trigger] pockets[j]
}

/// The distribution that a suite belongs to: Debian or Ubuntu where the
/// suite is one of their releases with a pocket, Kali where it is `kali`
/// or begins with `kali-`.
pub open spec fn distribution_of(
    suite: Seq<char>,
    debian: Seq<Seq<char>>,
    ubuntu: Seq<Seq<char>>,
) -> Option<Vendor> {
    if is_suite_of(suite, debian, debian_pockets()) {
        Some(Vendor::Debian)
    } else if is_suite_of(suite, ubuntu, ubuntu_pockets()) {
        Some(Vendor::Ubuntu)
    } else if suite == "kali"@ || starts_with(suite, "kali-"@) {
        Some(Vendor::Kali)
    } else {
        None
    }
}

fn is_suite_of_exec(suite: &str, releases: &Vec<String>, pockets: &Vec<String>) -> (r: bool)
    ensures
        r == is_suite_of(suite@, views(releases@), views(pockets@)),
{
    let ghost rv = views(releases@);
    let ghost pv = views(pockets@);
    let wanted = chars_of(suite);
    let mut i: usize = 0;
    while i < releases.len()
        invariant
            i <= releases.len(),
            rv == views(releases@),
            pv == views(pockets@),
            wanted@ == suite@,
            forall|a: int, b: int|
                0 <= a < i && 0 <= b < pv.len() ==> suite@ != #[trigger] rv[a] + #[trigger] pv[b],
        decreases releases.len() - i,
    {
        let mut j: usize = 0;
        while j < pockets.len()
            invariant
                i < releases.len(),
                j <= pockets.len(),
                rv == views(releases@),
                pv == views(pockets@),
                wanted@ == suite@,
                forall|a: int, b: int|
                    0 <= a < i && 0 <= b < pv.len() ==> suite@ != #[trigger] rv[a]
                        + #[trigger] pv[b],
                forall|b: int| 0 <= b < j ==> suite@ != rv[i as int] + #[trigger] pv[b],
            decreases pockets.len() - j,
        {
            let mut name = chars_of(releases[i].as_str());
            let pocket = chars_of(pockets[j].as_str());
            push_all(&mut name, &pocket);
            proof {
                assert(rv[i as int] == releases@[i as int]@);
                assert(pv[j as int] == pockets@[j as int]@);
            }
            if crate::text::same_chars(&name, &wanted) {
                return true;
            }
            j += 1;
        }
        i += 1;
    }
    false
}

fn texts(a: &str, b: &str, c: &str, d: &str) -> (r: Vec<String>)
    ensures
        views(r@) == seq![a@, b@, c@, d@],
{
    let mut out: Vec<String> = Vec::new();
    out.push(a.to_owned());
    out.push(b.to_owned());
    out.push(c.to_owned());
    out.push(d.to_owned());
    proof {
        assert(views(out@) =~= seq![a@, b@, c@, d@]);
    }
    out
}

/// Infers the distribution from a suite, as the distributions field of a
/// changelog names it, given the series of the Debian and of the Ubuntu
/// releases.
pub fn suite_to_distribution(
    suite: &str,
    debian: &Vec<String>,
    ubuntu: &Vec<String>,
) -> (r: Option<Vendor>)
    ensures
        r == distribution_of(suite@, views(debian@), views(ubuntu@)),
{
    let of_debian = texts(
        DEBIAN_POCKETS[0],
        DEBIAN_POCKETS[1],
        DEBIAN_POCKETS[2],
        DEBIAN_POCKETS[3],
    );
    proof {
        assert(views(of_debian@) =~= debian_pockets());
    }
    if is_suite_of_exec(suite, debian, &of_debian) {
        return Some(Vendor::Debian);
    }
    let mut of_ubuntu = texts(
        UBUNTU_POCKETS[0],
        UBUNTU_POCKETS[1],
        UBUNTU_POCKETS[2],
        UBUNTU_POCKETS[3],
    );
    let ghost before = views(of_ubuntu@);
    of_ubuntu.push(UBUNTU_POCKETS[4].to_owned());
    proof {
        assert(views(of_ubuntu@) =~= before.push(UBUNTU_POCKETS[4]@));
        assert(views(of_ubuntu@) =~= ubuntu_pockets());
    }
    if is_suite_of_exec(suite, ubuntu, &of_ubuntu) {
        return Some(Vendor::Ubuntu);
    }
    let chars = chars_of(suite);
    let prefix = chars_of("kali-");
    if str_eq(suite, "kali") || occurs_at_exec(&chars, &prefix, 0) {
        return Some(Vendor::Kali);
    }
    None
}

/// The series of the releases from index `i` on whose code name is `name`.
pub open spec fn series_named_from(
    releases: Seq<DistroRelease>,
    name: Seq<char>,
    i: int,
) -> Seq<Seq<char>>
    decreases releases.len() - i,
{
    if i < 0 || i >= releases.len() {
        Seq::empty()
    } else if releases[i].codename@ == name {
        seq![releases[i].series@] + series_named_from(releases, name, i + 1)
    } else {
        series_named_from(releases, name, i + 1)
    }
}

/// The alias that the place in the list of released Debian releases gives
/// to `name`, where the release at index `i` has that series.
pub open spec fn rank_alias(
    released: Seq<DistroRelease>,
    name: Seq<char>,
    i: int,
    alias: Seq<char>,
) -> Seq<Seq<char>> {
    if 0 <= i < released.len() && released[i].series@ == name {
        seq![alias]
    } else {
        Seq::empty()
    }
}

/// The aliases of a release: `stable`, `oldstable` and `oldoldstable`
/// where it is the first, second or third of the released Debian releases
/// given, `unstable` for `sid`, and the series of each released Ubuntu
/// release that has it as its code name.
pub open spec fn aliases_of(
    name: Seq<char>,
    debian_released: Seq<DistroRelease>,
    ubuntu_released: Seq<DistroRelease>,
) -> Seq<Seq<char>> {
    rank_alias(debian_released, name, 0, "stable"@) + rank_alias(
        debian_released,
        name,
        1,
        "oldstable"@,
    ) + rank_alias(debian_released, name, 2, "oldoldstable"@) + (if name == "sid"@ {
        seq!["unstable"@]
    } else {
        Seq::empty()
    }) + series_named_from(ubuntu_released, name, 0)
}

/// The aliases of a release, given the Debian and the Ubuntu releases that
/// were released by the day in question.
pub fn release_aliases(
    name: &str,
    debian_released: &Vec<DistroRelease>,
    ubuntu_released: &Vec<DistroRelease>,
) -> (r: Vec<String>)
    ensures
        views(r@) == aliases_of(name@, debian_released@, ubuntu_released@),
{
    let mut ret: Vec<String> = Vec::new();
    let ghost mut acc: Seq<Seq<char>> = Seq::empty();
    proof {
        assert(views(ret@) =~= acc);
    }
    if debian_released.len() > 0 && str_eq(debian_released[0].series.as_str(), name) {
        ret.push("stable".to_owned());
        proof {
            assert(views(ret@) =~= acc.push("stable"@));
        }
    }
    proof {
        acc = acc + rank_alias(debian_released@, name@, 0, "stable"@);
        assert(views(ret@) =~= acc);
    }
    if debian_released.len() > 1 && str_eq(debian_released[1].series.as_str(), name) {
        ret.push("oldstable".to_owned());
        proof {
            assert(views(ret@) =~= acc.push("oldstable"@));
        }
    }
    proof {
        acc = acc + rank_alias(debian_released@, name@, 1, "oldstable"@);
        assert(views(ret@) =~= acc);
    }
    if debian_released.len() > 2 && str_eq(debian_released[2].series.as_str(), name) {
        ret.push("oldoldstable".to_owned());
        proof {
            assert(views(ret@) =~= acc.push("oldoldstable"@));
        }
    }
    proof {
        acc = acc + rank_alias(debian_released@, name@, 2, "oldoldstable"@);
        assert(views(ret@) =~= acc);
    }
    if str_eq(name, "sid") {
        ret.push("unstable".to_owned());
        proof {
            assert(views(ret@) =~= acc.push("unstable"@));
            acc = acc + seq!["unstable"@];
        }
    }
    proof {
        assert(views(ret@) =~= acc);
    }
    let mut i: usize = 0;
    proof {
        assert(acc + series_named_from(ubuntu_released@, name@, 0) =~= aliases_of(
            name@,
            debian_released@,
            ubuntu_released@,
        ));
    }
    while i < ubuntu_released.len()
        invariant
            i <= ubuntu_released.len(),
            views(ret@) + series_named_from(ubuntu_released@, name@, i as int) == aliases_of(
                name@,
                debian_released@,
                ubuntu_released@,
            ),
        decreases ubuntu_released.len() - i,
    {
        if str_eq(ubuntu_released[i].codename.as_str(), name) {
            let ghost before = views(ret@);
            ret.push(ubuntu_released[i].series.clone());
            proof {
                let s = ubuntu_released@[i as int].series@;
                assert(views(ret@) =~= before.push(s));
                assert(before + (seq![s] + series_named_from(ubuntu_released@, name@, i + 1))
                    =~= before.push(s) + series_named_from(ubuntu_released@, name@, i + 1));
            }
        }
        i += 1;
    }
    proof {
        assert(views(ret@) + series_named_from(ubuntu_released@, name@, i as int) =~= views(ret@));
    }
    ret
}

/// The day `a` is before the day `b`; a day that is not known is before
/// every day that is.
pub open spec fn day_before(a: Option<i64>, b: Option<i64>) -> bool {
    match (a, b) {
        (None, Some(_)) => true,
        (Some(x), Some(y)) => x < y,
        _ => false,
    }
}

/// The day is after `date`.
pub open spec fn ends_after(day: Option<i64>, date: i64) -> bool {
    match day {
        Some(d) => d > date,
        None => false,
    }
}

/// Whether the release is a long-term support release: its version says
/// `LTS`.
pub open spec fn is_lts(r: DistroRelease) -> bool {
    match r.version {
        Some(v) => crate::text::contains(v@, "LTS"@),
        None => false,
    }
}

/// Whether the release is supported on `date`: work on it has begun, and
/// its support, for servers where that lasts longer, has not ended.
pub open spec fn supported_at(r: DistroRelease, date: i64) -> bool {
    (r.created matches Some(c) && date >= c) && (match r.eol {
        Some(eol) => match r.eol_server {
            Some(server) => date <= eol || date <= server,
            None => date <= eol,
        },
        None => true,
    })
}

/// Which releases a keyword chooses from.
#[derive(Clone, Copy, PartialEq, Eq, Structural)]
pub enum Support {
    /// Debian releases with long-term support that has not ended.
    Lts,
    /// Debian releases with extended long-term support that has not ended.
    Elts,
    /// Ubuntu releases with extended security maintenance that has not
    /// ended.
    Esm,
    /// Ubuntu long-term support releases that are supported.
    UbuntuLts,
}

/// The release is among those that the keyword chooses from.
pub open spec fn eligible(support: Support, r: DistroRelease, date: i64) -> bool {
    match support {
        Support::Lts => ends_after(r.eol_lts, date),
        Support::Elts => ends_after(r.eol_elts, date),
        Support::Esm => ends_after(r.eol_esm, date),
        Support::UbuntuLts => is_lts(r) && supported_at(r, date),
    }
}

/// The release at index `m` is the oldest that the keyword chooses from:
/// no such release was begun before it, and none that was begun on the
/// same day stands before it in the list.
pub open spec fn is_oldest(
    releases: Seq<DistroRelease>,
    support: Support,
    date: i64,
    m: int,
) -> bool {
    &&& 0 <= m < releases.len()
    &&& eligible(support, releases[m], date)
    &&& forall|j: int|
        0 <= j < releases.len() && eligible(support, #[trigger] releases[j], date) ==> !day_before(
            releases[j].created,
            releases[m].created,
        ) && (releases[j].created == releases[m].created ==> m <= j)
}

/// The release at index `j` counts as newer than the one at index `m`: it
/// was begun later, or on the same day and stands later in the list.
pub open spec fn newer(releases: Seq<DistroRelease>, j: int, m: int) -> bool {
    day_before(releases[m].created, releases[j].created) || (releases[j].created
        == releases[m].created && j > m)
}

/// The release is of the kind asked for: released, or not yet released.
pub open spec fn of_kind(r: DistroRelease, released: bool) -> bool {
    (r.release is Some) == released
}

/// How many releases of the kind from index `i` on are newer than the one
/// at index `m`.
pub open spec fn newer_count(releases: Seq<DistroRelease>, released: bool, m: int, i: int) -> nat
    decreases releases.len() - i,
{
    if i < 0 || i >= releases.len() {
        0
    } else if of_kind(releases[i], released) && newer(releases, i, m) {
        1 + newer_count(releases, released, m, i + 1)
    } else {
        newer_count(releases, released, m, i + 1)
    }
}

/// The release at index `m` is of the kind and has exactly `k` newer ones
/// of the kind: it is the newest for `k == 0`, the one before it for
/// `k == 1`, and so on.
pub open spec fn has_rank(releases: Seq<DistroRelease>, released: bool, k: nat, m: int) -> bool {
    0 <= m < releases.len() && of_kind(releases[m], released) && newer_count(
        releases,
        released,
        m,
        0,
    ) == k
}

/// The predicate `has_rank` of a list, a kind and a rank.
pub open spec fn rank_pred(releases: Seq<DistroRelease>, released: bool, k: nat) -> spec_fn(
    int,
) -> bool {
    |m: int| has_rank(releases, released, k, m)
}

/// The predicate "the release at this index has the code name or the
/// series `name`" of a list.
pub open spec fn named_pred(releases: Seq<DistroRelease>, name: Seq<char>) -> spec_fn(int) -> bool {
    |i: int| releases[i].codename@ == name || releases[i].series@ == name
}

/// The series of the release at the index, where there is one.
pub open spec fn series_at(releases: Seq<DistroRelease>, i: Option<int>) -> Option<Seq<char>> {
    match i {
        Some(m) => Some(releases[m].series@),
        None => None,
    }
}

/// What a name resolves to among the Debian releases. `Some(r)` where the
/// name decides the answer `r`, which may be that there is no such
/// release; `None` where the Debian releases do not decide.
pub open spec fn resolved_in_debian(
    name: Seq<char>,
    date: i64,
    debian: Seq<DistroRelease>,
) -> Option<Option<Seq<char>>> {
    if name == "lts"@ {
        Some(oldest_series(debian, Support::Lts, date))
    } else if name == "elts"@ {
        Some(oldest_series(debian, Support::Elts, date))
    } else if name == "stable"@ {
        Some(series_at(debian, first_index(rank_pred(debian, true, 0), 0, debian.len() as int)))
    } else if name == "oldstable"@ {
        Some(series_at(debian, first_index(rank_pred(debian, true, 1), 0, debian.len() as int)))
    } else if name == "oldoldstable"@ {
        Some(series_at(debian, first_index(rank_pred(debian, true, 2), 0, debian.len() as int)))
    } else if name == "testing"@ {
        Some(series_at(debian, first_index(rank_pred(debian, false, 0), 0, debian.len() as int)))
    } else {
        let wanted = if name == "unstable"@ {
            "sid"@
        } else {
            name
        };
        match first_index(named_pred(debian, wanted), 0, debian.len() as int) {
            Some(i) => Some(Some(debian[i].series@)),
            None => None,
        }
    }
}

/// The name that the Ubuntu releases are asked for after the Debian
/// releases did not decide: `sid` for `unstable`, any other name as it is.
pub open spec fn carried_name(name: Seq<char>) -> Seq<char> {
    if name == "unstable"@ {
        "sid"@
    } else {
        name
    }
}

/// What a name resolves to among the Ubuntu releases.
pub open spec fn resolved_in_ubuntu(
    name: Seq<char>,
    date: i64,
    ubuntu: Seq<DistroRelease>,
) -> Option<Seq<char>> {
    if name == "esm"@ {
        oldest_series(ubuntu, Support::Esm, date)
    } else if name == "lts"@ {
        oldest_series(ubuntu, Support::UbuntuLts, date)
    } else {
        series_at(ubuntu, first_index(named_pred(ubuntu, name), 0, ubuntu.len() as int))
    }
}

/// The predicate `is_oldest` of a list, a keyword and a day.
pub open spec fn oldest_pred(releases: Seq<DistroRelease>, support: Support, date: i64) -> spec_fn(
    int,
) -> bool {
    |m: int| is_oldest(releases, support, date, m)
}

/// The series of the oldest release that the keyword chooses from.
pub open spec fn oldest_series(
    releases: Seq<DistroRelease>,
    support: Support,
    date: i64,
) -> Option<Seq<char>> {
    series_at(releases, first_index(oldest_pred(releases, support, date), 0, releases.len() as int))
}

/// The distribution that a name asks for, and the name without it: what
/// stands before the first `/`, and what stands after it.
pub open spec fn split_distro(name: Seq<char>) -> (Option<Seq<char>>, Seq<char>) {
    match first_index(char_pred(name, '/'), 0, name.len() as int) {
        Some(i) => (Some(name.subrange(0, i)), name.subrange(i + 1, name.len() as int)),
        None => (None, name),
    }
}

/// The series that a code name, a series or an alias resolves to on the
/// day `date`, given the Debian and the Ubuntu releases on which work had
/// begun by then. A name may say which distribution it means, as in
/// `debian/stable`. Debian is asked first.
pub open spec fn resolved(
    name: Seq<char>,
    date: i64,
    debian: Seq<DistroRelease>,
    ubuntu: Seq<DistroRelease>,
) -> Option<Seq<char>> {
    let (distro, rest) = split_distro(name);
    let in_debian = if distro is None || distro == Some("debian"@) {
        resolved_in_debian(rest, date, debian)
    } else {
        None
    };
    match in_debian {
        Some(answer) => answer,
        None => {
            let carried = if distro is None || distro == Some("debian"@) {
                carried_name(rest)
            } else {
                rest
            };
            if distro is None || distro == Some("ubuntu"@) {
                resolved_in_ubuntu(carried, date, ubuntu)
            } else {
                None
            }
        },
    }
}

fn day_before_exec(a: &Option<i64>, b: &Option<i64>) -> (r: bool)
    ensures
        r == day_before(*a, *b),
{
    match (a, b) {
        (None, Some(_)) => true,
        (Some(x), Some(y)) => *x < *y,
        _ => false,
    }
}

fn same_day(a: &Option<i64>, b: &Option<i64>) -> (r: bool)
    ensures
        r == (*a == *b),
{
    match (a, b) {
        (None, None) => true,
        (Some(x), Some(y)) => *x == *y,
        _ => false,
    }
}

fn ends_after_exec(day: &Option<i64>, date: i64) -> (r: bool)
    ensures
        r == ends_after(*day, date),
{
    match day {
        Some(d) => *d > date,
        None => false,
    }
}

fn eligible_exec(support: Support, r: &DistroRelease, date: i64) -> (b: bool)
    ensures
        b == eligible(support, *r, date),
{
    match support {
        Support::Lts => ends_after_exec(&r.eol_lts, date),
        Support::Elts => ends_after_exec(&r.eol_elts, date),
        Support::Esm => ends_after_exec(&r.eol_esm, date),
        Support::UbuntuLts => {
            let lts = match &r.version {
                Some(v) => {
                    let chars = chars_of(v.as_str());
                    let word = chars_of("LTS");
                    crate::text::contains_exec(&chars, &word)
                },
                None => false,
            };
            let begun = match r.created {
                Some(c) => date >= c,
                None => false,
            };
            let lasting = match r.eol {
                Some(eol) => match r.eol_server {
                    Some(server) => date <= eol || date <= server,
                    None => date <= eol,
                },
                None => true,
            };
            lts && begun && lasting
        },
    }
}

fn is_oldest_exec(releases: &Vec<DistroRelease>, support: Support, date: i64, m: usize) -> (r: bool)
    requires
        m < releases.len(),
    ensures
        r == is_oldest(releases@, support, date, m as int),
{
    if !eligible_exec(support, &releases[m], date) {
        return false;
    }
    let mut j: usize = 0;
    while j < releases.len()
        invariant
            j <= releases.len(),
            m < releases.len(),
            eligible(support, releases@[m as int], date),
            forall|k: int|
                0 <= k < j && eligible(support, #[trigger] releases@[k], date) ==> !day_before(
                    releases@[k].created,
                    releases@[m as int].created,
                ) && (releases@[k].created == releases@[m as int].created ==> m <= k),
        decreases releases.len() - j,
    {
        if eligible_exec(support, &releases[j], date) {
            if day_before_exec(&releases[j].created, &releases[m].created) || (same_day(
                &releases[j].created,
                &releases[m].created,
            ) && j < m) {
                assert(eligible(support, releases@[j as int], date));
                return false;
            }
        }
        j += 1;
    }
    true
}

fn oldest_exec(releases: &Vec<DistroRelease>, support: Support, date: i64) -> (r: Option<String>)
    ensures
        crate::debcargo::text_view(r) == oldest_series(releases@, support, date),
{
    let mut m: usize = 0;
    while m < releases.len()
        invariant
            m <= releases.len(),
            forall|k: int| 0 <= k < m ==> !#[trigger] oldest_pred(releases@, support, date)(k),
        decreases releases.len() - m,
    {
        if is_oldest_exec(releases, support, date, m) {
            proof {
                lemma_first_index_is(
                    oldest_pred(releases@, support, date),
                    0,
                    releases.len() as int,
                    m as int,
                );
            }
            return Some(releases[m].series.clone());
        }
        m += 1;
    }
    proof {
        lemma_first_index_none(oldest_pred(releases@, support, date), 0, releases.len() as int);
    }
    None
}

fn newer_exec(releases: &Vec<DistroRelease>, j: usize, m: usize) -> (r: bool)
    requires
        j < releases.len(),
        m < releases.len(),
    ensures
        r == newer(releases@, j as int, m as int),
{
    day_before_exec(&releases[m].created, &releases[j].created) || (same_day(
        &releases[j].created,
        &releases[m].created,
    ) && j > m)
}

fn has_rank_exec(releases: &Vec<DistroRelease>, released: bool, k: usize, m: usize) -> (r: bool)
    requires
        m < releases.len(),
    ensures
        r == has_rank(releases@, released, k as nat, m as int),
{
    if releases[m].release.is_some() != released {
        return false;
    }
    let mut count: usize = 0;
    let mut i: usize = 0;
    while i < releases.len()
        invariant
            i <= releases.len(),
            m < releases.len(),
            count <= i,
            count + newer_count(releases@, released, m as int, i as int) == newer_count(
                releases@,
                released,
                m as int,
                0,
            ),
        decreases releases.len() - i,
    {
        if releases[i].release.is_some() == released && newer_exec(releases, i, m) {
            count += 1;
        }
        i += 1;
    }
    count == k
}

fn ranked_exec(releases: &Vec<DistroRelease>, released: bool, k: usize) -> (r: Option<String>)
    ensures
        crate::debcargo::text_view(r) == series_at(
            releases@,
            first_index(rank_pred(releases@, released, k as nat), 0, releases.len() as int),
        ),
{
    let mut m: usize = 0;
    while m < releases.len()
        invariant
            m <= releases.len(),
            forall|j: int|
                0 <= j < m ==> !#[trigger] rank_pred(releases@, released, k as nat)(j),
        decreases releases.len() - m,
    {
        if has_rank_exec(releases, released, k, m) {
            proof {
                lemma_first_index_is(
                    rank_pred(releases@, released, k as nat),
                    0,
                    releases.len() as int,
                    m as int,
                );
            }
            return Some(releases[m].series.clone());
        }
        m += 1;
    }
    proof {
        lemma_first_index_none(
            rank_pred(releases@, released, k as nat),
            0,
            releases.len() as int,
        );
    }
    None
}

fn named_exec(releases: &Vec<DistroRelease>, name: &str) -> (r: Option<String>)
    ensures
        crate::debcargo::text_view(r) == series_at(
            releases@,
            first_index(named_pred(releases@, name@), 0, releases.len() as int),
        ),
{
    let mut i: usize = 0;
    while i < releases.len()
        invariant
            i <= releases.len(),
            forall|j: int| 0 <= j < i ==> !#[trigger] named_pred(releases@, name@)(j),
        decreases releases.len() - i,
    {
        if str_eq(releases[i].codename.as_str(), name) || str_eq(
            releases[i].series.as_str(),
            name,
        ) {
            proof {
                lemma_first_index_is(
                    named_pred(releases@, name@),
                    0,
                    releases.len() as int,
                    i as int,
                );
            }
            return Some(releases[i].series.clone());
        }
        i += 1;
    }
    proof {
        lemma_first_index_none(named_pred(releases@, name@), 0, releases.len() as int);
    }
    None
}

/// The view of an answer that may be undecided.
pub open spec fn answer_view(a: Option<Option<String>>) -> Option<Option<Seq<char>>> {
    match a {
        Some(x) => Some(crate::debcargo::text_view(x)),
        None => None,
    }
}

fn resolve_in_debian(
    name: &str,
    date: i64,
    debian: &Vec<DistroRelease>,
) -> (r: Option<Option<String>>)
    ensures
        answer_view(r) == resolved_in_debian(name@, date, debian@),
{
    if str_eq(name, "lts") {
        return Some(oldest_exec(debian, Support::Lts, date));
    }
    if str_eq(name, "elts") {
        return Some(oldest_exec(debian, Support::Elts, date));
    }
    if str_eq(name, "stable") {
        return Some(ranked_exec(debian, true, 0));
    }
    if str_eq(name, "oldstable") {
        return Some(ranked_exec(debian, true, 1));
    }
    if str_eq(name, "oldoldstable") {
        return Some(ranked_exec(debian, true, 2));
    }
    if str_eq(name, "testing") {
        return Some(ranked_exec(debian, false, 0));
    }
    let wanted = if str_eq(name, "unstable") {
        "sid"
    } else {
        name
    };
    match named_exec(debian, wanted) {
        Some(s) => Some(Some(s)),
        None => None,
    }
}

fn resolve_in_ubuntu(name: &str, date: i64, ubuntu: &Vec<DistroRelease>) -> (r: Option<String>)
    ensures
        crate::debcargo::text_view(r) == resolved_in_ubuntu(name@, date, ubuntu@),
{
    if str_eq(name, "esm") {
        return oldest_exec(ubuntu, Support::Esm, date);
    }
    if str_eq(name, "lts") {
        return oldest_exec(ubuntu, Support::UbuntuLts, date);
    }
    named_exec(ubuntu, name)
}

/// Resolves a release code name, a series or an alias such as `stable` or
/// `ubuntu/lts` to a series, given the day and the releases of Debian and
/// of Ubuntu on which work had begun by that day.
pub fn resolve_release_codename(
    name: &str,
    date: i64,
    debian: &Vec<DistroRelease>,
    ubuntu: &Vec<DistroRelease>,
) -> (r: Option<String>)
    ensures
        crate::debcargo::text_view(r) == resolved(name@, date, debian@, ubuntu@),
{
    let chars = chars_of(name);
    let (distro, rest): (Option<String>, String) = match find_char(&chars, '/') {
        Some(i) => {
            let head = slice_of(&chars, 0, i);
            let tail = slice_of(&chars, i + 1, chars.len());
            (Some(string_of(&head)), string_of(&tail))
        },
        None => (None, string_of(&chars)),
    };
    let ask_debian = match &distro {
        Some(d) => str_eq(d.as_str(), "debian"),
        None => true,
    };
    let ask_ubuntu = match &distro {
        Some(d) => str_eq(d.as_str(), "ubuntu"),
        None => true,
    };
    let mut wanted = rest;
    if ask_debian {
        match resolve_in_debian(wanted.as_str(), date, debian) {
            Some(answer) => {
                return answer;
            },
            None => {},
        }
        if str_eq(wanted.as_str(), "unstable") {
            wanted = "sid".to_owned();
        }
    }
    if ask_ubuntu {
        return resolve_in_ubuntu(wanted.as_str(), date, ubuntu);
    }
    None
}

} // verus!
