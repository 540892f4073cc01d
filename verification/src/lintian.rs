//! Versions and releases of the Debian Policy, as lintian's data files
//! list them.

use crate::text::{
    char_views, chars_of, decimal, parse_i32, parse_i32_exec, push_decimal, split_exec, split_range,
    string_of,
};
use std::cmp::Ordering;
use vstd::prelude::*;

verus! {

/// Where lintian keeps its data.
pub const LINTIAN_DATA_PATH: &'static str = "/usr/share/lintian/data";

/// The file with the policy releases, under its old name.
pub const RELEASE_DATES_PATH_OLD: &'static str = "/usr/share/lintian/data/debian-policy/release-dates.json";

/// The file with the policy releases, under its new name.
pub const RELEASE_DATES_PATH_NEW: &'static str = "/usr/share/lintian/data/debian-policy/releases.json";

/// The part of a version at index `i`; a version counts as followed by
/// zeros without end.
pub open spec fn part(s: Seq<i32>, i: int) -> int {
    if 0 <= i < s.len() {
        s[i] as int
    } else {
        0
    }
}

/// The longer of two lengths.
pub open spec fn longer(a: Seq<i32>, b: Seq<i32>) -> int {
    if a.len() > b.len() {
        a.len() as int
    } else {
        b.len() as int
    }
}

/// How two versions compare from index `i` on, part by part: -1, 0 or 1
/// where the first is lower, equal or higher. The shorter version is
/// filled up with zeros.
pub open spec fn compare_from(a: Seq<i32>, b: Seq<i32>, i: int) -> int
    decreases longer(a, b) - i,
{
    if i < 0 || i >= longer(a, b) {
        0
    } else if part(a, i) < part(b, i) {
        -1
    } else if part(a, i) > part(b, i) {
        1
    } else {
        compare_from(a, b, i + 1)
    }
}

/// A version cut or filled up with zeros to `n` parts.
pub open spec fn normalized(s: Seq<i32>, n: int) -> Seq<i32> {
    Seq::new(n as nat, |i: int| part(s, i) as i32)
}

/// The decimal digits of `n`, after a minus sign where `n` is below zero.
pub open spec fn signed_decimal(n: int) -> Seq<char> {
    if n < 0 {
        seq!['-'] + decimal((-n) as nat)
    } else {
        decimal(n as nat)
    }
}

/// The parts from index `i` on, written in decimal and joined by dots.
pub open spec fn joined(parts: Seq<i32>, i: int) -> Seq<char>
    decreases parts.len() - i,
{
    if i < 0 || i >= parts.len() {
        Seq::empty()
    } else if i == parts.len() - 1 {
        signed_decimal(parts[i] as int)
    } else {
        signed_decimal(parts[i] as int) + seq!['.'] + joined(parts, i + 1)
    }
}

/// The numbers that the pieces write, where each piece writes an `i32`.
pub open spec fn parsed_parts(pieces: Seq<Seq<char>>) -> Option<Seq<i32>> {
    if forall|i: int| 0 <= i < pieces.len() ==> parse_i32(#[trigger] pieces[i]) is Some {
        Some(Seq::new(pieces.len(), |i: int| parse_i32(pieces[i]).unwrap()))
    } else {
        None
    }
}

/// The parts that a text writes: the numbers between its dots. `None`
/// where a piece between dots, or the whole text, is no `i32`.
pub open spec fn standards_parts(s: Seq<char>) -> Option<Seq<i32>> {
    parsed_parts(split_range(s, '.', 0, s.len() as int))
}

/// A version of the Debian Policy: a row of numbers. Two versions that
/// differ only in zeros at the end are equal.
#[derive(Debug, Clone)]
pub struct StandardsVersion(pub Vec<i32>);

impl View for StandardsVersion {
    type V = Seq<i32>;

    open spec fn view(&self) -> Seq<i32> {
        self.0@
    }
}

impl StandardsVersion {
    /// The version `major.minor.patch`.
    pub fn new(major: i32, minor: i32, patch: i32) -> (r: Self)
        ensures
            r@ == seq![major, minor, patch],
    {
        let mut parts: Vec<i32> = Vec::new();
        parts.push(major);
        parts.push(minor);
        parts.push(patch);
        proof {
            assert(parts@ =~= seq![major, minor, patch]);
        }
        StandardsVersion(parts)
    }

    /// The version with exactly `n` parts: cut where it has more, filled
    /// up with zeros where it has fewer.
    pub fn normalize(&self, n: usize) -> (r: Self)
        ensures
            r@ == normalized(self@, n as int),
    {
        let mut parts: Vec<i32> = Vec::new();
        let mut i: usize = 0;
        while i < n
            invariant
                i <= n,
                parts@ == normalized(self@, n as int).take(i as int),
            decreases n - i,
        {
            parts.push(if i < self.0.len() { self.0[i] } else { 0 });
            proof {
                assert(parts@ =~= normalized(self@, n as int).take(i + 1));
            }
            i += 1;
        }
        proof {
            assert(normalized(self@, n as int).take(n as int) =~= normalized(self@, n as int));
        }
        StandardsVersion(parts)
    }

    /// Compares two versions part by part: -1, 0 or 1 where `self` is
    /// lower than, equal to or higher than `other`.
    pub fn compare(&self, other: &Self) -> (r: i8)
        ensures
            r == compare_from(self@, other@, 0),
    {
        let n = if self.0.len() > other.0.len() {
            self.0.len()
        } else {
            other.0.len()
        };
        let mut i: usize = 0;
        while i < n
            invariant
                i <= n,
                n == longer(self@, other@),
                compare_from(self@, other@, 0) == compare_from(self@, other@, i as int),
            decreases n - i,
        {
            let x = if i < self.0.len() { self.0[i] } else { 0 };
            let y = if i < other.0.len() { other.0[i] } else { 0 };
            if x < y {
                return -1;
            }
            if x > y {
                return 1;
            }
            i += 1;
        }
        0
    }

    /// Reads a version from numbers joined by dots.
    pub fn parse(s: &str) -> (r: Option<Self>)
        ensures
            match r {
                Some(v) => standards_parts(s@) == Some(v@),
                None => standards_parts(s@) is None,
            },
    {
        let chars = chars_of(s);
        let pieces = split_exec(&chars, '.', 0, chars.len());
        let ghost pv = char_views(pieces@);
        let mut parts: Vec<i32> = Vec::new();
        let mut i: usize = 0;
        while i < pieces.len()
            invariant
                i <= pieces.len(),
                pv == char_views(pieces@),
                pv == split_range(s@, '.', 0, s@.len() as int),
                parts.len() == i,
                forall|k: int| 0 <= k < i ==> parse_i32(#[trigger] pv[k]) == Some(parts@[k]),
            decreases pieces.len() - i,
        {
            proof {
                assert(pv[i as int] == pieces@[i as int]@);
            }
            match parse_i32_exec(&pieces[i]) {
                Some(n) => {
                    parts.push(n);
                },
                None => {
                    assert(parse_i32(pv[i as int]) is None);
                    return None;
                },
            }
            i += 1;
        }
        proof {
            assert(parts@ =~= Seq::new(pv.len(), |i: int| parse_i32(pv[i]).unwrap()));
        }
        Some(StandardsVersion(parts))
    }

    /// The version written as numbers joined by dots.
    pub fn to_string(&self) -> (r: String)
        ensures
            r@ == joined(self@, 0),
    {
        let mut out: Vec<char> = Vec::new();
        let mut i: usize = 0;
        proof {
            assert(out@ + joined(self@, 0) =~= joined(self@, 0));
        }
        while i < self.0.len()
            invariant
                i <= self.0.len(),
                out@ + joined(self@, i as int) == joined(self@, 0),
            decreases self.0.len() - i,
        {
            let ghost before = out@;
            let n = self.0[i];
            if n < 0 {
                out.push('-');
                push_decimal(&mut out, (0 - n as i64) as u64);
            } else {
                push_decimal(&mut out, n as u64);
            }
            proof {
                assert(out@ =~= before + signed_decimal(n as int));
            }
            if i + 1 < self.0.len() {
                out.push('.');
                proof {
                    assert(out@ + joined(self@, i + 1) =~= before + (signed_decimal(n as int)
                        + seq!['.'] + joined(self@, i + 1)));
                }
            } else {
                proof {
                    assert(out@ + joined(self@, i + 1) =~= before + signed_decimal(n as int));
                }
            }
            i += 1;
        }
        proof {
            assert(out@ + joined(self@, i as int) =~= out@);
        }
        string_of(&out)
    }
}

impl PartialEq for StandardsVersion {
    fn eq(&self, other: &Self) -> (r: bool) {
        self.compare(other) == 0
    }
}

impl vstd::std_specs::cmp::PartialEqSpecImpl for StandardsVersion {
    open spec fn obeys_eq_spec() -> bool {
        true
    }

    open spec fn eq_spec(&self, other: &Self) -> bool {
        compare_from(self@, other@, 0) == 0
    }
}

impl Eq for StandardsVersion {

}

impl PartialOrd for StandardsVersion {
    fn partial_cmp(&self, other: &Self) -> (r: Option<Ordering>) {
        let c = self.compare(other);
        if c < 0 {
            Some(Ordering::Less)
        } else if c > 0 {
            Some(Ordering::Greater)
        } else {
            Some(Ordering::Equal)
        }
    }
}

impl vstd::std_specs::cmp::PartialOrdSpecImpl for StandardsVersion {
    open spec fn obeys_partial_cmp_spec() -> bool {
        true
    }

    open spec fn partial_cmp_spec(&self, other: &Self) -> Option<Ordering> {
        if compare_from(self@, other@, 0) < 0 {
            Some(Ordering::Less)
        } else if compare_from(self@, other@, 0) > 0 {
            Some(Ordering::Greater)
        } else {
            Some(Ordering::Equal)
        }
    }
}

impl std::str::FromStr for StandardsVersion {
    type Err = ();

    /// Reads a version from numbers joined by dots, as `parse` does: `Ok`
    /// with the numbers where the whole text and every piece between dots
    /// writes an `i32`, and `Err` where one does not.
    fn from_str(s: &str) -> (r: Result<Self, ()>)
        ensures
            match r {
                Ok(v) => standards_parts(s@) == Some(v@),
                Err(_) => standards_parts(s@) is None,
            },
    {
        match StandardsVersion::parse(s) {
            Some(v) => Ok(v),
            None => Err(()),
        }
    }
}

/// A release of the Debian Policy.
#[derive(Debug, Clone)]
pub struct PolicyRelease {
    /// The version of the release.
    pub version: StandardsVersion,
    /// When the release was published, in seconds since 1970-01-01 UTC.
    pub timestamp: i64,
    /// The bugs that the release closes.
    pub closes: Vec<i32>,
    /// The epoch of the release.
    pub epoch: Option<i32>,
    /// The author of the release.
    pub author: Option<String>,
    /// The changes of the release.
    pub changes: Vec<String>,
}

/// The releases to go by, given what the file under the new name holds and
/// what the file under the old name holds, each `None` where the file is
/// missing or cannot be read as a list of releases: the new file's where it
/// has any, else the old file's.
pub fn iter_standards_versions_opt(
    new_format: Option<Vec<PolicyRelease>>,
    old_format: Option<Vec<PolicyRelease>>,
) -> (r: Option<Vec<PolicyRelease>>)
    ensures
        r == (match new_format {
            Some(n) => Some(n),
            None => old_format,
        }),
{
    match new_format {
        Some(n) => Some(n),
        None => old_format,
    }
}

/// The releases to go by where one of the two files could be read.
pub fn iter_standards_versions(
    new_format: Option<Vec<PolicyRelease>>,
    old_format: Option<Vec<PolicyRelease>>,
) -> (r: Vec<PolicyRelease>)
    requires
        new_format is Some || old_format is Some,
    ensures
        Some(r) == (match new_format {
            Some(n) => Some(n),
            None => old_format,
        }),
{
    match new_format {
        Some(n) => n,
        None => old_format.unwrap(),
    }
}

/// The latest version of the policy: that of the first release listed.
pub fn latest_standards_version(releases: &Vec<PolicyRelease>) -> (r: StandardsVersion)
    requires
        releases.len() > 0,
    ensures
        r@ == releases[0].version@,
{
    StandardsVersion(copy_parts(&releases[0].version.0))
}

/// The latest version of the policy: that of the first release listed.
/// `None` where no list of releases is at hand, or an empty one.
pub fn latest_standards_version_opt(
    releases: Option<&Vec<PolicyRelease>>,
) -> (r: Option<StandardsVersion>)
    ensures
        match r {
            Some(v) => releases matches Some(l) && l.len() > 0 && v@ == l[0].version@,
            None => releases matches Some(l) ==> l.len() == 0,
        },
{
    match releases {
        Some(l) => if l.len() > 0 {
            Some(latest_standards_version(l))
        } else {
            None
        },
        None => None,
    }
}

fn copy_parts(v: &Vec<i32>) -> (r: Vec<i32>)
    ensures
        r@ == v@,
{
    let mut r: Vec<i32> = Vec::new();
    let mut i: usize = 0;
    while i < v.len()
        invariant
            i <= v.len(),
            r@ == v@.take(i as int),
        decreases v.len() - i,
    {
        r.push(v[i]);
        i += 1;
    }
    proof {
        assert(v@.take(v.len() as int) =~= v@);
    }
    r
}

} // verus!
