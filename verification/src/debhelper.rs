//! The debhelper compat level of a package, and the version of debhelper
//! that it build-depends on.

use crate::control::{field_value, get_field, PlainControl, PlainSource, PlainSourceView};
use crate::relations::{
    contains, ensure_minimum_version, entry_names, find, find_in_entry, find_relation,
    floor_relation, mentions, raised, Entry,
    minimum_version_ensured, minimum_version_missing, Relations, RelationView, upstream_of, Version,
    version_order, VersionConstraint,
};
use crate::text::{
    char_pred, chars_of, find_char, first_index, occurs_at_exec, parse_u8, parse_u8_exec, push_all,
    slice_of, starts_with, string_of, trim, trim_exec, views,
};
use vstd::prelude::*;

verus! {

/// The text up to, not including, its first `#`.
pub open spec fn before_hash(s: Seq<char>) -> Seq<char> {
    match first_index(char_pred(s, '#'), 0, s.len() as int) {
        Some(i) => s.subrange(0, i),
        None => s,
    }
}

/// The compat level that a text states: the number up to 255 that stands,
/// between optional whitespace, before the first `#` or the end.
pub open spec fn compat_of_text(s: Seq<char>) -> Option<u8> {
    parse_u8(trim(before_hash(s)))
}

fn compat_of_chars(s: &Vec<char>) -> (r: Option<u8>)
    ensures
        r == compat_of_text(s@),
{
    let head = match find_char(s, '#') {
        Some(i) => slice_of(s, 0, i),
        None => {
            proof {
                assert(s@.subrange(0, s.len() as int) =~= s@);
            }
            slice_of(s, 0, s.len())
        },
    };
    let trimmed = trim_exec(&head);
    parse_u8_exec(&trimmed)
}

/// Reads the debhelper compat level from the content of a `debian/compat`
/// file or from the value of a compat field. What follows a `#` is a
/// comment.
pub fn parse_debhelper_compat(s: &str) -> (r: Option<u8>)
    ensures
        r == compat_of_text(s@),
{
    let chars = chars_of(s);
    compat_of_chars(&chars)
}

/// The compat level that the version of a `debhelper-compat` relation
/// states: the version read as a number up to 255.
pub open spec fn compat_of_relation(r: RelationView) -> Option<u8> {
    match r.version {
        Some((_, v)) => parse_u8(v),
        None => None,
    }
}

/// The compat level that a source paragraph states. The field
/// `X-DH-Compat` decides where it is there, whatever the build
/// dependencies say. Without it the first `debhelper-compat` relation of
/// `Build-Depends` decides.
pub open spec fn compat_of_source(source: PlainSourceView) -> Option<u8> {
    match field_value(source.fields, "X-DH-Compat"@) {
        Some(v) => compat_of_text(v),
        None => match source.build_depends {
            Some(s) => match find_relation(s, "debhelper-compat"@) {
                Some((i, j)) => compat_of_relation(s[i][j]),
                None => None,
            },
            None => None,
        },
    }
}

/// The compat level that a control file states, if it has a source
/// paragraph that states one.
pub open spec fn compat_of_control(control: PlainControl) -> Option<u8> {
    match control.source {
        Some(source) => compat_of_source(source@),
        None => None,
    }
}

/// The debhelper compat level that a control file states.
pub fn get_debhelper_compat_level_from_control(control: &PlainControl) -> (r: Option<u8>)
    ensures
        r == compat_of_control(*control),
        control.source matches Some(source) ==> (field_value(source@.fields, "X-DH-Compat"@)
            matches Some(v) ==> r == compat_of_text(v)),
{
    let source = match &control.source {
        Some(source) => source,
        None => {
            return None;
        },
    };
    match get_field(&source.fields, "X-DH-Compat") {
        Some(value) => {
            return parse_debhelper_compat(value.as_str());
        },
        None => {},
    }
    let build_depends = match &source.build_depends {
        Some(b) => b,
        None => {
            return None;
        },
    };
    match find(build_depends, "debhelper-compat") {
        Some((i, j)) => {
            match &build_depends.entries[i].get(j).version {
                Some((_, v)) => {
                    let text = chars_of(v.as_str());
                    parse_u8_exec(&text)
                },
                None => None,
            }
        },
        None => None,
    }
}

/// The compat level of a package given what `debian/compat` holds, where
/// the file is there, and what `debian/control` holds, where it is there.
/// The file decides where it states a level; otherwise the control file
/// does.
pub open spec fn compat_of_package(
    compat_file: Option<Seq<char>>,
    control: Option<PlainControl>,
) -> Option<u8> {
    let from_file = match compat_file {
        Some(text) => compat_of_text(text),
        None => None,
    };
    match from_file {
        Some(level) => Some(level),
        None => match control {
            Some(c) => compat_of_control(c),
            None => None,
        },
    }
}

/// The debhelper compat level of a package, from the content of its
/// `debian/compat` file and from its control file, either of which may be
/// missing.
pub fn get_debhelper_compat_level(
    compat_file: Option<&str>,
    control: Option<&PlainControl>,
) -> (r: Option<u8>)
    ensures
        r == compat_of_package(
            match compat_file {
                Some(t) => Some(t@),
                None => None,
            },
            match control {
                Some(c) => Some(*c),
                None => None,
            },
        ),
{
    let from_file = match compat_file {
        Some(text) => parse_debhelper_compat(text),
        None => None,
    };
    match from_file {
        Some(level) => Some(level),
        None => match control {
            Some(c) => get_debhelper_compat_level_from_control(c),
            None => None,
        },
    }
}

/// The compat levels that the installed debhelper supports, as
/// `dh_assistant supported-compat-levels` reports them.
#[derive(Clone, Copy, Debug, PartialEq, Eq)]
pub struct SupportedCompatLevels {
    pub highest_stable_compat_level: u8,
    pub lowest_non_deprecated_compat_level: u8,
    pub lowest_virtual_debhelper_compat_level: u8,
    pub max_compat_level: u8,
    pub min_compat_level: u8,
    pub min_compat_level_not_scheduled_for_removal: u8,
}

/// The lowest debhelper compat level that is not deprecated.
pub fn lowest_non_deprecated_compat_level(levels: &SupportedCompatLevels) -> (r: u8)
    ensures
        r == levels.lowest_non_deprecated_compat_level,
{
    levels.lowest_non_deprecated_compat_level
}

/// The highest stable debhelper compat level.
pub fn highest_stable_compat_level(levels: &SupportedCompatLevels) -> (r: u8)
    ensures
        r == levels.highest_stable_compat_level,
{
    levels.highest_stable_compat_level
}

/// The debhelper version of one release.
pub struct ReleaseVersion {
    pub release: String,
    pub version: Version,
}

/// The predicate "the entry at this index is for `release`" of a table.
pub open spec fn release_pred(table: Seq<ReleaseVersion>, release: Seq<char>) -> spec_fn(
    int,
) -> bool {
    |i: int| table[i].release@ == release
}

/// The text up to, not including, its first `.`.
pub open spec fn before_dot(s: Seq<char>) -> Seq<char> {
    match first_index(char_pred(s, '.'), 0, s.len() as int) {
        Some(i) => s.subrange(0, i),
        None => s,
    }
}

/// The major number that the upstream part of a version begins with: what
/// it holds before the first `.`, read as a number up to 255.
pub open spec fn major_number(upstream: Seq<char>) -> Option<u8> {
    parse_u8(before_dot(upstream))
}

/// The major number of a debhelper version: that of its upstream part.
pub open spec fn major_of(version: Seq<char>) -> Option<u8> {
    major_number(upstream_of(version))
}

/// Reads the major number off the upstream part of a version: what stands
/// before its first `.`, or all of it where it has none, read as
/// `u8::from_str` reads a number. `None` where that is not an optional `+`
/// and one or more digits, or makes a number above 255.
pub fn major_number_of(upstream: &str) -> (r: Option<u8>)
    ensures
        r == major_number(upstream@),
{
    let chars = chars_of(upstream);
    let head = match find_char(&chars, '.') {
        Some(k) => slice_of(&chars, 0, k),
        None => {
            proof {
                assert(chars@.subrange(0, chars.len() as int) =~= chars@);
            }
            slice_of(&chars, 0, chars.len())
        },
    };
    parse_u8_exec(&head)
}

/// The highest compat level that the debhelper of a release supports: the
/// major number of the first version that the table holds for the release,
/// and the lowest level that is not deprecated where the table does not
/// know the release. `None` where the version in the table has no major
/// number.
pub open spec fn maximum_compat(
    release: Seq<char>,
    table: Seq<ReleaseVersion>,
    levels: SupportedCompatLevels,
) -> Option<u8> {
    match first_index(release_pred(table, release), 0, table.len() as int) {
        Some(i) => major_of(table[i].version@),
        None => Some(levels.lowest_non_deprecated_compat_level),
    }
}

fn maximum_compat_exec(
    compat_release: &str,
    debhelper_versions: &Vec<ReleaseVersion>,
    levels: &SupportedCompatLevels,
) -> (r: Option<u8>)
    ensures
        r == maximum_compat(compat_release@, debhelper_versions@, *levels),
{
    let mut i: usize = 0;
    while i < debhelper_versions.len()
        invariant
            i <= debhelper_versions.len(),
            forall|k: int|
                0 <= k < i ==> !#[trigger] release_pred(debhelper_versions@, compat_release@)(k),
        decreases debhelper_versions.len() - i,
    {
        if crate::text::str_eq(debhelper_versions[i].release.as_str(), compat_release) {
            proof {
                crate::text::lemma_first_index_is(
                    release_pred(debhelper_versions@, compat_release@),
                    0,
                    debhelper_versions.len() as int,
                    i as int,
                );
            }
            let upstream = debhelper_versions[i].version.upstream_version();
            return major_number_of(upstream.as_str());
        }
        i += 1;
    }
    proof {
        crate::text::lemma_first_index_none(
            release_pred(debhelper_versions@, compat_release@),
            0,
            debhelper_versions.len() as int,
        );
    }
    Some(lowest_non_deprecated_compat_level(levels))
}

/// Whether the table holds a debhelper version for the release. Where it
/// does, the levels that the installed debhelper reports play no part in
/// the highest compat level of the release.
pub fn knows_release(compat_release: &str, debhelper_versions: &Vec<ReleaseVersion>) -> (r: bool)
    ensures
        r == first_index(
            release_pred(debhelper_versions@, compat_release@),
            0,
            debhelper_versions.len() as int,
        ) is Some,
{
    let mut i: usize = 0;
    while i < debhelper_versions.len()
        invariant
            i <= debhelper_versions.len(),
            forall|k: int|
                0 <= k < i ==> !#[trigger] release_pred(debhelper_versions@, compat_release@)(k),
        decreases debhelper_versions.len() - i,
    {
        if crate::text::str_eq(debhelper_versions[i].release.as_str(), compat_release) {
            proof {
                crate::text::lemma_first_index_is(
                    release_pred(debhelper_versions@, compat_release@),
                    0,
                    debhelper_versions.len() as int,
                    i as int,
                );
            }
            return true;
        }
        i += 1;
    }
    proof {
        crate::text::lemma_first_index_none(
            release_pred(debhelper_versions@, compat_release@),
            0,
            debhelper_versions.len() as int,
        );
    }
    false
}

/// The highest debhelper compat level that `compat_release` supports,
/// given the debhelper version of each known release and the levels that
/// the installed debhelper reports.
pub fn maximum_debhelper_compat_version(
    compat_release: &str,
    debhelper_versions: &Vec<ReleaseVersion>,
    levels: &SupportedCompatLevels,
) -> (r: u8)
    requires
        maximum_compat(compat_release@, debhelper_versions@, *levels) is Some,
    ensures
        Some(r) == maximum_compat(compat_release@, debhelper_versions@, *levels),
{
    maximum_compat_exec(compat_release, debhelper_versions, levels).unwrap()
}

/// The highest debhelper compat level that `compat_release` supports.
/// `None` where the table holds a version for the release that does not
/// begin with a number up to 255.
pub fn try_maximum_debhelper_compat_version(
    compat_release: &str,
    debhelper_versions: &Vec<ReleaseVersion>,
    levels: &SupportedCompatLevels,
) -> (r: Option<u8>)
    ensures
        r == maximum_compat(compat_release@, debhelper_versions@, *levels),
{
    if maximum_compat_exec(compat_release, debhelper_versions, levels).is_some() {
        Some(maximum_debhelper_compat_version(compat_release, debhelper_versions, levels))
    } else {
        None
    }
}

/// Why the debhelper version of a package cannot be raised.
#[derive(Debug, Clone, PartialEq, Eq)]
pub enum EnsureDebhelperError {
    /// `debhelper` or `debhelper-compat` stands in `Build-Depends-Indep` or
    /// `Build-Depends-Arch`; the field is named.
    DebhelperInWrongField(String),
    /// The `debhelper-compat` relation has alternatives beside it, or its
    /// constraint is not `=`.
    ComplexDebhelperCompatRule,
    /// The `debhelper-compat` relation has no version.
    DebhelperCompatWithoutVersion,
}

/// What an `EnsureDebhelperError` says.
pub enum EnsureDebhelperErrorView {
    DebhelperInWrongField(Seq<char>),
    ComplexDebhelperCompatRule,
    DebhelperCompatWithoutVersion,
}

impl View for EnsureDebhelperError {
    type V = EnsureDebhelperErrorView;

    open spec fn view(&self) -> EnsureDebhelperErrorView {
        match self {
            EnsureDebhelperError::DebhelperInWrongField(f) => {
                EnsureDebhelperErrorView::DebhelperInWrongField(f@)
            },
            EnsureDebhelperError::ComplexDebhelperCompatRule => {
                EnsureDebhelperErrorView::ComplexDebhelperCompatRule
            },
            EnsureDebhelperError::DebhelperCompatWithoutVersion => {
                EnsureDebhelperErrorView::DebhelperCompatWithoutVersion
            },
        }
    }
}

impl EnsureDebhelperError {
    /// The message of the error.
    pub open spec fn message(self) -> Seq<char> {
        match self {
            EnsureDebhelperError::DebhelperInWrongField(f) => "debhelper in "@ + f@,
            EnsureDebhelperError::ComplexDebhelperCompatRule => {
                "Complex rule for debhelper-compat, aborting"@
            },
            EnsureDebhelperError::DebhelperCompatWithoutVersion => {
                "debhelper-compat without version, aborting"@
            },
        }
    }

    /// The message of the error.
    pub fn to_string(&self) -> (r: String)
        ensures
            r@ == self.message(),
    {
        match self {
            EnsureDebhelperError::DebhelperInWrongField(f) => {
                let mut out = chars_of("debhelper in ");
                let field = chars_of(f.as_str());
                push_all(&mut out, &field);
                string_of(&out)
            },
            EnsureDebhelperError::ComplexDebhelperCompatRule => {
                "Complex rule for debhelper-compat, aborting".to_owned()
            },
            EnsureDebhelperError::DebhelperCompatWithoutVersion => {
                "debhelper-compat without version, aborting".to_owned()
            },
        }
    }
}

/// A relations field that may be absent names `debhelper` or
/// `debhelper-compat`.
pub open spec fn mentions_debhelper(r: Option<Seq<Seq<RelationView>>>) -> bool {
    match r {
        Some(s) => mentions(s, "debhelper-compat"@) || mentions(s, "debhelper"@),
        None => false,
    }
}

/// The dependency field in which debhelper must not stand and does:
/// `Build-Depends-Arch` is looked at before `Build-Depends-Indep`.
pub open spec fn wrong_field(source: PlainSourceView) -> Option<Seq<char>> {
    if mentions_debhelper(source.build_depends_arch) {
        Some("Build-Depends-Arch"@)
    } else if mentions_debhelper(source.build_depends_indep) {
        Some("Build-Depends-Indep"@)
    } else {
        None
    }
}

/// What the `debhelper-compat` entries of a list say of a least version.
pub enum CompatCheck {
    /// An entry has alternatives beside `debhelper-compat`, or a constraint
    /// other than `=`.
    Complex,
    /// An entry has no version.
    WithoutVersion,
    /// An entry pins a level that is not below the least version.
    Satisfied,
    /// No entry decides: there is none, or each pins a lower level.
    Open,
}

/// What one entry that holds `debhelper-compat` says of a least version,
/// where `order` says how the level that the entry pins orders against it:
/// below zero for lower, zero for equal, above zero for higher.
pub open spec fn compat_entry_check(e: Seq<RelationView>, order: int) -> CompatCheck {
    if e.len() > 1 {
        CompatCheck::Complex
    } else {
        match e[0].version {
            None => CompatCheck::WithoutVersion,
            Some((c, _)) => if c != VersionConstraint::Equal {
                CompatCheck::Complex
            } else if order >= 0 {
                CompatCheck::Satisfied
            } else {
                CompatCheck::Open
            },
        }
    }
}

/// How the level that the first alternative of an entry pins orders against
/// `min`; zero where it pins none.
pub open spec fn pinned_order(e: Seq<RelationView>, min: Seq<char>) -> int {
    match e[0].version {
        Some((_, v)) => version_order(v, min),
        None => 0,
    }
}

/// What the entries from index `k` on that hold `debhelper-compat` say of
/// the least version `min`; the first entry that decides, decides.
pub open spec fn compat_check(s: Seq<Seq<RelationView>>, min: Seq<char>, k: int) -> CompatCheck
    decreases s.len() - k,
{
    if k < 0 || k >= s.len() {
        CompatCheck::Open
    } else if !entry_names(s[k], "debhelper-compat"@) {
        compat_check(s, min, k + 1)
    } else {
        match compat_entry_check(s[k], pinned_order(s[k], min)) {
            CompatCheck::Open => compat_check(s, min, k + 1),
            decided => decided,
        }
    }
}

/// Where the entries from `k0` on leave the least version open, each of
/// them that holds `debhelper-compat` does.
proof fn lemma_open_passes(s: Seq<Seq<RelationView>>, min: Seq<char>, k0: int, k: int)
    requires
        compat_check(s, min, k0) == CompatCheck::Open,
        0 <= k0 <= k < s.len(),
        entry_names(s[k], "debhelper-compat"@),
    ensures
        compat_entry_check(s[k], pinned_order(s[k], min)) == CompatCheck::Open,
    decreases k - k0,
{
    if k0 < k {
        assert(compat_check(s, min, k0 + 1) == CompatCheck::Open);
        lemma_open_passes(s, min, k0 + 1, k);
    }
}

/// Two lists that differ in one entry, which holds no `debhelper-compat`
/// in either, say the same of a least version.
proof fn lemma_check_after_update(
    s: Seq<Seq<RelationView>>,
    t: Seq<Seq<RelationView>>,
    min: Seq<char>,
    i: int,
    k: int,
)
    requires
        t.len() == s.len(),
        0 <= i < s.len(),
        forall|x: int| 0 <= x < s.len() && x != i ==> #[trigger] t[x] == s[x],
        !entry_names(s[i], "debhelper-compat"@),
        !entry_names(t[i], "debhelper-compat"@),
        0 <= k,
    ensures
        compat_check(t, min, k) == compat_check(s, min, k),
    decreases s.len() - k,
{
    if k < s.len() {
        lemma_check_after_update(s, t, min, i, k + 1);
        if k != i {
            assert(t[k] == s[k]);
        }
    }
}

/// Behind a new entry the list says of a least version what it said
/// before, one index further on.
proof fn lemma_check_behind_insert(
    s: Seq<Seq<RelationView>>,
    e: Seq<RelationView>,
    p: int,
    min: Seq<char>,
    k: int,
)
    requires
        0 <= p <= k <= s.len(),
    ensures
        compat_check(s.insert(p, e), min, k + 1) == compat_check(s, min, k),
    decreases s.len() - k,
{
    if k < s.len() {
        assert(s.insert(p, e)[k + 1] == s[k]);
        lemma_check_behind_insert(s, e, p, min, k + 1);
    }
}

/// A list that got an entry without `debhelper-compat` says of a least
/// version what it said before.
proof fn lemma_check_after_insert(
    s: Seq<Seq<RelationView>>,
    e: Seq<RelationView>,
    p: int,
    min: Seq<char>,
    k: int,
)
    requires
        0 <= k <= p <= s.len(),
        !entry_names(e, "debhelper-compat"@),
    ensures
        compat_check(s.insert(p, e), min, k) == compat_check(s, min, k),
    decreases p - k,
{
    if k < p {
        assert(s.insert(p, e)[k] == s[k]);
        lemma_check_after_insert(s, e, p, min, k + 1);
    } else {
        assert(s.insert(p, e)[p] == e);
        lemma_check_behind_insert(s, e, p, min, p);
    }
}

/// The main build dependencies of a source paragraph; none where the field
/// is absent.
pub open spec fn build_depends_of(source: PlainSourceView) -> Seq<Seq<RelationView>> {
    match source.build_depends {
        Some(s) => s,
        None => Seq::empty(),
    }
}

/// What raising the debhelper version of a source paragraph to `min`
/// returns: an error, or whether `Build-Depends` changes.
pub open spec fn debhelper_result(
    source: PlainSourceView,
    min: Seq<char>,
) -> Result<bool, EnsureDebhelperErrorView> {
    match wrong_field(source) {
        Some(f) => Err(EnsureDebhelperErrorView::DebhelperInWrongField(f)),
        None => match compat_check(build_depends_of(source), min, 0) {
            CompatCheck::Complex => Err(EnsureDebhelperErrorView::ComplexDebhelperCompatRule),
            CompatCheck::WithoutVersion => Err(
                EnsureDebhelperErrorView::DebhelperCompatWithoutVersion,
            ),
            CompatCheck::Satisfied => Ok(false),
            CompatCheck::Open => Ok(
                minimum_version_missing(build_depends_of(source), "debhelper"@, min),
            ),
        },
    }
}

/// The source paragraph after its debhelper version was raised to `min`:
/// `Build-Depends` asks for `debhelper (>= min)` where that returns
/// `Ok(true)`, and nothing changes where it returns anything else.
pub open spec fn debhelper_raised(source: PlainSourceView, min: Seq<char>) -> PlainSourceView {
    match debhelper_result(source, min) {
        Ok(true) => PlainSourceView {
            build_depends: Some(
                minimum_version_ensured(build_depends_of(source), "debhelper"@, min),
            ),
            ..source
        },
        _ => source,
    }
}

/// The view of what `ensure_minimum_debhelper_version` returns.
pub open spec fn result_view(
    r: Result<bool, EnsureDebhelperError>,
) -> Result<bool, EnsureDebhelperErrorView> {
    match r {
        Ok(b) => Ok(b),
        Err(e) => Err(e@),
    }
}

fn mentions_debhelper_exec(r: &Option<Relations>) -> (b: bool)
    ensures
        b == mentions_debhelper(crate::control::relations_view(*r)),
{
    match r {
        Some(s) => contains(s, "debhelper-compat") || contains(s, "debhelper"),
        None => false,
    }
}

fn compat_check_exec(s: &Relations, min: &Version) -> (r: CompatCheck)
    ensures
        r == compat_check(s@, min@, 0),
{
    let mut k: usize = 0;
    while k < s.entries.len()
        invariant
            k <= s.entries.len(),
            compat_check(s@, min@, 0) == compat_check(s@, min@, k as int),
        decreases s.entries.len() - k,
    {
        let entry = &s.entries[k];
        proof {
            assert(entry@ == s@[k as int]);
        }
        if find_in_entry(entry, "debhelper-compat").is_some() {
            let order: i8 = match &entry.first().version {
                Some((_, v)) => v.order(min),
                None => 0,
            };
            match check_compat_entry(entry, order) {
                CompatCheck::Open => {},
                decided => {
                    return decided;
                },
            }
        }
        k += 1;
    }
    CompatCheck::Open
}

/// What one entry that holds `debhelper-compat` says of a least version,
/// given how the level that the entry pins orders against it: `Complex`
/// for an entry with alternatives or with a constraint other than `=`,
/// `WithoutVersion` for one that pins nothing, `Satisfied` where `order` is
/// not below zero, and `Open` where it is.
pub fn check_compat_entry(entry: &Entry, order: i8) -> (r: CompatCheck)
    ensures
        r == compat_entry_check(entry@, order as int),
{
    if entry.len() > 1 {
        return CompatCheck::Complex;
    }
    match &entry.first().version {
        None => CompatCheck::WithoutVersion,
        Some((c, _)) => {
            if *c != VersionConstraint::Equal {
                CompatCheck::Complex
            } else if order >= 0 {
                CompatCheck::Satisfied
            } else {
                CompatCheck::Open
            }
        },
    }
}

/// Makes sure that the package build-depends on at least version
/// `minimum_version` of debhelper.
///
/// Fails where `debhelper` or `debhelper-compat` stands in
/// `Build-Depends-Arch` or `Build-Depends-Indep`, and where a
/// `debhelper-compat` entry of `Build-Depends` has alternatives, no
/// version, or a constraint other than `=`. A `debhelper-compat` entry that
/// pins a level not below `minimum_version` settles it: nothing changes,
/// and the `debhelper` relation is not looked at. Otherwise the `debhelper`
/// relation of `Build-Depends` is raised or added, and `debhelper-compat`
/// entries stay as they are: where `Build-Depends` did not name
/// `debhelper`, the one entry `debhelper (>= minimum_version)` is put in
/// and every other entry keeps its content and its order. Returns whether
/// `Build-Depends` changed. After a call that returned no error, another
/// one with the same version returns `Ok(false)`, and after any call
/// another one changes nothing.
pub fn ensure_minimum_debhelper_version(
    source: &mut PlainSource,
    minimum_version: &Version,
) -> (r: Result<bool, EnsureDebhelperError>)
    ensures
        result_view(r) == debhelper_result(old(source)@, minimum_version@),
        final(source)@ == debhelper_raised(old(source)@, minimum_version@),
        r == Ok::<bool, EnsureDebhelperError>(true) && !mentions(
            build_depends_of(old(source)@),
            "debhelper"@,
        ) ==> exists|p: int|
            0 <= p <= build_depends_of(old(source)@).len() && final(source)@.build_depends == Some(
                build_depends_of(old(source)@).insert(
                    p,
                    seq![floor_relation("debhelper"@, minimum_version@)],
                ),
            ),
        r is Ok ==> debhelper_result(final(source)@, minimum_version@) == Ok::<
            bool,
            EnsureDebhelperErrorView,
        >(false),
        debhelper_raised(final(source)@, minimum_version@) == final(source)@,
{
    if mentions_debhelper_exec(&source.build_depends_arch) {
        return Err(EnsureDebhelperError::DebhelperInWrongField("Build-Depends-Arch".to_owned()));
    }
    if mentions_debhelper_exec(&source.build_depends_indep) {
        return Err(EnsureDebhelperError::DebhelperInWrongField("Build-Depends-Indep".to_owned()));
    }
    let mut relations = match &source.build_depends {
        Some(r) => r.clone(),
        None => Relations::new(),
    };
    match compat_check_exec(&relations, minimum_version) {
        CompatCheck::Complex => {
            return Err(EnsureDebhelperError::ComplexDebhelperCompatRule);
        },
        CompatCheck::WithoutVersion => {
            return Err(EnsureDebhelperError::DebhelperCompatWithoutVersion);
        },
        CompatCheck::Satisfied => {
            return Ok(false);
        },
        CompatCheck::Open => {},
    }
    let ghost before = relations@;
    let changed = ensure_minimum_version(&mut relations, "debhelper", minimum_version);
    if changed {
        proof {
            let after = relations@;
            let compat = "debhelper-compat"@;
            reveal_strlit("debhelper");
            reveal_strlit("debhelper-compat");
            assert("debhelper"@.len() != compat.len());
            if mentions(before, "debhelper"@) {
                let (i, j) = choose|i: int, j: int|
                    0 <= i < before.len() && 0 <= j < before[i].len() && before[i][j].name
                        == "debhelper"@ && after == before.update(
                        i,
                        before[i].update(j, raised(before[i][j], minimum_version@)),
                    );
                if entry_names(before[i], compat) {
                    lemma_open_passes(before, minimum_version@, 0, i);
                    assert(before[i].len() == 1);
                    assert(before[i][0].name == compat);
                    assert(false);
                }
                assert(!entry_names(after[i], compat)) by {
                    if entry_names(after[i], compat) {
                        let z = choose|z: int|
                            0 <= z < after[i].len() && (#[trigger] after[i][z]).name == compat;
                        assert(before[i][z].name == compat);
                    }
                }
                lemma_check_after_update(before, after, minimum_version@, i, 0);
            } else {
                let e = seq![floor_relation("debhelper"@, minimum_version@)];
                let p = choose|p: int| 0 <= p <= before.len() && after == before.insert(p, e);
                assert(!entry_names(e, compat)) by {
                    if entry_names(e, compat) {
                        let z = choose|z: int| 0 <= z < e.len() && (#[trigger] e[z]).name == compat;
                        assert(e[z].name == "debhelper"@);
                    }
                }
                lemma_check_after_insert(before, e, p, minimum_version@, 0);
            }
            assert(compat_check(after, minimum_version@, 0) == CompatCheck::Open);
        }
        source.build_depends = Some(relations);
    }
    Ok(changed)
}

/// The names of the alternatives of an entry from index `j` on that begin
/// with `prefix`, each without the prefix.
pub open spec fn stripped_names(e: Seq<RelationView>, prefix: Seq<char>, j: int) -> Seq<Seq<char>>
    decreases e.len() - j,
{
    if j < 0 || j >= e.len() {
        Seq::empty()
    } else if starts_with(e[j].name, prefix) {
        seq![e[j].name.subrange(prefix.len() as int, e[j].name.len() as int)] + stripped_names(
            e,
            prefix,
            j + 1,
        )
    } else {
        stripped_names(e, prefix, j + 1)
    }
}

/// The names of the alternatives of the entries from index `i` on that
/// begin with `prefix`, each without the prefix, in the order of the list.
pub open spec fn stripped_names_from(
    s: Seq<Seq<RelationView>>,
    prefix: Seq<char>,
    i: int,
) -> Seq<Seq<char>>
    decreases s.len() - i,
{
    if i < 0 || i >= s.len() {
        Seq::empty()
    } else {
        stripped_names(s[i], prefix, 0) + stripped_names_from(s, prefix, i + 1)
    }
}

/// The debhelper sequences that a source paragraph asks for: the names in
/// `Build-Depends` that begin with `dh-sequence-`, without that prefix, in
/// the order in which the field holds them. A name that stands twice is
/// given twice.
pub open spec fn sequences_of(source: PlainSourceView) -> Seq<Seq<char>> {
    stripped_names_from(build_depends_of(source), "dh-sequence-"@, 0)
}

/// The debhelper sequences that the package pulls in through
/// `Build-Depends`.
pub fn get_sequences(source: &PlainSource) -> (r: Vec<String>)
    ensures
        views(r@) == sequences_of(source@),
{
    let mut out: Vec<String> = Vec::new();
    let relations = match &source.build_depends {
        Some(r) => r,
        None => {
            proof {
                assert(views(out@) =~= sequences_of(source@));
            }
            return out;
        },
    };
    let prefix = chars_of("dh-sequence-");
    let ghost s = relations@;
    let ghost total = stripped_names_from(s, prefix@, 0);
    let mut i: usize = 0;
    proof {
        assert(views(out@) + stripped_names_from(s, prefix@, 0) =~= total);
    }
    while i < relations.entries.len()
        invariant
            i <= relations.entries.len(),
            s == relations@,
            views(out@) + stripped_names_from(s, prefix@, i as int) == total,
        decreases relations.entries.len() - i,
    {
        let entry = &relations.entries[i];
        let ghost rest = stripped_names_from(s, prefix@, i + 1);
        let mut j: usize = 0;
        proof {
            assert(entry@ == s[i as int]);
        }
        while j < entry.len()
            invariant
                j <= entry@.len(),
                entry@ == s[i as int],
                views(out@) + stripped_names(entry@, prefix@, j as int) + rest == total,
            decreases entry@.len() - j,
        {
            let name = chars_of(entry.get(j).name.as_str());
            if occurs_at_exec(&name, &prefix, 0) {
                let piece = slice_of(&name, prefix.len(), name.len());
                let ghost before = views(out@);
                out.push(string_of(&piece));
                proof {
                    assert(views(out@) =~= before.push(piece@));
                    assert(before + (seq![piece@] + stripped_names(entry@, prefix@, j + 1)) + rest
                        =~= before.push(piece@) + stripped_names(entry@, prefix@, j + 1) + rest);
                }
            }
            j += 1;
        }
        proof {
            assert(views(out@) + stripped_names(entry@, prefix@, j as int) + rest =~= views(out@)
                + rest);
        }
        i += 1;
    }
    proof {
        assert(views(out@) + stripped_names_from(s, prefix@, i as int) =~= views(out@));
    }
    out
}

/// The field `X-DH-Compat` decides the compat level where the source
/// paragraph has it, also where `Build-Depends` holds a `debhelper-compat`
/// relation.
pub proof fn lemma_marker_field_wins(source: PlainSourceView, marker: Seq<char>)
    requires
        field_value(source.fields, "X-DH-Compat"@) == Some(marker),
    ensures
        compat_of_source(source) == compat_of_text(marker),
{
}

} // verus!
