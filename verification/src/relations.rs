//! Dependency relations of a control file: a list of entries, each a group
//! of alternatives, each alternative a package name with an optional
//! version constraint.

use crate::text::{
    chars_of, first_index, lemma_first_index, lemma_first_index_is, lemma_first_index_none,
    push_all, str_eq, string_of, views,
};
use vstd::prelude::*;

verus! {

/// Whether `debversion` reads the text as a Debian version.
pub uninterp spec fn is_debian_version(text: Seq<char>) -> bool;

/// How `debversion` orders two Debian versions given as text: below zero
/// where the first is the lower one, zero where they are equal, above zero
/// where the first is the higher one.
pub uninterp spec fn version_order(a: Seq<char>, b: Seq<char>) -> int;

/// The names of the first alternatives of a list of entries after
/// `debian-control` has added a new dependency called `name` to a list
/// whose first alternatives were called `names`.
pub uninterp spec fn names_after_dependency(
    names: Seq<Seq<char>>,
    name: Seq<char>,
) -> Seq<Seq<char>>;

/// Where `debian-control` puts a new dependency called `name` into a list
/// of entries whose first alternatives are called `names`.
pub open spec fn dependency_position(names: Seq<Seq<char>>, name: Seq<char>) -> int {
    choose|p: int|
        0 <= p <= names.len() && names_after_dependency(names, name) == names.insert(p, name)
}

/// Calls `debversion`'s `FromStr` for `Version` and tells whether it
/// accepted the text.
#[verifier::external_body]
fn is_debian_version_exec(text: &str) -> (b: bool)
    ensures
        b == is_debian_version(text@),
{
    text.parse::<debversion::Version>().is_ok()
}

/// Calls `debversion`'s `Ord::cmp` on two versions that it has read from
/// the texts, and hands back -1, 0 or 1 for less, equal or greater. Two
/// versions read from the same text are equal.
#[verifier::external_body]
fn version_order_exec(a: &str, b: &str) -> (r: i8)
    requires
        is_debian_version(a@),
        is_debian_version(b@),
    ensures
        r == version_order(a@, b@),
        -1 <= r <= 1,
        a@ == b@ ==> r == 0,
{
    let x = a.parse::<debversion::Version>().unwrap();
    let y = b.parse::<debversion::Version>().unwrap();
    match x.cmp(&y) {
        std::cmp::Ordering::Less => -1,
        std::cmp::Ordering::Equal => 0,
        std::cmp::Ordering::Greater => 1,
    }
}

/// The upstream part of a Debian version given as text, as `debversion`
/// reads it: the text without its epoch and its Debian revision.
pub uninterp spec fn upstream_of(text: Seq<char>) -> Seq<char>;

/// Has `debversion` read the version and hands back its field
/// `upstream_version`.
#[verifier::external_body]
fn upstream_of_exec(text: &str) -> (r: String)
    requires
        is_debian_version(text@),
    ensures
        r@ == upstream_of(text@),
{
    text.parse::<debversion::Version>().unwrap().upstream_version
}

/// Builds a `debian-control` relations list with one plain entry per name,
/// calls `Relations::add_dependency` with a plain entry for `name` and no
/// position, and hands back the names in the order in which the list then
/// holds them: the old names with `name` put in at one place.
#[verifier::external_body]
fn names_with_dependency(names: &Vec<String>, name: &str) -> (r: Vec<String>)
    ensures
        views(r@) == names_after_dependency(views(names@), name@),
        r@.len() == names@.len() + 1,
        exists|p: int| 0 <= p < r@.len() && views(r@) == views(names@).insert(p, name@),
{
    let entries: Vec<debian_control::lossless::relations::Entry> = names.iter().map(
        |n| debian_control::lossless::relations::Relation::simple(n).into(),
    ).collect();
    let mut list = debian_control::lossless::relations::Relations::from(entries);
    list.add_dependency(debian_control::lossless::relations::Relation::simple(name).into(), None);
    list.entries().map(
        |e| e.relations().next().and_then(|r| r.try_name()).unwrap_or_default(),
    ).collect()
}

/// A Debian version, kept as the text that writes it.
pub struct Version {
    text: String,
}

impl View for Version {
    type V = Seq<char>;

    closed spec fn view(&self) -> Seq<char> {
        self.text@
    }
}

impl Version {
    #[verifier::type_invariant]
    spec fn well_formed(self) -> bool {
        is_debian_version(self.text@)
    }

    /// Reads a version. `None` where the text is no Debian version.
    pub fn parse(text: &str) -> (r: Option<Version>)
        ensures
            r is Some <==> is_debian_version(text@),
            r matches Some(v) ==> v@ == text@,
    {
        if is_debian_version_exec(text) {
            Some(Version { text: text.to_owned() })
        } else {
            None
        }
    }

    /// The text of the version.
    pub fn as_str(&self) -> (r: &str)
        ensures
            r@ == self@,
            is_debian_version(r@),
    {
        proof {
            use_type_invariant(self);
        }
        self.text.as_str()
    }

    /// The text of the version.
    pub fn to_string(&self) -> (r: String)
        ensures
            r@ == self@,
    {
        self.text.clone()
    }

    /// The upstream part of the version.
    pub fn upstream_version(&self) -> (r: String)
        ensures
            r@ == upstream_of(self@),
    {
        upstream_of_exec(self.as_str())
    }

    /// Compares two versions in Debian's order: -1, 0 or 1 where `self` is
    /// below, equal to or above `other`.
    pub fn order(&self, other: &Version) -> (r: i8)
        ensures
            r == version_order(self@, other@),
            -1 <= r <= 1,
            self@ == other@ ==> r == 0,
    {
        version_order_exec(self.as_str(), other.as_str())
    }
}

impl Clone for Version {
    fn clone(&self) -> (r: Self)
        ensures
            r@ == self@,
    {
        proof {
            use_type_invariant(self);
        }
        Version { text: self.text.clone() }
    }
}

/// The operator of a version constraint.
#[derive(Clone, Copy, Debug, PartialEq, Eq, Structural)]
pub enum VersionConstraint {
    /// `<<`
    LessThan,
    /// `<=`
    LessThanEqual,
    /// `=`
    Equal,
    /// `>>`
    GreaterThan,
    /// `>=`
    GreaterThanEqual,
}

impl VersionConstraint {
    /// The operator can state a least version: `>=` and `>>`.
    pub open spec fn is_floor(self) -> bool {
        self == VersionConstraint::GreaterThanEqual || self == VersionConstraint::GreaterThan
    }

    /// Whether the operator can state a least version.
    pub fn is_floor_exec(self) -> (r: bool)
        ensures
            r == self.is_floor(),
    {
        self == VersionConstraint::GreaterThanEqual || self == VersionConstraint::GreaterThan
    }
}

/// What a relation says: a package name and, where it has one, a constraint
/// on the version.
pub struct RelationView {
    pub name: Seq<char>,
    pub version: Option<(VersionConstraint, Seq<char>)>,
}

/// One alternative: a package, with or without a version constraint.
pub struct Relation {
    pub name: String,
    pub version: Option<(VersionConstraint, Version)>,
}

impl View for Relation {
    type V = RelationView;

    open spec fn view(&self) -> RelationView {
        RelationView {
            name: self.name@,
            version: match self.version {
                Some((c, v)) => Some((c, v@)),
                None => None,
            },
        }
    }
}

impl Clone for Relation {
    fn clone(&self) -> (r: Self)
        ensures
            r@ == self@,
    {
        Relation {
            name: self.name.clone(),
            version: match &self.version {
                Some((c, v)) => Some((*c, v.clone())),
                None => None,
            },
        }
    }
}

impl Relation {
    /// A relation on `name`, with the constraint given.
    pub fn new(name: &str, version: Option<(VersionConstraint, Version)>) -> (r: Relation)
        ensures
            r.name@ == name@,
            r.version == version,
    {
        Relation { name: name.to_owned(), version }
    }

    /// A relation on `name` without a version constraint.
    pub fn simple(name: &str) -> (r: Relation)
        ensures
            r@ == (RelationView { name: name@, version: None }),
    {
        Relation { name: name.to_owned(), version: None }
    }
}

/// The views of the relations of `v`, in order.
pub open spec fn relation_views(v: Seq<Relation>) -> Seq<RelationView> {
    Seq::new(v.len(), |i: int| v[i]@)
}

/// One entry of a relations list: a group of alternatives, never empty.
pub struct Entry {
    relations: Vec<Relation>,
}

impl View for Entry {
    type V = Seq<RelationView>;

    closed spec fn view(&self) -> Seq<RelationView> {
        relation_views(self.relations@)
    }
}

impl Entry {
    #[verifier::type_invariant]
    spec fn well_formed(self) -> bool {
        self.relations@.len() > 0
    }

    /// An entry with the alternatives given. `None` where there is none.
    pub fn new(relations: Vec<Relation>) -> (r: Option<Entry>)
        ensures
            r is Some <==> relations@.len() > 0,
            r matches Some(e) ==> e@ == relation_views(relations@),
    {
        if relations.len() > 0 {
            Some(Entry { relations })
        } else {
            None
        }
    }

    /// An entry with one alternative.
    pub fn from_relation(relation: Relation) -> (r: Entry)
        ensures
            r@ == seq![relation@],
    {
        let mut relations: Vec<Relation> = Vec::new();
        relations.push(relation);
        proof {
            assert(relation_views(relations@) =~= seq![relation@]);
        }
        Entry { relations }
    }

    /// The number of alternatives, which is at least one.
    pub fn len(&self) -> (n: usize)
        ensures
            n == self@.len(),
            n > 0,
    {
        proof {
            use_type_invariant(self);
        }
        self.relations.len()
    }

    /// The first alternative.
    pub fn first(&self) -> (r: &Relation)
        ensures
            self@.len() > 0,
            r@ == self@[0],
    {
        proof {
            use_type_invariant(self);
        }
        &self.relations[0]
    }

    /// The alternative at index `j`.
    pub fn get(&self, j: usize) -> (r: &Relation)
        requires
            j < self@.len(),
        ensures
            r@ == self@[j as int],
    {
        &self.relations[j]
    }

    /// The alternatives, in order.
    pub fn relations(&self) -> (r: Vec<Relation>)
        ensures
            relation_views(r@) == self@,
    {
        let mut r: Vec<Relation> = Vec::new();
        let mut j: usize = 0;
        while j < self.relations.len()
            invariant
                j <= self.relations.len(),
                relation_views(r@) == relation_views(self.relations@).take(j as int),
            decreases self.relations.len() - j,
        {
            let c = self.relations[j].clone();
            let ghost before = relation_views(r@);
            r.push(c);
            proof {
                assert(relation_views(r@) =~= before.push(c@));
                assert(relation_views(r@) =~= relation_views(self.relations@).take(j + 1));
            }
            j += 1;
        }
        proof {
            assert(relation_views(self.relations@).take(j as int) =~= self@);
        }
        r
    }

    /// The entry with the alternative at index `j` replaced.
    pub fn with_relation(&self, j: usize, relation: Relation) -> (r: Entry)
        requires
            j < self@.len(),
        ensures
            r@ == self@.update(j as int, relation@),
    {
        let mut relations = self.relations();
        relations.set(j, relation);
        proof {
            assert(relation_views(relations@) =~= self@.update(j as int, relation@));
        }
        Entry { relations }
    }

    /// Whether the two entries hold the same alternatives in the same
    /// order.
    pub fn same_as(&self, other: &Entry) -> (r: bool)
        ensures
            r == (self@ == other@),
    {
        proof {
            assert(self@.len() == self.relations@.len());
            assert(other@.len() == other.relations@.len());
        }
        if self.relations.len() != other.relations.len() {
            return false;
        }
        let mut j: usize = 0;
        while j < self.relations.len()
            invariant
                j <= self.relations.len(),
                self.relations.len() == other.relations.len(),
                self@.len() == self.relations@.len(),
                other@.len() == other.relations@.len(),
                forall|k: int| 0 <= k < j ==> self@[k] == other@[k],
            decreases self.relations.len() - j,
        {
            if !same_relation(&self.relations[j], &other.relations[j]) {
                proof {
                    assert(self@[j as int] == self.relations@[j as int]@);
                    assert(other@[j as int] == other.relations@[j as int]@);
                }
                return false;
            }
            proof {
                assert(self@[j as int] == self.relations@[j as int]@);
                assert(other@[j as int] == other.relations@[j as int]@);
            }
            j += 1;
        }
        proof {
            assert(self@ =~= other@);
        }
        true
    }
}

impl Clone for Entry {
    fn clone(&self) -> (r: Self)
        ensures
            r@ == self@,
    {
        proof {
            use_type_invariant(self);
        }
        let relations = self.relations();
        proof {
            assert(relation_views(relations@).len() == relations@.len());
            assert(relation_views(self.relations@).len() == self.relations@.len());
        }
        Entry { relations }
    }
}

/// Whether the two relations say the same.
pub fn same_relation(a: &Relation, b: &Relation) -> (r: bool)
    ensures
        r == (a@ == b@),
{
    if !str_eq(a.name.as_str(), b.name.as_str()) {
        return false;
    }
    match (&a.version, &b.version) {
        (None, None) => true,
        (Some((c, v)), Some((d, w))) => *c == *d && str_eq(v.as_str(), w.as_str()),
        _ => false,
    }
}

/// The views of the entries of `v`, in order.
pub open spec fn entry_views(v: Seq<Entry>) -> Seq<Seq<RelationView>> {
    Seq::new(v.len(), |i: int| v[i]@)
}

/// A relations list: the entries of one dependency field, in the order in
/// which they are written.
pub struct Relations {
    pub entries: Vec<Entry>,
}

impl View for Relations {
    type V = Seq<Seq<RelationView>>;

    open spec fn view(&self) -> Seq<Seq<RelationView>> {
        entry_views(self.entries@)
    }
}

impl Clone for Relations {
    fn clone(&self) -> (r: Self)
        ensures
            r@ == self@,
    {
        let mut entries: Vec<Entry> = Vec::new();
        let mut i: usize = 0;
        while i < self.entries.len()
            invariant
                i <= self.entries.len(),
                entry_views(entries@) == self@.take(i as int),
            decreases self.entries.len() - i,
        {
            let c = self.entries[i].clone();
            let ghost before = entry_views(entries@);
            entries.push(c);
            proof {
                assert(entry_views(entries@) =~= before.push(c@));
                assert(entry_views(entries@) =~= self@.take(i + 1));
            }
            i += 1;
        }
        proof {
            assert(self@.take(i as int) =~= self@);
        }
        Relations { entries }
    }
}

impl Relations {
    /// A list without entries.
    pub fn new() -> (r: Relations)
        ensures
            r@ == Seq::<Seq<RelationView>>::empty(),
    {
        let r = Relations { entries: Vec::new() };
        proof {
            assert(r@ =~= Seq::<Seq<RelationView>>::empty());
        }
        r
    }
}

/// The entry holds an alternative called `name`.
pub open spec fn entry_names(e: Seq<RelationView>, name: Seq<char>) -> bool {
    exists|j: int| 0 <= j < e.len() && (#[trigger] e[j]).name == name
}

/// The list mentions `name`: some alternative of some entry is called
/// `name`.
pub open spec fn mentions(s: Seq<Seq<RelationView>>, name: Seq<char>) -> bool {
    exists|i: int| 0 <= i < s.len() && entry_names(#[trigger] s[i], name)
}

/// The predicate "the entry at this index holds an alternative called
/// `name`" of a list.
pub open spec fn entry_pred(s: Seq<Seq<RelationView>>, name: Seq<char>) -> spec_fn(int) -> bool {
    |i: int| entry_names(s[i], name)
}

/// The predicate "the alternative at this index is called `name`" of an
/// entry.
pub open spec fn relation_pred(e: Seq<RelationView>, name: Seq<char>) -> spec_fn(int) -> bool {
    |j: int| e[j].name == name
}

/// Where the first alternative called `name` stands: the index of the
/// first entry that holds one, and in it the index of the first one.
pub open spec fn find_relation(s: Seq<Seq<RelationView>>, name: Seq<char>) -> Option<(int, int)> {
    match first_index(entry_pred(s, name), 0, s.len() as int) {
        Some(i) => match first_index(relation_pred(s[i], name), 0, s[i].len() as int) {
            Some(j) => Some((i, j)),
            None => None,
        },
        None => None,
    }
}

/// The index of the first alternative of the entry that is called `name`.
pub fn find_in_entry(e: &Entry, name: &str) -> (r: Option<usize>)
    ensures
        r is Some <==> entry_names(e@, name@),
        match r {
            Some(j) => first_index(relation_pred(e@, name@), 0, e@.len() as int) == Some(j as int)
                && j < e@.len() && e@[j as int].name == name@,
            None => first_index(relation_pred(e@, name@), 0, e@.len() as int) is None,
        },
{
    let mut j: usize = 0;
    while j < e.len()
        invariant
            j <= e@.len(),
            forall|k: int| 0 <= k < j ==> !#[trigger] relation_pred(e@, name@)(k),
        decreases e@.len() - j,
    {
        if str_eq(e.get(j).name.as_str(), name) {
            proof {
                lemma_first_index_is(relation_pred(e@, name@), 0, e@.len() as int, j as int);
            }
            return Some(j);
        }
        j += 1;
    }
    proof {
        lemma_first_index_none(relation_pred(e@, name@), 0, e@.len() as int);
        assert forall|k: int| 0 <= k < e@.len() implies (#[trigger] e@[k]).name != name@ by {
            assert(!relation_pred(e@, name@)(k));
        }
    }
    None
}

/// Where the first alternative called `name` stands in the list.
pub fn find(relations: &Relations, name: &str) -> (r: Option<(usize, usize)>)
    ensures
        r is Some <==> mentions(relations@, name@),
        match r {
            Some((i, j)) => find_relation(relations@, name@) == Some((i as int, j as int)) && i
                < relations@.len() && j < relations@[i as int].len()
                && relations@[i as int][j as int].name == name@,
            None => find_relation(relations@, name@) is None,
        },
{
    let mut i: usize = 0;
    while i < relations.entries.len()
        invariant
            i <= relations.entries.len(),
            forall|k: int| 0 <= k < i ==> !#[trigger] entry_pred(relations@, name@)(k),
        decreases relations.entries.len() - i,
    {
        match find_in_entry(&relations.entries[i], name) {
            Some(j) => {
                proof {
                    lemma_first_index_is(
                        entry_pred(relations@, name@),
                        0,
                        relations@.len() as int,
                        i as int,
                    );
                    assert(entry_names(relations@[i as int], name@));
                }
                return Some((i, j));
            },
            None => {
                assert(!entry_pred(relations@, name@)(i as int));
            },
        }
        i += 1;
    }
    proof {
        lemma_first_index_none(entry_pred(relations@, name@), 0, relations@.len() as int);
        assert forall|k: int| 0 <= k < relations@.len() implies !entry_names(
            #[trigger] relations@[k],
            name@,
        ) by {
            assert(!entry_pred(relations@, name@)(k));
        }
    }
    None
}

/// Whether some alternative of some entry is called `name`.
pub fn contains(relations: &Relations, name: &str) -> (r: bool)
    ensures
        r == mentions(relations@, name@),
{
    find(relations, name).is_some()
}

/// Some entry of the list is `entry`.
pub open spec fn has_entry(s: Seq<Seq<RelationView>>, entry: Seq<RelationView>) -> bool {
    exists|i: int| 0 <= i < s.len() && #[trigger] s[i] == entry
}

/// The list with `entry` ensured: as it is where it holds that very entry,
/// and with `entry` after its last entry where it does not.
pub open spec fn relation_ensured(
    s: Seq<Seq<RelationView>>,
    entry: Seq<RelationView>,
) -> Seq<Seq<RelationView>> {
    if has_entry(s, entry) {
        s
    } else {
        s.push(entry)
    }
}

/// Makes sure that the list holds `entry`: appends it as a new entry unless
/// an entry with the same alternatives in the same order is there. Returns
/// whether it was appended. No other entry is touched, and alternatives
/// within an entry are not compared with `entry` one by one.
pub fn ensure_relation(relations: &mut Relations, entry: Entry) -> (changed: bool)
    ensures
        final(relations)@ == relation_ensured(old(relations)@, entry@),
        changed == !has_entry(old(relations)@, entry@),
{
    let mut i: usize = 0;
    while i < relations.entries.len()
        invariant
            i <= relations.entries.len(),
            *relations == *old(relations),
            forall|k: int| 0 <= k < i ==> #[trigger] relations@[k] != entry@,
        decreases relations.entries.len() - i,
    {
        if relations.entries[i].same_as(&entry) {
            assert(relations@[i as int] == entry@);
            return false;
        }
        i += 1;
    }
    relations.entries.push(entry);
    proof {
        assert(relations@ =~= old(relations)@.push(entry@));
    }
    true
}

/// The names of the first alternatives of the entries, in order.
pub open spec fn first_names(s: Seq<Seq<RelationView>>) -> Seq<Seq<char>> {
    Seq::new(s.len(), |i: int| s[i][0].name)
}

/// The relation has no version, or one below `min`.
pub open spec fn below_floor(r: RelationView, min: Seq<char>) -> bool {
    match r.version {
        Some((_, v)) => version_order(v, min) < 0,
        None => true,
    }
}

/// The relation with its version raised to `min`. The operator stays where
/// it can state a least version, and becomes `>=` where it cannot or where
/// there was none.
pub open spec fn raised(r: RelationView, min: Seq<char>) -> RelationView {
    RelationView {
        name: r.name,
        version: Some(
            (
                match r.version {
                    Some((c, _)) => if c.is_floor() {
                        c
                    } else {
                        VersionConstraint::GreaterThanEqual
                    },
                    None => VersionConstraint::GreaterThanEqual,
                },
                min,
            ),
        ),
    }
}

/// The relation `name (>= min)`.
pub open spec fn floor_relation(name: Seq<char>, min: Seq<char>) -> RelationView {
    RelationView { name, version: Some((VersionConstraint::GreaterThanEqual, min)) }
}

/// What ensuring the least version `min` makes of a relation, where
/// `order` says how the version that the relation has orders against `min`:
/// the raised relation where it has no version or `order` is below zero,
/// and nothing where the relation can stay.
pub open spec fn raised_by_order(r: RelationView, min: Seq<char>, order: int) -> Option<
    RelationView,
> {
    if r.version is None || order < 0 {
        Some(raised(r, min))
    } else {
        None
    }
}

/// Raises a relation to the least version `minimum_version`, given how its
/// own version orders against that one: below zero for lower, zero for
/// equal, above zero for higher. A relation without a version is raised
/// whatever `order` is. Returns the raised relation, or `None` where the
/// relation asks for enough as it is.
pub fn raise_relation(relation: &Relation, minimum_version: &Version, order: i8) -> (r: Option<
    Relation,
>)
    ensures
        match r {
            Some(x) => raised_by_order(relation@, minimum_version@, order as int) == Some(x@),
            None => raised_by_order(relation@, minimum_version@, order as int) is None,
        },
{
    let operator = match &relation.version {
        Some((c, _)) => {
            if order >= 0 {
                return None;
            }
            if c.is_floor_exec() {
                *c
            } else {
                VersionConstraint::GreaterThanEqual
            }
        },
        None => VersionConstraint::GreaterThanEqual,
    };
    Some(Relation { name: relation.name.clone(), version: Some((operator, minimum_version.clone())) })
}

/// The predicate "the two lists differ at this index, or the second ends
/// before it".
pub open spec fn differs_pred(names: Seq<Seq<char>>, after: Seq<Seq<char>>) -> spec_fn(
    int,
) -> bool {
    |t: int| t >= after.len() || after[t] != names[t]
}

/// The first index at which `after` does not hold what `names` holds, and
/// the length of `names` where there is none: the place of the one name
/// that `after` has more, where it is `names` with one new name put in.
pub open spec fn first_difference(names: Seq<Seq<char>>, after: Seq<Seq<char>>) -> int {
    match first_index(differs_pred(names, after), 0, names.len() as int) {
        Some(t) => t,
        None => names.len() as int,
    }
}

/// Where a new name went: the first index at which `after` does not hold
/// the name that `names` holds there, and the length of `names` where
/// `after` begins with all of `names`.
pub fn new_entry_place(names: &Vec<String>, after: &Vec<String>) -> (at: usize)
    ensures
        at == first_difference(views(names@), views(after@)),
        at <= names@.len(),
{
    let mut at: usize = 0;
    while at < names.len()
        invariant
            at <= names.len(),
            forall|t: int| 0 <= t < at ==> !#[trigger] differs_pred(views(names@), views(after@))(t),
        decreases names.len() - at,
    {
        proof {
            assert(views(names@)[at as int] == names@[at as int]@);
        }
        if at >= after.len() {
            proof {
                lemma_first_index_is(
                    differs_pred(views(names@), views(after@)),
                    0,
                    names.len() as int,
                    at as int,
                );
            }
            return at;
        }
        proof {
            assert(views(after@)[at as int] == after@[at as int]@);
        }
        if !str_eq(after[at].as_str(), names[at].as_str()) {
            proof {
                lemma_first_index_is(
                    differs_pred(views(names@), views(after@)),
                    0,
                    names.len() as int,
                    at as int,
                );
            }
            return at;
        }
        at += 1;
    }
    proof {
        lemma_first_index_none(differs_pred(views(names@), views(after@)), 0, names.len() as int);
    }
    at
}

/// A list that got one name that it did not hold, at index `p`, first
/// differs from what it was at `p`.
pub proof fn lemma_first_difference_of_insert(names: Seq<Seq<char>>, name: Seq<char>, p: int)
    requires
        0 <= p <= names.len(),
        forall|t: int| 0 <= t < names.len() ==> (#[trigger] names[t]) != name,
    ensures
        first_difference(names, names.insert(p, name)) == p,
{
    let after = names.insert(p, name);
    let d = differs_pred(names, after);
    if p < names.len() {
        assert forall|t: int| 0 <= t < p implies !#[trigger] d(t) by {
            assert(after[t] == names[t]);
        }
        assert(d(p)) by {
            assert(after[p] == name);
        }
        lemma_first_index_is(d, 0, names.len() as int, p);
    } else {
        assert forall|t: int| 0 <= t < names.len() implies !#[trigger] d(t) by {
            assert(after[t] == names[t]);
        }
        lemma_first_index_none(d, 0, names.len() as int);
    }
}

/// The list with `min` ensured as the least version of `name`.
///
/// Where no alternative is called `name`, the list gets the new entry
/// `name (>= min)`, at the place where `debian-control` puts a new
/// dependency. Where the first alternative called `name` has no version or
/// one below `min`, that alternative is raised. Otherwise the list stays as
/// it is.
pub open spec fn minimum_version_ensured(
    s: Seq<Seq<RelationView>>,
    name: Seq<char>,
    min: Seq<char>,
) -> Seq<Seq<RelationView>> {
    match find_relation(s, name) {
        None => s.insert(
            dependency_position(first_names(s), name),
            seq![floor_relation(name, min)],
        ),
        Some((i, j)) => if below_floor(s[i][j], min) {
            s.update(i, s[i].update(j, raised(s[i][j], min)))
        } else {
            s
        },
    }
}

/// Whether ensuring `min` as the least version of `name` changes the list.
pub open spec fn minimum_version_missing(
    s: Seq<Seq<RelationView>>,
    name: Seq<char>,
    min: Seq<char>,
) -> bool {
    match find_relation(s, name) {
        None => true,
        Some((i, j)) => below_floor(s[i][j], min),
    }
}

/// Makes sure that the list asks for at least version `minimum_version` of
/// `name`, and returns whether it changed the list. Entries other than the
/// one that is raised or added keep their place and their content, and
/// ensuring the same version of the same name once more changes nothing.
pub fn ensure_minimum_version(
    relations: &mut Relations,
    name: &str,
    minimum_version: &Version,
) -> (changed: bool)
    ensures
        final(relations)@ == minimum_version_ensured(old(relations)@, name@, minimum_version@),
        changed == minimum_version_missing(old(relations)@, name@, minimum_version@),
        !mentions(old(relations)@, name@) ==> changed && exists|p: int|
            0 <= p <= old(relations)@.len() && final(relations)@ == old(relations)@.insert(
                p,
                seq![floor_relation(name@, minimum_version@)],
            ),
        mentions(old(relations)@, name@) && changed ==> exists|i: int, j: int|
            0 <= i < old(relations)@.len() && 0 <= j < old(relations)@[i].len() && old(
                relations,
            )@[i][j].name == name@ && final(relations)@ == old(relations)@.update(
                i,
                old(relations)@[i].update(j, raised(old(relations)@[i][j], minimum_version@)),
            ),
        minimum_version_ensured(final(relations)@, name@, minimum_version@) == final(relations)@,
        !minimum_version_missing(final(relations)@, name@, minimum_version@),
{
    // The version is asked how it orders against itself: the answer is
    // what lets a second call find the relation high enough.
    let _same: i8 = minimum_version.order(minimum_version);
    proof {
        assert(version_order(minimum_version@, minimum_version@) == 0);
        if find_relation(relations@, name@) is Some {
            lemma_ensure_minimum_version_twice(relations@, name@, minimum_version@);
        }
    }
    match find(relations, name) {
        Some((i, j)) => {
            let entry = &relations.entries[i];
            let found = entry.get(j);
            let order: i8 = match &found.version {
                Some((_, v)) => v.order(minimum_version),
                None => 0,
            };
            match raise_relation(found, minimum_version, order) {
                None => false,
                Some(relation) => {
                    let entry = entry.with_relation(j, relation);
                    relations.entries.set(i, entry);
                    proof {
                        let s = old(relations)@;
                        assert(relations@ =~= s.update(
                            i as int,
                            s[i as int].update(
                                j as int,
                                raised(s[i as int][j as int], minimum_version@),
                            ),
                        ));
                    }
                    true
                },
            }
        },
        None => {
            let mut names: Vec<String> = Vec::new();
            let mut k: usize = 0;
            while k < relations.entries.len()
                invariant
                    k <= relations.entries.len(),
                    *relations == *old(relations),
                    !mentions(relations@, name@),
                    views(names@) == first_names(relations@).take(k as int),
                    forall|t: int| 0 <= t < k ==> (#[trigger] views(names@)[t]) != name@,
                decreases relations.entries.len() - k,
            {
                let e = &relations.entries[k];
                let first = e.first().name.clone();
                let ghost before = views(names@);
                names.push(first);
                proof {
                    assert(e@ == relations@[k as int]);
                    assert(!entry_names(relations@[k as int], name@));
                    assert(e@[0].name != name@);
                    assert(views(names@) =~= before.push(first@));
                    assert(views(names@) =~= first_names(relations@).take(k + 1));
                }
                k += 1;
            }
            proof {
                assert(first_names(relations@).take(k as int) =~= first_names(relations@));
            }
            let after = names_with_dependency(&names, name);
            let at = new_entry_place(&names, &after);
            let ghost p = dependency_position(first_names(relations@), name@);
            proof {
                let q = choose|q: int|
                    0 <= q < after@.len() && views(after@) == views(names@).insert(q, name@);
                assert(0 <= q <= views(names@).len() && names_after_dependency(
                    views(names@),
                    name@,
                ) == views(names@).insert(q, name@));
                lemma_first_difference_of_insert(views(names@), name@, p);
            }
            let entry = Entry::from_relation(
                Relation {
                    name: name.to_owned(),
                    version: Some((VersionConstraint::GreaterThanEqual, minimum_version.clone())),
                },
            );
            relations.entries.insert(at, entry);
            proof {
                assert(relations@ =~= old(relations)@.insert(
                    p,
                    seq![floor_relation(name@, minimum_version@)],
                ));
                lemma_new_entry_is_found(old(relations)@, name@, minimum_version@, p);
            }
            true
        },
    }
}

/// A list whose first alternative called `name` asks for `name (>= v1)` is
/// left as it is when a least version `v2` is ensured that `v1` is not
/// below.
pub proof fn lemma_floor_already_met(
    s: Seq<Seq<RelationView>>,
    name: Seq<char>,
    v1: Seq<char>,
    v2: Seq<char>,
)
    requires
        find_relation(s, name) matches Some((i, j)) && s[i][j] == floor_relation(name, v1),
        version_order(v1, v2) >= 0,
    ensures
        minimum_version_ensured(s, name, v2) == s,
        !minimum_version_missing(s, name, v2),
{
}

/// In a list that got the entry `name (>= min)` and did not mention `name`
/// before, that entry holds the first alternative called `name`.
pub proof fn lemma_new_entry_is_found(
    s: Seq<Seq<RelationView>>,
    name: Seq<char>,
    min: Seq<char>,
    p: int,
)
    requires
        !mentions(s, name),
        0 <= p <= s.len(),
    ensures
        find_relation(s.insert(p, seq![floor_relation(name, min)]), name) == Some((p, 0int)),
{
    let e = seq![floor_relation(name, min)];
    let t = s.insert(p, e);
    assert forall|k: int| 0 <= k < p implies !#[trigger] entry_pred(t, name)(k) by {
        assert(t[k] == s[k]);
        assert(!entry_names(s[k], name));
    }
    assert(t[p] == e);
    assert(e[0].name == name);
    assert(entry_names(e, name));
    assert(entry_pred(t, name)(p));
    lemma_first_index_is(entry_pred(t, name), 0, t.len() as int, p);
    assert(relation_pred(e, name)(0));
    lemma_first_index_is(relation_pred(e, name), 0, e.len() as int, 0);
}

/// Ensuring a least version twice in a row is the same as ensuring it
/// once, where the version is not below itself. `debversion` orders a
/// version as equal to itself, which `ensure_minimum_version` learns from
/// it and states of the list it leaves.
pub proof fn lemma_ensure_minimum_version_twice(
    s: Seq<Seq<RelationView>>,
    name: Seq<char>,
    min: Seq<char>,
)
    requires
        find_relation(s, name) is Some,
        version_order(min, min) >= 0,
    ensures
        minimum_version_ensured(minimum_version_ensured(s, name, min), name, min)
            == minimum_version_ensured(s, name, min),
        !minimum_version_missing(minimum_version_ensured(s, name, min), name, min),
{
    let (i, j) = find_relation(s, name).unwrap();
    lemma_first_index(entry_pred(s, name), 0, s.len() as int);
    lemma_first_index(relation_pred(s[i], name), 0, s[i].len() as int);
    if below_floor(s[i][j], min) {
        let e = s[i].update(j, raised(s[i][j], min));
        let t = s.update(i, e);
        assert(t == minimum_version_ensured(s, name, min));
        assert forall|k: int| 0 <= k < j implies !#[trigger] relation_pred(e, name)(k) by {
            assert(!relation_pred(s[i], name)(k));
        }
        assert(relation_pred(e, name)(j));
        lemma_first_index_is(relation_pred(e, name), 0, e.len() as int, j);
        assert(entry_names(e, name)) by {
            assert(e[j].name == name);
        }
        assert forall|k: int| 0 <= k < i implies !#[trigger] entry_pred(t, name)(k) by {
            assert(!entry_pred(s, name)(k));
            assert(t[k] == s[k]);
        }
        assert(entry_pred(t, name)(i));
        lemma_first_index_is(entry_pred(t, name), 0, t.len() as int, i);
        assert(find_relation(t, name) == Some((i, j)));
    }
}

/// The characters that write an operator.
pub open spec fn constraint_text(c: VersionConstraint) -> Seq<char> {
    match c {
        VersionConstraint::LessThan => seq!['<', '<'],
        VersionConstraint::LessThanEqual => seq!['<', '='],
        VersionConstraint::Equal => seq!['='],
        VersionConstraint::GreaterThan => seq!['>', '>'],
        VersionConstraint::GreaterThanEqual => seq!['>', '='],
    }
}

/// The text that writes a relation: the name, and where there is a
/// constraint a space and, in round brackets, the operator, a space and
/// the version.
pub open spec fn relation_text(r: RelationView) -> Seq<char> {
    match r.version {
        Some((c, v)) => r.name + seq![' ', '('] + constraint_text(c) + seq![' '] + v + seq![')'],
        None => r.name,
    }
}

/// The text that writes the alternatives of an entry from index `j` on,
/// with ` | ` between them.
pub open spec fn entry_text_from(e: Seq<RelationView>, j: int) -> Seq<char>
    decreases e.len() - j,
{
    if j < 0 || j >= e.len() {
        Seq::empty()
    } else if j == e.len() - 1 {
        relation_text(e[j])
    } else {
        relation_text(e[j]) + seq![' ', '|', ' '] + entry_text_from(e, j + 1)
    }
}

/// The text that writes an entry.
pub open spec fn entry_text(e: Seq<RelationView>) -> Seq<char> {
    entry_text_from(e, 0)
}

/// The text that writes the entries of a list from index `i` on, with a
/// comma and a space between them.
pub open spec fn relations_text_from(s: Seq<Seq<RelationView>>, i: int) -> Seq<char>
    decreases s.len() - i,
{
    if i < 0 || i >= s.len() {
        Seq::empty()
    } else if i == s.len() - 1 {
        entry_text(s[i])
    } else {
        entry_text(s[i]) + seq![',', ' '] + relations_text_from(s, i + 1)
    }
}

/// The text that writes a relations list.
pub open spec fn relations_text(s: Seq<Seq<RelationView>>) -> Seq<char> {
    relations_text_from(s, 0)
}

fn push_relation_text(out: &mut Vec<char>, r: &Relation)
    ensures
        final(out)@ == old(out)@ + relation_text(r@),
{
    let name = chars_of(r.name.as_str());
    push_all(out, &name);
    match &r.version {
        Some((c, v)) => {
            out.push(' ');
            out.push('(');
            match c {
                VersionConstraint::LessThan => {
                    out.push('<');
                    out.push('<');
                },
                VersionConstraint::LessThanEqual => {
                    out.push('<');
                    out.push('=');
                },
                VersionConstraint::Equal => {
                    out.push('=');
                },
                VersionConstraint::GreaterThan => {
                    out.push('>');
                    out.push('>');
                },
                VersionConstraint::GreaterThanEqual => {
                    out.push('>');
                    out.push('=');
                },
            }
            out.push(' ');
            let version = chars_of(v.as_str());
            push_all(out, &version);
            out.push(')');
            proof {
                assert(out@ =~= old(out)@ + relation_text(r@));
            }
        },
        None => {},
    }
}

fn push_entry_text(out: &mut Vec<char>, e: &Entry)
    ensures
        final(out)@ == old(out)@ + entry_text(e@),
{
    let mut j: usize = 0;
    proof {
        assert(out@ + entry_text_from(e@, 0) =~= old(out)@ + entry_text(e@));
    }
    while j < e.len()
        invariant
            j <= e@.len(),
            out@ + entry_text_from(e@, j as int) == old(out)@ + entry_text(e@),
        decreases e@.len() - j,
    {
        let ghost before = out@;
        push_relation_text(out, e.get(j));
        if j + 1 < e.len() {
            out.push(' ');
            out.push('|');
            out.push(' ');
            proof {
                assert(out@ + entry_text_from(e@, j + 1) =~= before + (relation_text(e@[j as int])
                    + seq![' ', '|', ' '] + entry_text_from(e@, j + 1)));
            }
        } else {
            proof {
                assert(out@ + entry_text_from(e@, j + 1) =~= before + relation_text(e@[j as int]));
            }
        }
        j += 1;
    }
    proof {
        assert(out@ + entry_text_from(e@, j as int) =~= out@);
    }
}

impl Entry {
    /// The text that writes the entry, as in `a (>= 1) | b`.
    pub fn to_string(&self) -> (r: String)
        ensures
            r@ == entry_text(self@),
    {
        let mut out: Vec<char> = Vec::new();
        push_entry_text(&mut out, self);
        string_of(&out)
    }
}

impl Relations {
    /// The text that writes the list, as in `a (>= 1) | b, c`.
    pub fn to_string(&self) -> (r: String)
        ensures
            r@ == relations_text(self@),
    {
        let mut out: Vec<char> = Vec::new();
        let mut i: usize = 0;
        proof {
            assert(out@ + relations_text_from(self@, 0) =~= relations_text(self@));
        }
        while i < self.entries.len()
            invariant
                i <= self.entries.len(),
                out@ + relations_text_from(self@, i as int) == relations_text(self@),
            decreases self.entries.len() - i,
        {
            let ghost before = out@;
            push_entry_text(&mut out, &self.entries[i]);
            proof {
                assert(self@[i as int] == self.entries@[i as int]@);
            }
            if i + 1 < self.entries.len() {
                out.push(',');
                out.push(' ');
                proof {
                    assert(out@ + relations_text_from(self@, i + 1) =~= before + (entry_text(
                        self@[i as int],
                    ) + seq![',', ' '] + relations_text_from(self@, i + 1)));
                }
            } else {
                proof {
                    assert(out@ + relations_text_from(self@, i + 1) =~= before + entry_text(
                        self@[i as int],
                    ));
                }
            }
            i += 1;
        }
        proof {
            assert(out@ + relations_text_from(self@, i as int) =~= out@);
        }
        string_of(&out)
    }
}

/// Ensuring the same entry twice in a row is the same as ensuring it once.
pub proof fn lemma_ensure_relation_twice(s: Seq<Seq<RelationView>>, entry: Seq<RelationView>)
    ensures
        relation_ensured(relation_ensured(s, entry), entry) == relation_ensured(s, entry),
{
    if !has_entry(s, entry) {
        let t = s.push(entry);
        assert(t[s.len() as int] == entry);
    }
}

} // verus!
