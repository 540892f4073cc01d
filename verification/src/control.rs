//! A control file as the library sees it: paragraphs of named fields, with
//! the dependency fields of the source paragraph held as relations.

use crate::relations::{Relations, RelationView};
use crate::text::{
    chars_of, first_index, lemma_first_index_is, lemma_first_index_none, lemma_first_index_same,
};
use vstd::prelude::*;

verus! {

/// The lower-case form of an ASCII capital letter; any other character as
/// it is.
pub open spec fn ascii_lower(c: char) -> char {
    if 'A' <= c <= 'Z' {
        ((c as u8 + 32) as u8) as char
    } else {
        c
    }
}

/// The two texts are equal but for the case of ASCII letters.
pub open spec fn eq_ignore_ascii_case(a: Seq<char>, b: Seq<char>) -> bool {
    a.len() == b.len() && forall|i: int|
        0 <= i < a.len() ==> ascii_lower(#[trigger] a[i]) == ascii_lower(b[i])
}

fn ascii_lower_exec(c: char) -> (r: char)
    ensures
        r == ascii_lower(c),
{
    if 'A' <= c && c <= 'Z' {
        ((c as u8) + 32) as char
    } else {
        c
    }
}

/// Whether the two texts are equal but for the case of ASCII letters.
pub fn eq_ignore_ascii_case_exec(a: &str, b: &str) -> (r: bool)
    ensures
        r == eq_ignore_ascii_case(a@, b@),
{
    let x = chars_of(a);
    let y = chars_of(b);
    if x.len() != y.len() {
        return false;
    }
    let mut i: usize = 0;
    while i < x.len()
        invariant
            i <= x.len(),
            x.len() == y.len(),
            x@ == a@,
            y@ == b@,
            forall|k: int| 0 <= k < i ==> ascii_lower(#[trigger] x@[k]) == ascii_lower(y@[k]),
        decreases x.len() - i,
    {
        if ascii_lower_exec(x[i]) != ascii_lower_exec(y[i]) {
            return false;
        }
        i += 1;
    }
    true
}

/// What a field says: its name and its value.
pub struct FieldView {
    pub name: Seq<char>,
    pub value: Seq<char>,
}

/// One field of a paragraph.
pub struct Field {
    pub name: String,
    pub value: String,
}

impl View for Field {
    type V = FieldView;

    open spec fn view(&self) -> FieldView {
        FieldView { name: self.name@, value: self.value@ }
    }
}

/// The views of the fields of `v`, in order.
pub open spec fn field_views(v: Seq<Field>) -> Seq<FieldView> {
    Seq::new(v.len(), |i: int| v[i]@)
}

/// The predicate "the field at this index is called `name`, whatever the
/// case of its letters" of a paragraph.
pub open spec fn field_pred(fields: Seq<FieldView>, name: Seq<char>) -> spec_fn(int) -> bool {
    |i: int| eq_ignore_ascii_case(fields[i].name, name)
}

/// The index of the first field called `name`.
pub open spec fn field_index(fields: Seq<FieldView>, name: Seq<char>) -> Option<int> {
    first_index(field_pred(fields, name), 0, fields.len() as int)
}

/// The value of the first field called `name`.
pub open spec fn field_value(fields: Seq<FieldView>, name: Seq<char>) -> Option<Seq<char>> {
    match field_index(fields, name) {
        Some(i) => Some(fields[i].value),
        None => None,
    }
}

/// The paragraph with `name` set to `value`: the first field called `name`
/// gets the value and keeps its place and the spelling of its name; where
/// there is none, a new field comes last.
pub open spec fn with_field(
    fields: Seq<FieldView>,
    name: Seq<char>,
    value: Seq<char>,
) -> Seq<FieldView> {
    match field_index(fields, name) {
        Some(i) => fields.update(i, FieldView { name: fields[i].name, value }),
        None => fields.push(FieldView { name, value }),
    }
}

/// The index of the first field called `name`.
pub fn find_field(fields: &Vec<Field>, name: &str) -> (r: Option<usize>)
    ensures
        match r {
            Some(i) => field_index(field_views(fields@), name@) == Some(i as int) && i
                < fields.len(),
            None => field_index(field_views(fields@), name@) is None,
        },
{
    let ghost fv = field_views(fields@);
    let mut i: usize = 0;
    while i < fields.len()
        invariant
            i <= fields.len(),
            fv == field_views(fields@),
            forall|k: int| 0 <= k < i ==> !#[trigger] field_pred(fv, name@)(k),
        decreases fields.len() - i,
    {
        if eq_ignore_ascii_case_exec(fields[i].name.as_str(), name) {
            proof {
                assert(fv[i as int].name == fields@[i as int].name@);
                lemma_first_index_is(field_pred(fv, name@), 0, fv.len() as int, i as int);
            }
            return Some(i);
        }
        proof {
            assert(fv[i as int].name == fields@[i as int].name@);
        }
        i += 1;
    }
    proof {
        lemma_first_index_none(field_pred(fv, name@), 0, fv.len() as int);
    }
    None
}

/// The value of the first field called `name`.
pub fn get_field(fields: &Vec<Field>, name: &str) -> (r: Option<String>)
    ensures
        match r {
            Some(v) => field_value(field_views(fields@), name@) == Some(v@),
            None => field_value(field_views(fields@), name@) is None,
        },
{
    match find_field(fields, name) {
        Some(i) => Some(fields[i].value.clone()),
        None => None,
    }
}

/// Sets the field called `name` to `value`.
pub fn set_field(fields: &mut Vec<Field>, name: &str, value: &str)
    ensures
        field_views(final(fields)@) == with_field(field_views(old(fields)@), name@, value@),
{
    match find_field(fields, name) {
        Some(i) => {
            let field = Field { name: fields[i].name.clone(), value: value.to_owned() };
            fields.set(i, field);
            proof {
                let fv = field_views(old(fields)@);
                assert(field_views(fields@) =~= fv.update(
                    i as int,
                    FieldView { name: fv[i as int].name, value: value@ },
                ));
            }
        },
        None => {
            fields.push(Field { name: name.to_owned(), value: value.to_owned() });
            proof {
                assert(field_views(fields@) =~= field_views(old(fields)@).push(
                    FieldView { name: name@, value: value@ },
                ));
            }
        },
    }
}

/// What the source paragraph says.
pub struct PlainSourceView {
    pub fields: Seq<FieldView>,
    pub build_depends: Option<Seq<Seq<RelationView>>>,
    pub build_depends_indep: Option<Seq<Seq<RelationView>>>,
    pub build_depends_arch: Option<Seq<Seq<RelationView>>>,
}

/// The source paragraph of a control file. The three build-dependency
/// fields are held as relations; every other field is held as text.
pub struct PlainSource {
    pub fields: Vec<Field>,
    pub build_depends: Option<Relations>,
    pub build_depends_indep: Option<Relations>,
    pub build_depends_arch: Option<Relations>,
}

/// The view of a relations field that may be absent.
pub open spec fn relations_view(r: Option<Relations>) -> Option<Seq<Seq<RelationView>>> {
    match r {
        Some(x) => Some(x@),
        None => None,
    }
}

impl View for PlainSource {
    type V = PlainSourceView;

    open spec fn view(&self) -> PlainSourceView {
        PlainSourceView {
            fields: field_views(self.fields@),
            build_depends: relations_view(self.build_depends),
            build_depends_indep: relations_view(self.build_depends_indep),
            build_depends_arch: relations_view(self.build_depends_arch),
        }
    }
}

impl PlainSource {
    /// A source paragraph without fields.
    pub fn new() -> (r: PlainSource)
        ensures
            r@.fields == Seq::<FieldView>::empty(),
            r@.build_depends is None,
            r@.build_depends_indep is None,
            r@.build_depends_arch is None,
    {
        let r = PlainSource {
            fields: Vec::new(),
            build_depends: None,
            build_depends_indep: None,
            build_depends_arch: None,
        };
        proof {
            assert(r@.fields =~= Seq::<FieldView>::empty());
        }
        r
    }
}

/// The source paragraph after the field `name` was set to `value`: the
/// dependency fields stay as they are.
pub open spec fn field_set(
    old: PlainSourceView,
    new: PlainSourceView,
    name: Seq<char>,
    value: Seq<char>,
) -> bool {
    new == (PlainSourceView { fields: with_field(old.fields, name, value), ..old })
}

/// A binary paragraph of a control file, with its fields as text.
pub struct PlainBinary {
    pub fields: Vec<Field>,
}

/// A control file: the source paragraph, where there is one, and the
/// binary paragraphs in order.
pub struct PlainControl {
    pub source: Option<PlainSource>,
    pub binaries: Vec<PlainBinary>,
}

/// Being equal but for the case of ASCII letters goes both ways.
pub proof fn lemma_eq_ignore_ascii_case_symmetric(a: Seq<char>, b: Seq<char>)
    ensures
        eq_ignore_ascii_case(a, b) == eq_ignore_ascii_case(b, a),
{
    if a.len() == b.len() {
        if eq_ignore_ascii_case(a, b) {
            assert forall|i: int| 0 <= i < b.len() implies ascii_lower(#[trigger] b[i])
                == ascii_lower(a[i]) by {
                assert(ascii_lower(a[i]) == ascii_lower(b[i]));
            }
        }
        if eq_ignore_ascii_case(b, a) {
            assert forall|i: int| 0 <= i < a.len() implies ascii_lower(#[trigger] a[i])
                == ascii_lower(b[i]) by {
                assert(ascii_lower(b[i]) == ascii_lower(a[i]));
            }
        }
    }
}

/// Two names that are equal but for the case of ASCII letters are equal
/// to the same names in that way.
pub proof fn lemma_eq_ignore_ascii_case_shared(a: Seq<char>, b: Seq<char>, c: Seq<char>)
    requires
        eq_ignore_ascii_case(a, b),
    ensures
        eq_ignore_ascii_case(c, a) == eq_ignore_ascii_case(c, b),
{
    if c.len() == a.len() {
        if eq_ignore_ascii_case(c, a) {
            assert forall|i: int| 0 <= i < c.len() implies ascii_lower(#[trigger] c[i])
                == ascii_lower(b[i]) by {
                assert(ascii_lower(a[i]) == ascii_lower(b[i]));
            }
        }
        if eq_ignore_ascii_case(c, b) {
            assert forall|i: int| 0 <= i < c.len() implies ascii_lower(#[trigger] c[i])
                == ascii_lower(a[i]) by {
                assert(ascii_lower(a[i]) == ascii_lower(b[i]));
            }
        }
    }
}

/// A field is found under its name whatever the case of the ASCII letters
/// in which the name is asked for.
pub proof fn lemma_field_value_ignores_case(fields: Seq<FieldView>, a: Seq<char>, b: Seq<char>)
    requires
        eq_ignore_ascii_case(a, b),
    ensures
        field_value(fields, a) == field_value(fields, b),
{
    assert forall|i: int| 0 <= i < fields.len() implies #[trigger] field_pred(fields, a)(i)
        == field_pred(fields, b)(i) by {
        lemma_eq_ignore_ascii_case_shared(a, b, fields[i].name);
    }
    lemma_first_index_same(field_pred(fields, a), field_pred(fields, b), 0, fields.len() as int);
}

/// Every name is equal to itself but for the case of ASCII letters.
pub proof fn lemma_eq_ignore_ascii_case_same(a: Seq<char>)
    ensures
        eq_ignore_ascii_case(a, a),
{
}

/// After a field was set, it has the value that it was set to.
pub proof fn lemma_field_value_after_set(fields: Seq<FieldView>, name: Seq<char>, value: Seq<char>)
    ensures
        field_value(with_field(fields, name, value), name) == Some(value),
{
    let n = fields.len() as int;
    let after = with_field(fields, name, value);
    crate::text::lemma_first_index(field_pred(fields, name), 0, n);
    match field_index(fields, name) {
        Some(i) => {
            assert forall|j: int| 0 <= j < n implies #[trigger] field_pred(after, name)(j)
                == field_pred(fields, name)(j) by {}
            lemma_first_index_same(field_pred(after, name), field_pred(fields, name), 0, n);
        },
        None => {
            assert forall|j: int| 0 <= j < n implies !#[trigger] field_pred(after, name)(j) by {
                assert(!field_pred(fields, name)(j));
                assert(after[j] == fields[j]);
            }
            lemma_eq_ignore_ascii_case_same(name);
            assert(field_pred(after, name)(n));
            lemma_first_index_is(field_pred(after, name), 0, n + 1, n);
        },
    }
}

/// Setting a field to the same value twice in a row is the same as setting
/// it once.
pub proof fn lemma_set_field_twice(fields: Seq<FieldView>, name: Seq<char>, value: Seq<char>)
    ensures
        with_field(with_field(fields, name, value), name, value) == with_field(
            fields,
            name,
            value,
        ),
{
    let n = fields.len() as int;
    let after = with_field(fields, name, value);
    crate::text::lemma_first_index(field_pred(fields, name), 0, n);
    match field_index(fields, name) {
        Some(i) => {
            assert forall|j: int| 0 <= j < n implies #[trigger] field_pred(after, name)(j)
                == field_pred(fields, name)(j) by {}
            lemma_first_index_same(field_pred(after, name), field_pred(fields, name), 0, n);
            assert(with_field(after, name, value) =~= after);
        },
        None => {
            assert forall|j: int| 0 <= j < n implies !#[trigger] field_pred(after, name)(j) by {
                assert(!field_pred(fields, name)(j));
                assert(after[j] == fields[j]);
            }
            lemma_eq_ignore_ascii_case_same(name);
            assert(field_pred(after, name)(n));
            lemma_first_index_is(field_pred(after, name), 0, n + 1, n);
            assert(with_field(after, name, value) =~= after);
        },
    }
}

} // verus!
