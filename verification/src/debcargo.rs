//! The packaging manifest `debian/debcargo.toml` and the crate manifest
//! `Cargo.toml` beside it, as far as this library reads and writes them.

use crate::control::{
    ascii_lower, eq_ignore_ascii_case, eq_ignore_ascii_case_exec, lemma_eq_ignore_ascii_case_shared,
    lemma_eq_ignore_ascii_case_symmetric,
};
use crate::text::{
    char_pred, chars_of, decimal, find_char, first_index, join_exec, joined_from, lemma_first_index,
    lemma_first_index_is, lemma_first_index_none, lemma_first_index_same, lemma_first_index_wider,
    lowercase, map_char, map_char_exec, push_all, push_decimal, slice_of, str_eq, string_of, trim,
    trim_exec, views,
};
use vstd::prelude::*;

verus! {

/// The maintainer of a Rust package that names none.
pub const DEFAULT_MAINTAINER: &'static str =
    "Debian Rust Maintainers <pkg-rust-maintainers@alioth-lists.debian.net>";

/// The section of a Rust package that names none.
pub const DEFAULT_SECTION: &'static str = "rust";

/// The standards version of a Rust package that names none.
pub const CURRENT_STANDARDS_VERSION: &'static str = "4.5.1";

/// The priority of a package.
#[derive(Clone, Copy, Debug, PartialEq, Eq, Structural)]
pub enum Priority {
    Required,
    Important,
    Standard,
    Optional,
    Extra,
    Source,
}

/// The priority of a Rust package that names none.
pub const DEFAULT_PRIORITY: Priority = Priority::Optional;

/// How a package may be installed for several architectures at once.
#[derive(Clone, Copy, Debug, PartialEq, Eq, Structural)]
pub enum MultiArch {
    Same,
    Foreign,
    No,
    Allowed,
}

/// What an element of a list says: its text, or `None` where it is no
/// text.
pub type ElementView = Option<Seq<char>>;

/// An element of a list.
pub enum Element {
    Text(String),
    Other,
}

impl View for Element {
    type V = ElementView;

    open spec fn view(&self) -> ElementView {
        match self {
            Element::Text(s) => Some(s@),
            Element::Other => None,
        }
    }
}

/// What a value says.
pub enum ValueView {
    Text(Seq<char>),
    Flag(bool),
    List(Seq<ElementView>),
    Other,
}

/// The value of a key: a text, a boolean, a list, or something else that
/// this library does not read.
pub enum Value {
    Text(String),
    Flag(bool),
    List(Vec<Element>),
    Other,
}

/// The views of the elements of `v`, in order.
pub open spec fn element_views(v: Seq<Element>) -> Seq<ElementView> {
    Seq::new(v.len(), |i: int| v[i]@)
}

impl View for Value {
    type V = ValueView;

    open spec fn view(&self) -> ValueView {
        match self {
            Value::Text(s) => ValueView::Text(s@),
            Value::Flag(b) => ValueView::Flag(*b),
            Value::List(l) => ValueView::List(element_views(l@)),
            Value::Other => ValueView::Other,
        }
    }
}

/// A key with its value.
pub struct KeyValue {
    pub key: String,
    pub value: Value,
}

/// The predicate "the entry at this index has the key `key`" of a table.
pub open spec fn key_pred(entries: Seq<KeyValue>, key: Seq<char>) -> spec_fn(int) -> bool {
    |i: int| entries[i].key@ == key
}

/// The value of the first entry with the key `key`.
pub open spec fn lookup(entries: Seq<KeyValue>, key: Seq<char>) -> Option<ValueView> {
    match first_index(key_pred(entries, key), 0, entries.len() as int) {
        Some(i) => Some(entries[i].value@),
        None => None,
    }
}

/// The text that a value holds, if it is a text.
pub open spec fn text_of(v: Option<ValueView>) -> Option<Seq<char>> {
    match v {
        Some(ValueView::Text(s)) => Some(s),
        _ => None,
    }
}

/// The boolean that a value holds, if it is one.
pub open spec fn flag_of(v: Option<ValueView>) -> Option<bool> {
    match v {
        Some(ValueView::Flag(b)) => Some(b),
        _ => None,
    }
}

/// The elements that a value holds, if it is a list.
pub open spec fn list_of(v: Option<ValueView>) -> Option<Seq<ElementView>> {
    match v {
        Some(ValueView::List(l)) => Some(l),
        _ => None,
    }
}

/// The texts among the elements from index `i` on, in order.
pub open spec fn texts_from(l: Seq<ElementView>, i: int) -> Seq<Seq<char>>
    decreases l.len() - i,
{
    if i < 0 || i >= l.len() {
        Seq::empty()
    } else {
        match l[i] {
            Some(s) => seq![s] + texts_from(l, i + 1),
            None => texts_from(l, i + 1),
        }
    }
}

/// The index of the first entry with the key `key`.
pub fn find_key(entries: &Vec<KeyValue>, key: &str) -> (r: Option<usize>)
    ensures
        match r {
            Some(i) => first_index(key_pred(entries@, key@), 0, entries.len() as int) == Some(
                i as int,
            ) && i < entries.len() && entries@[i as int].key@ == key@,
            None => first_index(key_pred(entries@, key@), 0, entries.len() as int) is None,
        },
{
    let mut i: usize = 0;
    while i < entries.len()
        invariant
            i <= entries.len(),
            forall|k: int| 0 <= k < i ==> !#[trigger] key_pred(entries@, key@)(k),
        decreases entries.len() - i,
    {
        if str_eq(entries[i].key.as_str(), key) {
            proof {
                lemma_first_index_is(key_pred(entries@, key@), 0, entries.len() as int, i as int);
            }
            return Some(i);
        }
        i += 1;
    }
    proof {
        lemma_first_index_none(key_pred(entries@, key@), 0, entries.len() as int);
    }
    None
}

/// The text under `key`, if the key is there and holds a text.
pub fn get_text(entries: &Vec<KeyValue>, key: &str) -> (r: Option<String>)
    ensures
        match r {
            Some(s) => text_of(lookup(entries@, key@)) == Some(s@),
            None => text_of(lookup(entries@, key@)) is None,
        },
{
    match find_key(entries, key) {
        Some(i) => match &entries[i].value {
            Value::Text(s) => Some(s.clone()),
            _ => None,
        },
        None => None,
    }
}

/// The boolean under `key`, if the key is there and holds one.
pub fn get_flag(entries: &Vec<KeyValue>, key: &str) -> (r: Option<bool>)
    ensures
        r == flag_of(lookup(entries@, key@)),
{
    match find_key(entries, key) {
        Some(i) => match &entries[i].value {
            Value::Flag(b) => Some(*b),
            _ => None,
        },
        None => None,
    }
}

/// The texts of the list under `key`, if the key is there and holds a
/// list. Elements that are no texts are left out.
pub fn get_texts(entries: &Vec<KeyValue>, key: &str) -> (r: Option<Vec<String>>)
    ensures
        match r {
            Some(v) => list_of(lookup(entries@, key@)) matches Some(l) && views(v@) == texts_from(
                l,
                0,
            ),
            None => list_of(lookup(entries@, key@)) is None,
        },
{
    match find_key(entries, key) {
        Some(i) => match &entries[i].value {
            Value::List(l) => {
                let ghost lv = element_views(l@);
                let mut out: Vec<String> = Vec::new();
                let mut k: usize = 0;
                proof {
                    assert(views(out@) + texts_from(lv, 0) =~= texts_from(lv, 0));
                }
                while k < l.len()
                    invariant
                        k <= l.len(),
                        lv == element_views(l@),
                        views(out@) + texts_from(lv, k as int) == texts_from(lv, 0),
                    decreases l.len() - k,
                {
                    proof {
                        assert(lv[k as int] == l@[k as int]@);
                    }
                    match &l[k] {
                        Element::Text(s) => {
                            let ghost before = views(out@);
                            out.push(s.clone());
                            proof {
                                assert(views(out@) =~= before.push(s@));
                                assert(before + (seq![s@] + texts_from(lv, k + 1))
                                    =~= before.push(s@) + texts_from(lv, k + 1));
                            }
                        },
                        Element::Other => {},
                    }
                    k += 1;
                }
                proof {
                    assert(views(out@) + texts_from(lv, k as int) =~= views(out@));
                }
                Some(out)
            },
            _ => None,
        },
        None => None,
    }
}

/// The table after `key` was set to `value`: every other key keeps what it
/// had.
pub open spec fn set_in(
    old: Seq<KeyValue>,
    new: Seq<KeyValue>,
    key: Seq<char>,
    value: ValueView,
) -> bool {
    forall|k: Seq<char>| #[trigger]
        lookup(new, k) == (if k == key {
            Some(value)
        } else {
            lookup(old, k)
        })
}

/// Sets `key` to `value`: in the first entry with that key, or in a new
/// last entry where there is none.
pub fn set_value(entries: &mut Vec<KeyValue>, key: &str, value: Value)
    ensures
        set_in(old(entries)@, final(entries)@, key@, value@),
{
    let ghost before = entries@;
    let ghost n = before.len() as int;
    match find_key(entries, key) {
        Some(i) => {
            let entry = KeyValue { key: entries[i].key.clone(), value };
            entries.set(i, entry);
            proof {
                let after = entries@;
                assert forall|k: Seq<char>| #[trigger]
                    lookup(after, k) == (if k == key@ {
                        Some(value@)
                    } else {
                        lookup(before, k)
                    }) by {
                    assert forall|j: int| 0 <= j < n implies #[trigger] key_pred(after, k)(j)
                        == key_pred(before, k)(j) by {
                        if j != i {
                            assert(after[j] == before[j]);
                        }
                    }
                    lemma_first_index_same(key_pred(after, k), key_pred(before, k), 0, n);
                    lemma_first_index(key_pred(before, k), 0, n);
                }
            }
        },
        None => {
            entries.push(KeyValue { key: key.to_owned(), value });
            proof {
                let after = entries@;
                assert forall|k: Seq<char>| #[trigger]
                    lookup(after, k) == (if k == key@ {
                        Some(value@)
                    } else {
                        lookup(before, k)
                    }) by {
                    assert forall|j: int| 0 <= j < n implies #[trigger] key_pred(after, k)(j)
                        == key_pred(before, k)(j) by {
                        assert(after[j] == before[j]);
                    }
                    lemma_first_index_same(key_pred(after, k), key_pred(before, k), 0, n);
                    lemma_first_index_wider(key_pred(after, k), 0, n);
                    lemma_first_index(key_pred(before, k), 0, n);
                }
            }
        },
    }
}

/// A table of the manifest with its name.
pub struct Table {
    pub name: String,
    pub entries: Vec<KeyValue>,
}

/// The predicate "the table at this index is called `name`" of a list of
/// tables.
pub open spec fn table_pred(tables: Seq<Table>, name: Seq<char>) -> spec_fn(int) -> bool {
    |i: int| tables[i].name@ == name
}

/// The entries of the first table called `name`; none where there is no
/// such table.
pub open spec fn table_entries(tables: Seq<Table>, name: Seq<char>) -> Seq<KeyValue> {
    match first_index(table_pred(tables, name), 0, tables.len() as int) {
        Some(i) => tables[i].entries@,
        None => Seq::empty(),
    }
}

/// The index of the first table called `name`.
pub fn find_table(tables: &Vec<Table>, name: &str) -> (r: Option<usize>)
    ensures
        match r {
            Some(i) => first_index(table_pred(tables@, name@), 0, tables.len() as int) == Some(
                i as int,
            ) && i < tables.len() && tables@[i as int].name@ == name@,
            None => first_index(table_pred(tables@, name@), 0, tables.len() as int) is None,
        },
{
    let mut i: usize = 0;
    while i < tables.len()
        invariant
            i <= tables.len(),
            forall|k: int| 0 <= k < i ==> !#[trigger] table_pred(tables@, name@)(k),
        decreases tables.len() - i,
    {
        if str_eq(tables[i].name.as_str(), name) {
            proof {
                lemma_first_index_is(table_pred(tables@, name@), 0, tables.len() as int, i as int);
            }
            return Some(i);
        }
        i += 1;
    }
    proof {
        lemma_first_index_none(table_pred(tables@, name@), 0, tables.len() as int);
    }
    None
}

/// `debian/debcargo.toml`: its plain values and its tables, each in the
/// order of the file.
pub struct Debcargo {
    pub values: Vec<KeyValue>,
    pub tables: Vec<Table>,
}

/// `Cargo.toml`: the table `package`, and the names of the features where
/// there is a table `features`, in the order of the file. A table holds no
/// key twice, so a list read from a file holds no name twice; nothing here
/// relies on that, and a name that a list does hold twice counts once
/// wherever package names are made from it.
pub struct Cargo {
    pub package: Option<Vec<KeyValue>>,
    pub features: Option<Vec<String>>,
}

/// A crate version: major, minor and patch number.
#[derive(Clone, Copy, Debug, PartialEq, Eq, Structural)]
pub struct CrateVersion {
    pub major: u64,
    pub minor: u64,
    pub patch: u64,
}

/// The numbers of what `semver` reads as a version; `None` where it
/// refuses the text.
pub uninterp spec fn semver_of(text: Seq<char>) -> Option<CrateVersion>;

/// Calls `semver::Version::parse` and hands back the major, minor and
/// patch number of what it read.
#[verifier::external_body]
fn semver_of_exec(text: &str) -> (r: Option<CrateVersion>)
    ensures
        r == semver_of(text@),
{
    match semver::Version::parse(text) {
        Ok(v) => Some(CrateVersion { major: v.major, minor: v.minor, patch: v.patch }),
        Err(_) => None,
    }
}

/// The line without the carriage return at its end, where it has one.
pub open spec fn without_carriage_return(line: Seq<char>) -> Seq<char> {
    if line.len() > 0 && line.last() == '\r' {
        line.drop_last()
    } else {
        line
    }
}

/// The lines of a text: what stands between its line feeds, each line
/// without the carriage return before its line feed. What follows the
/// last line feed is a line only where it is not empty.
pub open spec fn lines_of(s: Seq<char>) -> Seq<Seq<char>> {
    let pieces = crate::text::split_range(s, '\n', 0, s.len() as int);
    let ended = Seq::new((pieces.len() - 1) as nat, |i: int| without_carriage_return(pieces[i]));
    if pieces.last().len() == 0 {
        ended
    } else {
        ended.push(pieces.last())
    }
}

/// How a `Description` field writes one line of a long description: after
/// a space, and as ` .` where the line holds nothing but whitespace.
pub open spec fn description_line(line: Seq<char>) -> Seq<char> {
    if trim(line).len() == 0 {
        seq![' ', '.']
    } else {
        seq![' '] + line
    }
}

/// The lines of a long description from index `i` on as a `Description`
/// field writes them, each after a line feed.
pub open spec fn description_lines(lines: Seq<Seq<char>>, i: int) -> Seq<char>
    decreases lines.len() - i,
{
    if i < 0 || i >= lines.len() {
        Seq::empty()
    } else {
        seq!['\n'] + description_line(lines[i]) + description_lines(lines, i + 1)
    }
}

/// The text of a `Description` field: the summary, and the lines of the
/// long description under it.
pub open spec fn formatted_description(summary: Seq<char>, long: Seq<char>) -> Seq<char> {
    summary + description_lines(lines_of(long), 0)
}

/// The text of a `Description` field for a summary and a long
/// description.
pub fn format_description(summary: &str, long: &str) -> (r: String)
    ensures
        r@ == formatted_description(summary@, long@),
{
    let text = chars_of(long);
    let pieces = crate::text::split_exec(&text, '\n', 0, text.len());
    let ghost pv = crate::text::char_views(pieces@);
    proof {
        lemma_split_has_a_piece(text@, '\n', 0, 0, text.len() as int);
    }
    let last = pieces.len() - 1;
    let mut lines: Vec<Vec<char>> = Vec::new();
    let mut i: usize = 0;
    while i < last
        invariant
            i <= last,
            last == pieces.len() - 1,
            pv == crate::text::char_views(pieces@),
            crate::text::char_views(lines@) == Seq::new(
                (pv.len() - 1) as nat,
                |k: int| without_carriage_return(pv[k]),
            ).take(i as int),
        decreases last - i,
    {
        let piece = &pieces[i];
        proof {
            assert(pv[i as int] == piece@);
        }
        let line = if piece.len() > 0 && piece[piece.len() - 1] == '\r' {
            let cut = slice_of(piece, 0, piece.len() - 1);
            proof {
                assert(cut@ =~= piece@.drop_last());
            }
            cut
        } else {
            let whole = slice_of(piece, 0, piece.len());
            proof {
                assert(whole@ =~= piece@);
            }
            whole
        };
        let ghost before = crate::text::char_views(lines@);
        lines.push(line);
        proof {
            assert(crate::text::char_views(lines@) =~= before.push(
                without_carriage_return(pv[i as int]),
            ));
            assert(crate::text::char_views(lines@) =~= Seq::new(
                (pv.len() - 1) as nat,
                |k: int| without_carriage_return(pv[k]),
            ).take(i + 1));
        }
        i += 1;
    }
    proof {
        let ended = Seq::new((pv.len() - 1) as nat, |k: int| without_carriage_return(pv[k]));
        assert(ended.take(i as int) =~= ended);
        assert(pv[last as int] == pieces@[last as int]@);
    }
    if pieces[last].len() > 0 {
        let whole = slice_of(&pieces[last], 0, pieces[last].len());
        proof {
            assert(whole@ =~= pieces@[last as int]@);
        }
        let ghost before = crate::text::char_views(lines@);
        lines.push(whole);
        proof {
            assert(crate::text::char_views(lines@) =~= before.push(pv[last as int]));
        }
    }
    let ghost lv = crate::text::char_views(lines@);
    assert(lv == lines_of(long@));
    let mut out = chars_of(summary);
    let mut k: usize = 0;
    proof {
        assert(out@ + description_lines(lv, 0) =~= formatted_description(summary@, long@));
    }
    while k < lines.len()
        invariant
            k <= lines.len(),
            lv == crate::text::char_views(lines@),
            out@ + description_lines(lv, k as int) == formatted_description(summary@, long@),
        decreases lines.len() - k,
    {
        let ghost before = out@;
        proof {
            assert(lv[k as int] == lines@[k as int]@);
        }
        out.push('\n');
        let trimmed = trim_exec(&lines[k]);
        if trimmed.len() == 0 {
            out.push(' ');
            out.push('.');
        } else {
            out.push(' ');
            push_all(&mut out, &lines[k]);
        }
        proof {
            assert(out@ =~= before + (seq!['\n'] + description_line(lv[k as int])));
            assert(out@ + description_lines(lv, k + 1) =~= before + (seq!['\n']
                + description_line(lv[k as int]) + description_lines(lv, k + 1)));
        }
        k += 1;
    }
    proof {
        assert(out@ + description_lines(lv, k as int) =~= out@);
    }
    string_of(&out)
}

/// Cutting a text always gives at least one piece.
pub proof fn lemma_split_has_a_piece(s: Seq<char>, c: char, start: int, k: int, end: int)
    ensures
        crate::text::split_scan(s, c, start, k, end).len() > 0,
    decreases end - k,
{
    if k < end {
        if s[k] == c {
            lemma_split_has_a_piece(s, c, k + 1, k + 1, end);
        } else {
            lemma_split_has_a_piece(s, c, start, k + 1, end);
        }
    }
}

/// A crate name as a Debian package name writes it: in lower case, with
/// `-` for `_`.
pub open spec fn debnormalized(s: Seq<char>) -> Seq<char> {
    map_char(lowercase(s), '_', '-')
}

/// Turns a crate name into the form that Debian package names use.
pub fn debnormalize(s: &str) -> (r: String)
    ensures
        r@ == debnormalized(s@),
{
    let lower = s.to_lowercase();
    let chars = chars_of(lower.as_str());
    let mapped = map_char_exec(&chars, '_', '-');
    string_of(&mapped)
}

/// The major and minor number of a version, joined by a dot.
pub open spec fn semver_paired(v: CrateVersion) -> Seq<char> {
    decimal(v.major as nat) + seq!['.'] + decimal(v.minor as nat)
}

/// The major and minor number of a crate version, as in `1.2`.
pub fn semver_pair(v: &CrateVersion) -> (r: String)
    ensures
        r@ == semver_paired(*v),
{
    let mut out: Vec<char> = Vec::new();
    push_decimal(&mut out, v.major);
    out.push('.');
    push_decimal(&mut out, v.minor);
    proof {
        assert(out@ =~= semver_paired(*v));
    }
    string_of(&out)
}

/// The name of the library package of a crate: `librust-`, the normalized
/// crate name, the suffix, and `-dev`.
pub open spec fn binary_name(crate_name: Seq<char>, suffix: Seq<char>) -> Seq<char> {
    "librust-"@ + debnormalized(crate_name) + suffix + "-dev"@
}

/// The name of the library package of a crate.
pub fn debcargo_binary_name(crate_name: &str, suffix: &str) -> (r: String)
    ensures
        r@ == binary_name(crate_name@, suffix@),
{
    let mut out = chars_of("librust-");
    let name = debnormalize(crate_name);
    let name_chars = chars_of(name.as_str());
    push_all(&mut out, &name_chars);
    let suffix_chars = chars_of(suffix);
    push_all(&mut out, &suffix_chars);
    let tail = chars_of("-dev");
    push_all(&mut out, &tail);
    string_of(&out)
}

/// Turns a version as debcargo mangles it back into the crate's version:
/// every `~` becomes `-`.
pub fn unmangle_debcargo_version(version: &str) -> (r: String)
    ensures
        r@ == map_char(version@, '~', '-'),
{
    let chars = chars_of(version);
    let mapped = map_char_exec(&chars, '~', '-');
    string_of(&mapped)
}

/// The three texts one after another.
fn concat3(a: &str, b: &str, c: &str) -> (r: String)
    ensures
        r@ == a@ + b@ + c@,
{
    let mut out = chars_of(a);
    let y = chars_of(b);
    push_all(&mut out, &y);
    let z = chars_of(c);
    push_all(&mut out, &z);
    string_of(&out)
}

/// The two texts one after the other.
fn concat2(a: &str, b: &str) -> (r: String)
    ensures
        r@ == a@ + b@,
{
    let mut out = chars_of(a);
    let y = chars_of(b);
    push_all(&mut out, &y);
    string_of(&out)
}

/// Every lookup gives the same in both tables.
pub open spec fn same_lookups(a: Seq<KeyValue>, b: Seq<KeyValue>) -> bool {
    forall|k: Seq<char>| #[trigger] lookup(a, k) == lookup(b, k)
}

fn clone_value(v: &Value) -> (r: Value)
    ensures
        r@ == v@,
{
    match v {
        Value::Text(s) => Value::Text(s.clone()),
        Value::Flag(b) => Value::Flag(*b),
        Value::List(l) => {
            let mut out: Vec<Element> = Vec::new();
            let mut i: usize = 0;
            while i < l.len()
                invariant
                    i <= l.len(),
                    element_views(out@) == element_views(l@).take(i as int),
                decreases l.len() - i,
            {
                let e = match &l[i] {
                    Element::Text(s) => Element::Text(s.clone()),
                    Element::Other => Element::Other,
                };
                let ghost before = element_views(out@);
                out.push(e);
                proof {
                    assert(element_views(out@) =~= before.push(e@));
                    assert(element_views(out@) =~= element_views(l@).take(i + 1));
                }
                i += 1;
            }
            proof {
                assert(element_views(l@).take(i as int) =~= element_views(l@));
            }
            Value::List(out)
        },
        Value::Other => Value::Other,
    }
}

fn clone_entries(entries: &Vec<KeyValue>) -> (r: Vec<KeyValue>)
    ensures
        same_lookups(r@, entries@),
{
    let mut out: Vec<KeyValue> = Vec::new();
    let mut i: usize = 0;
    while i < entries.len()
        invariant
            i <= entries.len(),
            out.len() == i,
            forall|j: int|
                0 <= j < i ==> (#[trigger] out@[j]).key@ == entries@[j].key@ && out@[j].value@
                    == entries@[j].value@,
        decreases entries.len() - i,
    {
        out.push(KeyValue { key: entries[i].key.clone(), value: clone_value(&entries[i].value) });
        i += 1;
    }
    proof {
        assert forall|k: Seq<char>| #[trigger] lookup(out@, k) == lookup(entries@, k) by {
            assert forall|j: int| 0 <= j < out@.len() implies #[trigger] key_pred(out@, k)(j)
                == key_pred(entries@, k)(j) by {
                assert(out@[j].key@ == entries@[j].key@);
            }
            lemma_first_index_same(
                key_pred(out@, k),
                key_pred(entries@, k),
                0,
                out@.len() as int,
            );
            lemma_first_index(key_pred(entries@, k), 0, entries@.len() as int);
        }
    }
    out
}

/// The source package that a packaging manifest and the crate manifest
/// beside it describe.
pub struct DebcargoSource {
    /// What `debian/debcargo.toml` holds.
    pub debcargo: Debcargo,
    /// What `Cargo.toml` holds, where it was read.
    pub cargo: Option<Cargo>,
}

/// The manifest after `key` of the table `source` was set to `value`: the
/// crate manifest, the plain values and every other key of every table
/// keep what they had.
pub open spec fn source_set(
    old: DebcargoSource,
    new: DebcargoSource,
    key: Seq<char>,
    value: ValueView,
) -> bool {
    &&& new.cargo == old.cargo
    &&& new.debcargo.values == old.debcargo.values
    &&& forall|name: Seq<char>, k: Seq<char>| #[trigger]
        lookup(table_entries(new.debcargo.tables@, name), k) == (if name == "source"@ && k
            == key {
            Some(value)
        } else {
            lookup(table_entries(old.debcargo.tables@, name), k)
        })
}

/// The text of a line from `at` on, without the whitespace around it.
pub open spec fn field_text(line: Seq<char>, at: int) -> Seq<char> {
    trim(line.subrange(at, line.len() as int))
}

/// The line writes the field `name`: it begins with the name, whatever
/// the case of its ASCII letters, and a colon.
pub open spec fn writes_field(line: Seq<char>, name: Seq<char>) -> bool {
    line.len() > name.len() && eq_ignore_ascii_case(line.subrange(0, name.len() as int), name)
        && line[name.len() as int] == ':'
}

/// The predicate "the line at this index writes the field `name`" of a
/// list of lines.
pub open spec fn line_pred(lines: Seq<Seq<char>>, name: Seq<char>) -> spec_fn(int) -> bool {
    |i: int| writes_field(lines[i], name)
}

/// The value of the field `name` in a list of lines: what the first line
/// that writes the field holds after the colon, without the whitespace
/// around it.
pub open spec fn extra_field(lines: Seq<Seq<char>>, name: Seq<char>) -> Option<Seq<char>> {
    match first_index(line_pred(lines, name), 0, lines.len() as int) {
        Some(i) => Some(field_text(lines[i], name.len() as int + 1)),
        None => None,
    }
}

/// The line that writes `name` with `value`.
pub open spec fn field_line(name: Seq<char>, value: Seq<char>) -> Seq<char> {
    name + ": "@ + value
}

/// The lines with the field `name` set to `value`: the first line that
/// writes the field is replaced, and where there is none a new line comes
/// last.
pub open spec fn with_extra_field(
    lines: Seq<Seq<char>>,
    name: Seq<char>,
    value: Seq<char>,
) -> Seq<Seq<char>> {
    match first_index(line_pred(lines, name), 0, lines.len() as int) {
        Some(i) => lines.update(i, field_line(name, value)),
        None => lines.push(field_line(name, value)),
    }
}

/// The lines from index `i` on that do not write the field `name`.
pub open spec fn without_extra_field(
    lines: Seq<Seq<char>>,
    name: Seq<char>,
    i: int,
) -> Seq<Seq<char>>
    decreases lines.len() - i,
{
    if i < 0 || i >= lines.len() {
        Seq::empty()
    } else if writes_field(lines[i], name) {
        without_extra_field(lines, name, i + 1)
    } else {
        seq![lines[i]] + without_extra_field(lines, name, i + 1)
    }
}

/// The lines from index `i` on that differ from `line`.
pub open spec fn without_line(lines: Seq<Seq<char>>, line: Seq<char>, i: int) -> Seq<Seq<char>>
    decreases lines.len() - i,
{
    if i < 0 || i >= lines.len() {
        Seq::empty()
    } else if lines[i] == line {
        without_line(lines, line, i + 1)
    } else {
        seq![lines[i]] + without_line(lines, line, i + 1)
    }
}

/// The elements that write the texts of `lines`, in order.
pub open spec fn text_elements(lines: Seq<Seq<char>>) -> Seq<ElementView> {
    Seq::new(lines.len(), |i: int| Some(lines[i]))
}

/// The texts among the elements that write `lines` are `lines`.
pub proof fn lemma_texts_of_text_elements(lines: Seq<Seq<char>>, i: int)
    requires
        0 <= i <= lines.len(),
    ensures
        texts_from(text_elements(lines), i) == lines.subrange(i, lines.len() as int),
    decreases lines.len() - i,
{
    if i < lines.len() {
        lemma_texts_of_text_elements(lines, i + 1);
        assert(seq![lines[i]] + lines.subrange(i + 1, lines.len() as int) =~= lines.subrange(
            i,
            lines.len() as int,
        ));
    } else {
        assert(lines.subrange(i, lines.len() as int) =~= Seq::<Seq<char>>::empty());
    }
}

fn writes_field_exec(line: &str, name: &str) -> (r: bool)
    ensures
        r == writes_field(line@, name@),
{
    let l = chars_of(line);
    let n = chars_of(name);
    if l.len() <= n.len() {
        return false;
    }
    let head = slice_of(&l, 0, n.len());
    let head_text = string_of(&head);
    eq_ignore_ascii_case_exec(head_text.as_str(), name) && l[n.len()] == ':'
}

fn field_text_exec(line: &str, name: &str) -> (r: String)
    requires
        writes_field(line@, name@),
    ensures
        r@ == field_text(line@, name@.len() as int + 1),
{
    let l = chars_of(line);
    let n = chars_of(name);
    assert(n.len() < l.len());
    let rest = slice_of(&l, n.len() + 1, l.len());
    let value = trim_exec(&rest);
    string_of(&value)
}

fn find_line(lines: &Vec<String>, name: &str) -> (r: Option<usize>)
    ensures
        match r {
            Some(i) => first_index(line_pred(views(lines@), name@), 0, lines.len() as int)
                == Some(i as int) && i < lines.len(),
            None => first_index(line_pred(views(lines@), name@), 0, lines.len() as int)
                is None,
        },
{
    let ghost lv = views(lines@);
    let mut i: usize = 0;
    while i < lines.len()
        invariant
            i <= lines.len(),
            lv == views(lines@),
            forall|k: int| 0 <= k < i ==> !#[trigger] line_pred(lv, name@)(k),
        decreases lines.len() - i,
    {
        proof {
            assert(lv[i as int] == lines@[i as int]@);
        }
        if writes_field_exec(lines[i].as_str(), name) {
            proof {
                lemma_first_index_is(line_pred(lv, name@), 0, lv.len() as int, i as int);
            }
            return Some(i);
        }
        i += 1;
    }
    proof {
        lemma_first_index_none(line_pred(lv, name@), 0, lv.len() as int);
    }
    None
}

/// The kinds of version control that the manifest has keys of its own for.
pub enum NativeVcs {
    Git,
    Browser,
}

/// The key of its own that a kind of version control has, whatever the
/// case of the ASCII letters of its name.
pub open spec fn native_vcs(vcs_type: Seq<char>) -> Option<NativeVcs> {
    if eq_ignore_ascii_case(vcs_type, "git"@) {
        Some(NativeVcs::Git)
    } else if eq_ignore_ascii_case(vcs_type, "browser"@) {
        Some(NativeVcs::Browser)
    } else {
        None
    }
}

fn native_vcs_exec(vcs_type: &str) -> (r: Option<NativeVcs>)
    ensures
        r == native_vcs(vcs_type@),
{
    if eq_ignore_ascii_case_exec(vcs_type, "git") {
        Some(NativeVcs::Git)
    } else if eq_ignore_ascii_case_exec(vcs_type, "browser") {
        Some(NativeVcs::Browser)
    } else {
        None
    }
}

/// The name of the control field for a kind of version control.
pub open spec fn vcs_field_name(vcs_type: Seq<char>) -> Seq<char> {
    "Vcs-"@ + vcs_type
}

/// The view of an optional string.
pub open spec fn text_view(s: Option<String>) -> Option<Seq<char>> {
    match s {
        Some(t) => Some(t@),
        None => None,
    }
}

/// The manifest after the URL of the package under one kind of version
/// control was set. `Git` and `Browser`, in any case of letters, go to the
/// keys of their own; any other kind goes to the extra lines as the field
/// `Vcs-` and the kind, and leaves every other key as it is.
pub open spec fn vcs_url_set(
    old: DebcargoSource,
    new: DebcargoSource,
    vcs_type: Seq<char>,
    url: Seq<char>,
) -> bool {
    match native_vcs(vcs_type) {
        Some(NativeVcs::Git) => source_set(old, new, "vcs_git"@, ValueView::Text(url)),
        Some(NativeVcs::Browser) => source_set(old, new, "vcs_browser"@, ValueView::Text(url)),
        None => {
            let lines = with_extra_field(old.extra_lines_spec(), vcs_field_name(vcs_type), url);
            source_set(old, new, "extra_lines"@, ValueView::List(text_elements(lines)))
                && new.extra_lines_spec() == lines
        },
    }
}

impl DebcargoSource {
    /// The value of `key` in the table `source`.
    pub open spec fn source_value(self, key: Seq<char>) -> Option<ValueView> {
        lookup(table_entries(self.debcargo.tables@, "source"@), key)
    }

    /// The value of `key` in the table `package` of the crate manifest.
    pub open spec fn package_value(self, key: Seq<char>) -> Option<ValueView> {
        match self.cargo {
            Some(c) => match c.package {
                Some(p) => lookup(p@, key),
                None => None,
            },
            None => None,
        }
    }

    /// The name of the crate, where the crate manifest gives one.
    pub open spec fn crate_name_spec(self) -> Option<Seq<char>> {
        text_of(self.package_value("name"@))
    }

    /// The version of the crate, where the crate manifest gives one that
    /// `semver` reads.
    pub open spec fn crate_version_spec(self) -> Option<CrateVersion> {
        match text_of(self.package_value("version"@)) {
            Some(t) => semver_of(t),
            None => None,
        }
    }

    /// Whether package names carry the major and minor version: the
    /// boolean `semver_suffix` of the table `source`, and `false` without
    /// it.
    pub open spec fn semver_suffix_spec(self) -> bool {
        match flag_of(self.source_value("semver_suffix"@)) {
            Some(b) => b,
            None => false,
        }
    }

    /// The name of the source package.
    pub open spec fn name_spec(self) -> Option<Seq<char>> {
        match self.crate_name_spec() {
            None => None,
            Some(n) => if self.semver_suffix_spec() {
                match self.crate_version_spec() {
                    Some(v) => Some("rust-"@ + debnormalized(n) + "-"@ + semver_paired(v)),
                    None => None,
                }
            } else {
                Some("rust-"@ + debnormalized(n))
            },
        }
    }

    /// The extra lines of the source paragraph: the texts of the list
    /// `extra_lines` of the table `source`.
    pub open spec fn extra_lines_spec(self) -> Seq<Seq<char>> {
        match list_of(self.source_value("extra_lines"@)) {
            Some(l) => texts_from(l, 0),
            None => Seq::empty(),
        }
    }

    /// The Git URL: the text `vcs_git` of the table `source`, and without
    /// it the place of the crate in the Rust team's repository.
    pub open spec fn vcs_git_spec(self) -> Option<Seq<char>> {
        match text_of(self.source_value("vcs_git"@)) {
            Some(s) => Some(s),
            None => match self.crate_name_spec() {
                Some(c) => Some(
                    "https://salsa.debian.org/rust-team/debcargo-conf.git [src/"@ + lowercase(c)
                        + "]"@,
                ),
                None => None,
            },
        }
    }

    /// The URL to browse the repository: the text `vcs_browser` of the
    /// table `source`, and without it the place of the crate in the Rust
    /// team's repository.
    pub open spec fn vcs_browser_spec(self) -> Option<Seq<char>> {
        match text_of(self.source_value("vcs_browser"@)) {
            Some(s) => Some(s),
            None => match self.crate_name_spec() {
                Some(c) => Some(
                    "https://salsa.debian.org/rust-team/debcargo-conf/tree/master/src/"@
                        + lowercase(c),
                ),
                None => None,
            },
        }
    }

    /// The URL of the package under one kind of version control. `Git` and
    /// `Browser`, in any case of letters, have keys of their own; any other
    /// kind is looked up in the extra lines as the field `Vcs-` and the
    /// kind.
    pub open spec fn vcs_url_spec(self, vcs_type: Seq<char>) -> Option<Seq<char>> {
        match native_vcs(vcs_type) {
            Some(NativeVcs::Git) => self.vcs_git_spec(),
            Some(NativeVcs::Browser) => self.vcs_browser_spec(),
            None => extra_field(self.extra_lines_spec(), vcs_field_name(vcs_type)),
        }
    }

    fn source_entries(&self) -> (r: Option<&Vec<KeyValue>>)
        ensures
            match r {
                Some(e) => e@ == table_entries(self.debcargo.tables@, "source"@),
                None => table_entries(self.debcargo.tables@, "source"@)
                    == Seq::<KeyValue>::empty(),
            },
    {
        match find_table(&self.debcargo.tables, "source") {
            Some(i) => Some(&self.debcargo.tables[i].entries),
            None => None,
        }
    }

    fn source_text(&self, key: &str) -> (r: Option<String>)
        ensures
            text_view(r) == text_of(self.source_value(key@)),
    {
        match self.source_entries() {
            Some(e) => get_text(e, key),
            None => {
                proof {
                    lemma_first_index_none(key_pred(Seq::<KeyValue>::empty(), key@), 0, 0);
                }
                None
            },
        }
    }

    fn source_flag(&self, key: &str) -> (r: Option<bool>)
        ensures
            r == flag_of(self.source_value(key@)),
    {
        match self.source_entries() {
            Some(e) => get_flag(e, key),
            None => None,
        }
    }

    fn source_texts(&self, key: &str) -> (r: Option<Vec<String>>)
        ensures
            match r {
                Some(v) => list_of(self.source_value(key@)) matches Some(l) && views(v@)
                    == texts_from(l, 0),
                None => list_of(self.source_value(key@)) is None,
            },
    {
        match self.source_entries() {
            Some(e) => get_texts(e, key),
            None => None,
        }
    }

    fn package_text(&self, key: &str) -> (r: Option<String>)
        ensures
            text_view(r) == text_of(self.package_value(key@)),
    {
        match &self.cargo {
            Some(c) => match &c.package {
                Some(p) => get_text(p, key),
                None => None,
            },
            None => None,
        }
    }

    /// The index of the table `source`, which is added as the last table
    /// where the manifest has none.
    pub fn toml_section_mut(&mut self) -> (i: usize)
        ensures
            i < final(self).debcargo.tables.len(),
            first_index(
                table_pred(final(self).debcargo.tables@, "source"@),
                0,
                final(self).debcargo.tables.len() as int,
            ) == Some(i as int),
            final(self).cargo == old(self).cargo,
            final(self).debcargo.values == old(self).debcargo.values,
            forall|name: Seq<char>| #[trigger]
                table_entries(final(self).debcargo.tables@, name) == table_entries(
                    old(self).debcargo.tables@,
                    name,
                ),
    {
        let ghost before = self.debcargo.tables@;
        let ghost n = before.len() as int;
        match find_table(&self.debcargo.tables, "source") {
            Some(i) => i,
            None => {
                self.debcargo.tables.push(Table { name: "source".to_owned(), entries: Vec::new() });
                proof {
                    let after = self.debcargo.tables@;
                    assert forall|name: Seq<char>| #[trigger]
                        table_entries(after, name) == table_entries(before, name) by {
                        assert forall|j: int| 0 <= j < n implies #[trigger] table_pred(after, name)(
                            j,
                        ) == table_pred(before, name)(j) by {
                            assert(after[j] == before[j]);
                        }
                        lemma_first_index_same(table_pred(after, name), table_pred(before, name), 0, n);
                        lemma_first_index_wider(table_pred(after, name), 0, n);
                        lemma_first_index(table_pred(before, name), 0, n);
                        assert(after[n].entries@ =~= Seq::<KeyValue>::empty());
                    }
                    assert forall|j: int| 0 <= j < n implies #[trigger] table_pred(
                        after,
                        "source"@,
                    )(j) == table_pred(before, "source"@)(j) by {
                        assert(after[j] == before[j]);
                    }
                    lemma_first_index_same(
                        table_pred(after, "source"@),
                        table_pred(before, "source"@),
                        0,
                        n,
                    );
                    lemma_first_index_wider(table_pred(after, "source"@), 0, n);
                }
                self.debcargo.tables.len() - 1
            },
        }
    }

    /// Sets `key` of the table `source` to `value`.
    pub fn set_source_value(&mut self, key: &str, value: Value)
        ensures
            source_set(*old(self), *final(self), key@, value@),
    {
        let i = self.toml_section_mut();
        let ghost before = self.debcargo.tables@;
        let ghost n = before.len() as int;
        let mut entries = clone_entries(&self.debcargo.tables[i].entries);
        set_value(&mut entries, key, value);
        let table = Table { name: self.debcargo.tables[i].name.clone(), entries };
        self.debcargo.tables.set(i, table);
        proof {
            let after = self.debcargo.tables@;
            lemma_first_index(table_pred(before, "source"@), 0, n);
            assert forall|name: Seq<char>, k: Seq<char>| #[trigger]
                lookup(table_entries(after, name), k) == (if name == "source"@ && k == key@ {
                    Some(value@)
                } else {
                    lookup(table_entries(before, name), k)
                }) by {
                assert forall|j: int| 0 <= j < n implies #[trigger] table_pred(after, name)(j)
                    == table_pred(before, name)(j) by {
                    if j != i {
                        assert(after[j] == before[j]);
                    }
                }
                lemma_first_index_same(table_pred(after, name), table_pred(before, name), 0, n);
                lemma_first_index(table_pred(before, name), 0, n);
                if name != "source"@ {
                    match first_index(table_pred(before, name), 0, n) {
                        Some(j) => {
                            assert(j != i);
                            assert(after[j] == before[j]);
                        },
                        None => {},
                    }
                }
            }
        }
    }

    /// The name of the crate.
    pub fn crate_name(&self) -> (r: Option<String>)
        ensures
            text_view(r) == self.crate_name_spec(),
    {
        self.package_text("name")
    }

    /// The version of the crate.
    pub fn crate_version(&self) -> (r: Option<CrateVersion>)
        ensures
            r == self.crate_version_spec(),
    {
        match self.package_text("version") {
            Some(t) => semver_of_exec(t.as_str()),
            None => None,
        }
    }

    /// Whether package names carry the major and minor version.
    pub fn semver_suffix(&self) -> (r: bool)
        ensures
            r == self.semver_suffix_spec(),
    {
        match self.source_flag("semver_suffix") {
            Some(b) => b,
            None => false,
        }
    }

    /// Sets the standards version.
    pub fn set_standards_version(&mut self, version: &str)
        ensures
            source_set(*old(self), *final(self), "standards-version"@, ValueView::Text(version@)),
    {
        self.set_source_value("standards-version", Value::Text(version.to_owned()));
    }

    /// The standards version: the one that the manifest names, and the
    /// current one where it names none.
    pub fn standards_version(&self) -> (r: String)
        ensures
            r@ == (match text_of(self.source_value("standards-version"@)) {
                Some(s) => s,
                None => CURRENT_STANDARDS_VERSION@,
            }),
    {
        match self.source_text("standards-version") {
            Some(s) => s,
            None => CURRENT_STANDARDS_VERSION.to_owned(),
        }
    }

    /// Sets the homepage.
    pub fn set_homepage(&mut self, homepage: &str)
        ensures
            source_set(*old(self), *final(self), "homepage"@, ValueView::Text(homepage@)),
    {
        self.set_source_value("homepage", Value::Text(homepage.to_owned()));
    }

    /// The homepage: the one that the packaging manifest names, and
    /// without it the one that the crate manifest names.
    pub fn homepage(&self) -> (r: Option<String>)
        ensures
            text_view(r) == (match text_of(self.source_value("homepage"@)) {
                Some(s) => Some(s),
                None => text_of(self.package_value("homepage"@)),
            }),
    {
        match self.source_text("homepage") {
            Some(s) => Some(s),
            None => self.package_text("homepage"),
        }
    }

    /// Sets the Git URL.
    pub fn set_vcs_git(&mut self, git: &str)
        ensures
            source_set(*old(self), *final(self), "vcs_git"@, ValueView::Text(git@)),
    {
        self.set_source_value("vcs_git", Value::Text(git.to_owned()));
    }

    /// The Git URL.
    pub fn vcs_git(&self) -> (r: Option<String>)
        ensures
            text_view(r) == self.vcs_git_spec(),
    {
        match self.source_text("vcs_git") {
            Some(s) => Some(s),
            None => match self.crate_name() {
                Some(c) => {
                    let lower = c.as_str().to_lowercase();
                    Some(
                        concat3(
                            "https://salsa.debian.org/rust-team/debcargo-conf.git [src/",
                            lower.as_str(),
                            "]",
                        ),
                    )
                },
                None => None,
            },
        }
    }

    /// The URL to browse the repository.
    pub fn vcs_browser(&self) -> (r: Option<String>)
        ensures
            text_view(r) == self.vcs_browser_spec(),
    {
        match self.source_text("vcs_browser") {
            Some(s) => Some(s),
            None => match self.crate_name() {
                Some(c) => {
                    let lower = c.as_str().to_lowercase();
                    Some(
                        concat2(
                            "https://salsa.debian.org/rust-team/debcargo-conf/tree/master/src/",
                            lower.as_str(),
                        ),
                    )
                },
                None => None,
            },
        }
    }

    /// Sets the URL to browse the repository.
    pub fn set_vcs_browser(&mut self, browser: &str)
        ensures
            source_set(*old(self), *final(self), "vcs_browser"@, ValueView::Text(browser@)),
    {
        self.set_source_value("vcs_browser", Value::Text(browser.to_owned()));
    }

    /// The section: the one that the manifest names, and `rust` where it
    /// names none.
    pub fn section(&self) -> (r: String)
        ensures
            r@ == (match text_of(self.source_value("section"@)) {
                Some(s) => s,
                None => DEFAULT_SECTION@,
            }),
    {
        match self.source_text("section") {
            Some(s) => s,
            None => DEFAULT_SECTION.to_owned(),
        }
    }

    /// Sets the section.
    pub fn set_section(&mut self, section: &str)
        ensures
            source_set(*old(self), *final(self), "section"@, ValueView::Text(section@)),
    {
        self.set_source_value("section", Value::Text(section.to_owned()));
    }

    /// The name of the source package: `rust-` and the normalized crate
    /// name, followed by `-` and the major and minor version where package
    /// names carry them. `None` where the crate name, or a version that is
    /// needed, is not known.
    pub fn name(&self) -> (r: Option<String>)
        ensures
            text_view(r) == self.name_spec(),
    {
        let crate_name = match self.crate_name() {
            Some(n) => n,
            None => {
                return None;
            },
        };
        let normal = debnormalize(crate_name.as_str());
        if self.semver_suffix() {
            match self.crate_version() {
                Some(v) => {
                    let pair = semver_pair(&v);
                    let head = concat3("rust-", normal.as_str(), "-");
                    Some(concat2(head.as_str(), pair.as_str()))
                },
                None => None,
            }
        } else {
            Some(concat2("rust-", normal.as_str()))
        }
    }

    /// The priority: the one that the manifest names, and `optional` where
    /// it names none or one that is no priority.
    pub fn priority(&self) -> (r: Priority)
        ensures
            r == (match text_of(self.source_value("priority"@)) {
                Some(s) => match priority_of(s) {
                    Some(p) => p,
                    None => DEFAULT_PRIORITY,
                },
                None => DEFAULT_PRIORITY,
            }),
    {
        match self.source_text("priority") {
            Some(s) => match parse_priority(s.as_str()) {
                Some(p) => p,
                None => DEFAULT_PRIORITY,
            },
            None => DEFAULT_PRIORITY,
        }
    }

    /// Sets the priority.
    pub fn set_priority(&mut self, priority: Priority)
        ensures
            source_set(
                *old(self),
                *final(self),
                "priority"@,
                ValueView::Text(priority_name(priority)),
            ),
    {
        self.set_source_value("priority", Value::Text(priority_text(priority)));
    }

    /// Whether building the package needs root: the boolean
    /// `requires_root` of the table `source`, and `false` without it.
    pub fn rules_requires_root(&self) -> (r: bool)
        ensures
            r == (match flag_of(self.source_value("requires_root"@)) {
                Some(b) => b,
                None => false,
            }),
    {
        match self.source_flag("requires_root") {
            Some(b) => b,
            None => false,
        }
    }

    /// Notes whether building the package needs root, as the text `yes` or
    /// `no`.
    pub fn set_rules_requires_root(&mut self, requires_root: bool)
        ensures
            source_set(
                *old(self),
                *final(self),
                "requires_root"@,
                ValueView::Text(
                    if requires_root {
                        "yes"@
                    } else {
                        "no"@
                    },
                ),
            ),
    {
        let text = if requires_root {
            "yes".to_owned()
        } else {
            "no".to_owned()
        };
        self.set_source_value("requires_root", Value::Text(text));
    }

    /// The maintainer: the one that the manifest names, and the Rust team
    /// where it names none.
    pub fn maintainer(&self) -> (r: String)
        ensures
            r@ == (match text_of(self.source_value("maintainer"@)) {
                Some(s) => s,
                None => DEFAULT_MAINTAINER@,
            }),
    {
        match self.source_text("maintainer") {
            Some(s) => s,
            None => DEFAULT_MAINTAINER.to_owned(),
        }
    }

    /// Sets the maintainer.
    pub fn set_maintainer(&mut self, maintainer: &str)
        ensures
            source_set(*old(self), *final(self), "maintainer"@, ValueView::Text(maintainer@)),
    {
        self.set_source_value("maintainer", Value::Text(maintainer.to_owned()));
    }

    /// The uploaders, where the manifest lists any.
    pub fn uploaders(&self) -> (r: Option<Vec<String>>)
        ensures
            match r {
                Some(v) => list_of(self.source_value("uploaders"@)) matches Some(l) && views(v@)
                    == texts_from(l, 0),
                None => list_of(self.source_value("uploaders"@)) is None,
            },
    {
        self.source_texts("uploaders")
    }

    /// Sets the uploaders.
    pub fn set_uploaders(&mut self, uploaders: Vec<String>)
        ensures
            source_set(
                *old(self),
                *final(self),
                "uploaders"@,
                ValueView::List(text_elements(views(uploaders@))),
            ),
    {
        self.set_source_value("uploaders", Value::List(elements_of(&uploaders)));
    }

    /// The extra lines of the source paragraph.
    pub fn extra_lines(&self) -> (r: Vec<String>)
        ensures
            views(r@) == self.extra_lines_spec(),
    {
        match self.source_texts("extra_lines") {
            Some(v) => v,
            None => {
                let v: Vec<String> = Vec::new();
                proof {
                    assert(views(v@) =~= Seq::<Seq<char>>::empty());
                }
                v
            },
        }
    }

    /// Sets the extra lines of the source paragraph.
    pub fn set_extra_lines(&mut self, lines: Vec<String>)
        ensures
            source_set(
                *old(self),
                *final(self),
                "extra_lines"@,
                ValueView::List(text_elements(views(lines@))),
            ),
            final(self).extra_lines_spec() == views(lines@),
    {
        proof {
            lemma_texts_of_text_elements(views(lines@), 0);
            assert(views(lines@).subrange(0, views(lines@).len() as int) =~= views(lines@));
        }
        self.set_source_value("extra_lines", Value::List(elements_of(&lines)));
    }

    /// Adds a line to the extra lines unless that very line is there.
    pub fn add_extra_line(&mut self, line: String)
        ensures
            old(self).extra_lines_spec().contains(line@) ==> *final(self) == *old(self),
            !old(self).extra_lines_spec().contains(line@) ==> source_set(
                *old(self),
                *final(self),
                "extra_lines"@,
                ValueView::List(text_elements(old(self).extra_lines_spec().push(line@))),
            ) && final(self).extra_lines_spec() == old(self).extra_lines_spec().push(line@),
    {
        let mut lines = self.extra_lines();
        let mut i: usize = 0;
        while i < lines.len()
            invariant
                i <= lines.len(),
                *self == *old(self),
                views(lines@) == old(self).extra_lines_spec(),
                forall|k: int| 0 <= k < i ==> (#[trigger] views(lines@)[k]) != line@,
            decreases lines.len() - i,
        {
            proof {
                assert(views(lines@)[i as int] == lines@[i as int]@);
            }
            if str_eq(lines[i].as_str(), line.as_str()) {
                assert(views(lines@).contains(line@));
                return ;
            }
            i += 1;
        }
        let ghost before = views(lines@);
        lines.push(line);
        proof {
            assert(views(lines@) =~= before.push(line@));
        }
        self.set_extra_lines(lines);
    }

    /// Removes every extra line that is `line`.
    pub fn remove_extra_line(&mut self, line: &str)
        ensures
            source_set(
                *old(self),
                *final(self),
                "extra_lines"@,
                ValueView::List(text_elements(without_line(old(self).extra_lines_spec(), line@, 0))),
            ),
            final(self).extra_lines_spec() == without_line(old(self).extra_lines_spec(), line@, 0),
    {
        let lines = self.extra_lines();
        let ghost lv = views(lines@);
        let mut kept: Vec<String> = Vec::new();
        let mut i: usize = 0;
        proof {
            assert(views(kept@) + without_line(lv, line@, 0) =~= without_line(lv, line@, 0));
        }
        while i < lines.len()
            invariant
                i <= lines.len(),
                lv == views(lines@),
                views(kept@) + without_line(lv, line@, i as int) == without_line(lv, line@, 0),
            decreases lines.len() - i,
        {
            proof {
                assert(lv[i as int] == lines@[i as int]@);
            }
            if !str_eq(lines[i].as_str(), line) {
                let ghost before = views(kept@);
                kept.push(lines[i].clone());
                proof {
                    assert(views(kept@) =~= before.push(lv[i as int]));
                    assert(before + (seq![lv[i as int]] + without_line(lv, line@, i + 1))
                        =~= before.push(lv[i as int]) + without_line(lv, line@, i + 1));
                }
            }
            i += 1;
        }
        proof {
            assert(views(kept@) + without_line(lv, line@, i as int) =~= views(kept@));
        }
        self.set_extra_lines(kept);
    }

    /// The value of a control field that the extra lines write.
    pub fn get_extra_field(&self, field_name: &str) -> (r: Option<String>)
        ensures
            text_view(r) == extra_field(self.extra_lines_spec(), field_name@),
    {
        let lines = self.extra_lines();
        match find_line(&lines, field_name) {
            Some(i) => {
                proof {
                    assert(views(lines@)[i as int] == lines@[i as int]@);
                    lemma_first_index(
                        line_pred(views(lines@), field_name@),
                        0,
                        lines.len() as int,
                    );
                    assert(line_pred(views(lines@), field_name@)(i as int));
                }
                Some(field_text_exec(lines[i].as_str(), field_name))
            },
            None => None,
        }
    }

    /// Sets a control field in the extra lines.
    pub fn set_extra_field(&mut self, field_name: &str, value: &str)
        ensures
            source_set(
                *old(self),
                *final(self),
                "extra_lines"@,
                ValueView::List(
                    text_elements(with_extra_field(old(self).extra_lines_spec(), field_name@, value@)),
                ),
            ),
            final(self).extra_lines_spec() == with_extra_field(
                old(self).extra_lines_spec(),
                field_name@,
                value@,
            ),
    {
        let mut lines = self.extra_lines();
        let ghost lv = views(lines@);
        let head = concat3(field_name, ": ", value);
        proof {
            assert(head@ =~= field_line(field_name@, value@));
        }
        match find_line(&lines, field_name) {
            Some(i) => {
                lines.set(i, head);
                proof {
                    assert(views(lines@) =~= lv.update(
                        i as int,
                        field_line(field_name@, value@),
                    ));
                }
            },
            None => {
                lines.push(head);
                proof {
                    assert(views(lines@) =~= lv.push(field_line(field_name@, value@)));
                }
            },
        }
        self.set_extra_lines(lines);
    }

    /// Removes every extra line that writes the control field.
    pub fn remove_extra_field(&mut self, field_name: &str)
        ensures
            source_set(
                *old(self),
                *final(self),
                "extra_lines"@,
                ValueView::List(
                    text_elements(without_extra_field(old(self).extra_lines_spec(), field_name@, 0)),
                ),
            ),
            final(self).extra_lines_spec() == without_extra_field(
                old(self).extra_lines_spec(),
                field_name@,
                0,
            ),
    {
        let lines = self.extra_lines();
        let ghost lv = views(lines@);
        let mut kept: Vec<String> = Vec::new();
        let mut i: usize = 0;
        proof {
            assert(views(kept@) + without_extra_field(lv, field_name@, 0) =~= without_extra_field(
                lv,
                field_name@,
                0,
            ));
        }
        while i < lines.len()
            invariant
                i <= lines.len(),
                lv == views(lines@),
                views(kept@) + without_extra_field(lv, field_name@, i as int)
                    == without_extra_field(lv, field_name@, 0),
            decreases lines.len() - i,
        {
            proof {
                assert(lv[i as int] == lines@[i as int]@);
            }
            if !writes_field_exec(lines[i].as_str(), field_name) {
                let ghost before = views(kept@);
                kept.push(lines[i].clone());
                proof {
                    assert(views(kept@) =~= before.push(lv[i as int]));
                    assert(before + (seq![lv[i as int]] + without_extra_field(
                        lv,
                        field_name@,
                        i + 1,
                    )) =~= before.push(lv[i as int]) + without_extra_field(lv, field_name@, i + 1));
                }
            }
            i += 1;
        }
        proof {
            assert(views(kept@) + without_extra_field(lv, field_name@, i as int) =~= views(kept@));
        }
        self.set_extra_lines(kept);
    }

    /// Sets the URL of the package under one kind of version control.
    /// `Git` and `Browser`, in any case of letters, go to the keys of their
    /// own; any other kind goes to the extra lines as the field `Vcs-` and
    /// the kind, and leaves the keys for Git and the browser as they are.
    pub fn set_vcs_url(&mut self, vcs_type: &str, url: &str)
        ensures
            vcs_url_set(*old(self), *final(self), vcs_type@, url@),
    {
        match native_vcs_exec(vcs_type) {
            Some(NativeVcs::Git) => self.set_vcs_git(url),
            Some(NativeVcs::Browser) => self.set_vcs_browser(url),
            None => {
                let name = concat2("Vcs-", vcs_type);
                proof {
                    assert(name@ =~= vcs_field_name(vcs_type@));
                }
                self.set_extra_field(name.as_str(), url)
            },
        }
    }

    /// The URL of the package under one kind of version control.
    pub fn get_vcs_url(&self, vcs_type: &str) -> (r: Option<String>)
        ensures
            text_view(r) == self.vcs_url_spec(vcs_type@),
    {
        match native_vcs_exec(vcs_type) {
            Some(NativeVcs::Git) => self.vcs_git(),
            Some(NativeVcs::Browser) => self.vcs_browser(),
            None => {
                let name = concat2("Vcs-", vcs_type);
                proof {
                    assert(name@ =~= vcs_field_name(vcs_type@));
                }
                self.get_extra_field(name.as_str())
            },
        }
    }
}

/// The elements that write the texts of `lines`.
fn elements_of(lines: &Vec<String>) -> (r: Vec<Element>)
    ensures
        element_views(r@) == text_elements(views(lines@)),
{
    let mut out: Vec<Element> = Vec::new();
    let mut i: usize = 0;
    while i < lines.len()
        invariant
            i <= lines.len(),
            element_views(out@) == text_elements(views(lines@)).take(i as int),
        decreases lines.len() - i,
    {
        let ghost before = element_views(out@);
        out.push(Element::Text(lines[i].clone()));
        proof {
            assert(element_views(out@) =~= before.push(Some(lines@[i as int]@)));
            assert(element_views(out@) =~= text_elements(views(lines@)).take(i + 1));
        }
        i += 1;
    }
    proof {
        assert(text_elements(views(lines@)).take(i as int) =~= text_elements(views(lines@)));
    }
    out
}

/// The word that names a priority in a control file.
pub open spec fn priority_name(p: Priority) -> Seq<char> {
    match p {
        Priority::Required => "required"@,
        Priority::Important => "important"@,
        Priority::Standard => "standard"@,
        Priority::Optional => "optional"@,
        Priority::Extra => "extra"@,
        Priority::Source => "source"@,
    }
}

/// The priority that a word names.
pub open spec fn priority_of(s: Seq<char>) -> Option<Priority> {
    if s == "required"@ {
        Some(Priority::Required)
    } else if s == "important"@ {
        Some(Priority::Important)
    } else if s == "standard"@ {
        Some(Priority::Standard)
    } else if s == "optional"@ {
        Some(Priority::Optional)
    } else if s == "extra"@ {
        Some(Priority::Extra)
    } else if s == "source"@ {
        Some(Priority::Source)
    } else {
        None
    }
}

/// The word that names a priority in a control file.
pub fn priority_text(p: Priority) -> (r: String)
    ensures
        r@ == priority_name(p),
{
    match p {
        Priority::Required => "required".to_owned(),
        Priority::Important => "important".to_owned(),
        Priority::Standard => "standard".to_owned(),
        Priority::Optional => "optional".to_owned(),
        Priority::Extra => "extra".to_owned(),
        Priority::Source => "source".to_owned(),
    }
}

/// The priority that a word names.
pub fn parse_priority(s: &str) -> (r: Option<Priority>)
    ensures
        r == priority_of(s@),
{
    if str_eq(s, "required") {
        Some(Priority::Required)
    } else if str_eq(s, "important") {
        Some(Priority::Important)
    } else if str_eq(s, "standard") {
        Some(Priority::Standard)
    } else if str_eq(s, "optional") {
        Some(Priority::Optional)
    } else if str_eq(s, "extra") {
        Some(Priority::Extra)
    } else if str_eq(s, "source") {
        Some(Priority::Source)
    } else {
        None
    }
}

/// The text up to, not including, its first line feed.
pub open spec fn first_line(s: Seq<char>) -> Seq<char> {
    match first_index(char_pred(s, '\n'), 0, s.len() as int) {
        Some(i) => s.subrange(0, i),
        None => s,
    }
}

/// A binary package that the manifest pair describes.
pub struct DebcargoBinary {
    /// The kind of the package: `lib` or `bin`.
    pub key: String,
    /// The name of the package.
    pub name: String,
    /// The name of the manifest section of the package.
    pub section: String,
    /// The keys of the table of the package.
    pub entries: Vec<KeyValue>,
    /// The summary that holds for every package of the crate.
    pub global_summary: Option<String>,
    /// The description that holds for every package of the crate.
    pub global_description: Option<String>,
    /// The name of the crate.
    pub crate_name: String,
    /// The version of the crate.
    pub crate_version: CrateVersion,
    /// Whether package names carry the major and minor version.
    pub semver_suffix: bool,
    /// The features of the crate.
    pub features: Option<Vec<String>>,
}

impl DebcargoBinary {
    /// The long description of the package: the text `description` of its
    /// table, else the description of the crate's packages, else a
    /// sentence that goes by the kind of the package.
    pub open spec fn long_description_spec(self) -> Option<Seq<char>> {
        match text_of(lookup(self.entries@, "description"@)) {
            Some(d) => Some(d),
            None => match self.global_description {
                Some(d) => Some(d@),
                None => if self.key@ == "lib"@ {
                    Some("Source code for Debianized Rust crate \""@ + self.crate_name@ + "\""@)
                } else if self.key@ == "bin"@ {
                    Some(
                        "This package contains the source for the Rust mio crate, packaged by debcargo for use with cargo and dh-cargo."@,
                    )
                } else {
                    None
                },
            },
        }
    }

    /// The summary of the package: the text `summary` of its table, else
    /// the summary of the crate's packages.
    pub open spec fn summary_spec(self) -> Option<Seq<char>> {
        match text_of(lookup(self.entries@, "summary"@)) {
            Some(s) => Some(s),
            None => text_view(self.global_summary),
        }
    }

    /// The name of the package.
    pub fn name(&self) -> (r: &str)
        ensures
            r@ == self.name@,
    {
        self.name.as_str()
    }

    /// The architecture of the package, which is always `any`.
    pub fn architecture(&self) -> (r: Option<&'static str>)
        ensures
            r matches Some(a) && a@ == "any"@,
    {
        Some("any")
    }

    /// The multi-arch setting of the package, which is always `same`.
    pub fn multi_arch(&self) -> (r: Option<MultiArch>)
        ensures
            r == Some(MultiArch::Same),
    {
        Some(MultiArch::Same)
    }

    /// The section of the package, where its table names one.
    pub fn section(&self) -> (r: Option<String>)
        ensures
            text_view(r) == text_of(lookup(self.entries@, "section"@)),
    {
        get_text(&self.entries, "section")
    }

    /// The summary of the package.
    pub fn summary(&self) -> (r: Option<String>)
        ensures
            text_view(r) == self.summary_spec(),
    {
        match get_text(&self.entries, "summary") {
            Some(s) => Some(s),
            None => match &self.global_summary {
                Some(s) => Some(s.clone()),
                None => None,
            },
        }
    }

    /// The long description of the package.
    pub fn long_description(&self) -> (r: Option<String>)
        ensures
            text_view(r) == self.long_description_spec(),
    {
        match get_text(&self.entries, "description") {
            Some(d) => Some(d),
            None => match &self.global_description {
                Some(d) => Some(d.clone()),
                None => if str_eq(self.key.as_str(), "lib") {
                    Some(
                        concat3(
                            "Source code for Debianized Rust crate \"",
                            self.crate_name.as_str(),
                            "\"",
                        ),
                    )
                } else if str_eq(self.key.as_str(), "bin") {
                    Some(
                        "This package contains the source for the Rust mio crate, packaged by debcargo for use with cargo and dh-cargo.".to_owned(),
                    )
                } else {
                    None
                },
            },
        }
    }

    /// The text of the `Description` field of the package: its summary
    /// and its long description, put together as control files write
    /// them. `None` where either is missing.
    pub fn description(&self) -> (r: Option<String>)
        ensures
            text_view(r) == (match (self.summary_spec(), self.long_description_spec()) {
                (Some(s), Some(l)) => Some(formatted_description(s, l)),
                _ => None,
            }),
    {
        let summary = match self.summary() {
            Some(s) => s,
            None => {
                return None;
            },
        };
        let long = match self.long_description() {
            Some(l) => l,
            None => {
                return None;
            },
        };
        Some(format_description(summary.as_str(), long.as_str()))
    }

    /// The extra dependencies of the package.
    pub fn depends(&self) -> (r: Option<String>)
        ensures
            text_view(r) == text_of(lookup(self.entries@, "depends"@)),
    {
        get_text(&self.entries, "depends")
    }

    /// The extra recommendations of the package.
    pub fn recommended(&self) -> (r: Option<String>)
        ensures
            text_view(r) == text_of(lookup(self.entries@, "recommends"@)),
    {
        get_text(&self.entries, "recommends")
    }

    /// The extra suggestions of the package.
    pub fn suggests(&self) -> (r: Option<String>)
        ensures
            text_view(r) == text_of(lookup(self.entries@, "suggests"@)),
    {
        get_text(&self.entries, "suggests")
    }
}

/// The view of a list of features that may be absent.
pub open spec fn features_view(f: Option<Vec<String>>) -> Option<Seq<Seq<char>>> {
    match f {
        Some(v) => Some(views(v@)),
        None => None,
    }
}

/// The endings that the version of a crate gives to the names of its
/// library packages: `-1`, `-1.2` and `-1.2.3` for version 1.2.3, after
/// no ending at all where package names do not carry the version.
pub open spec fn version_suffixes(v: CrateVersion, semver_suffix: bool) -> Seq<Seq<char>> {
    let major = seq!['-'] + decimal(v.major as nat);
    let minor = major + seq!['.'] + decimal(v.minor as nat);
    let patch = minor + seq!['.'] + decimal(v.patch as nat);
    if semver_suffix {
        seq![major, minor, patch]
    } else {
        seq![Seq::<char>::empty(), major, minor, patch]
    }
}

/// The endings that the features of a crate give to the names of its
/// library packages: none, `+default`, and `+` and the name of each
/// feature.
pub open spec fn feature_suffixes(features: Option<Seq<Seq<char>>>) -> Seq<Seq<char>> {
    seq![Seq::<char>::empty(), "+default"@] + (match features {
        Some(f) => Seq::new(f.len(), |i: int| seq!['+'] + f[i]),
        None => Seq::empty(),
    })
}

/// The names of the library packages of one version ending, for the
/// feature endings from index `j` on.
pub open spec fn names_of_version(
    crate_name: Seq<char>,
    version: Seq<char>,
    features: Seq<Seq<char>>,
    j: int,
) -> Seq<Seq<char>>
    decreases features.len() - j,
{
    if j < 0 || j >= features.len() {
        Seq::empty()
    } else {
        seq![binary_name(crate_name, version + features[j])] + names_of_version(
            crate_name,
            version,
            features,
            j + 1,
        )
    }
}

/// The names of the library packages of the version endings from index `i`
/// on, each with every feature ending.
pub open spec fn names_of_versions(
    crate_name: Seq<char>,
    versions: Seq<Seq<char>>,
    features: Seq<Seq<char>>,
    i: int,
) -> Seq<Seq<char>>
    decreases versions.len() - i,
{
    if i < 0 || i >= versions.len() {
        Seq::empty()
    } else {
        names_of_version(crate_name, versions[i], features, 0) + names_of_versions(
            crate_name,
            versions,
            features,
            i + 1,
        )
    }
}

/// One of the first `e` names is `x`.
pub open spec fn stands_before(items: Seq<Seq<char>>, e: int, x: Seq<char>) -> bool {
    exists|w: int| 0 <= w < e && #[trigger] items[w] == x
}

/// The names from index `i` on that are not `own` and that do not stand
/// earlier in the list.
pub open spec fn new_names_from(items: Seq<Seq<char>>, own: Seq<char>, i: int) -> Seq<Seq<char>>
    decreases items.len() - i,
{
    if i < 0 || i >= items.len() {
        Seq::empty()
    } else if items[i] != own && !stands_before(items, i, items[i]) {
        seq![items[i]] + new_names_from(items, own, i + 1)
    } else {
        new_names_from(items, own, i + 1)
    }
}

/// Each name followed by ` (= ${binary:Version})`.
pub open spec fn pinned(names: Seq<Seq<char>>) -> Seq<Seq<char>> {
    Seq::new(names.len(), |i: int| names[i] + " (= ${binary:Version})"@)
}

/// The text of a `Provides` field for the names: a line feed, and the
/// names, each pinned to the version of the binary package, one to a line.
/// `None` where there is no name.
pub open spec fn provides_text(names: Seq<Seq<char>>) -> Option<Seq<char>> {
    if names.len() == 0 {
        None
    } else {
        Some(seq!['\n'] + joined_from(pinned(names), ",\n "@, 0))
    }
}

impl DebcargoBinary {
    /// The names that the package provides: the names of the library
    /// package for every ending that the version and the features of the
    /// crate give, but for the name of the package itself, each once, in
    /// the order of the version endings and, for each, of the feature
    /// endings.
    pub open spec fn provided_names(self) -> Seq<Seq<char>> {
        new_names_from(
            names_of_versions(
                self.crate_name@,
                version_suffixes(self.crate_version, self.semver_suffix),
                feature_suffixes(features_view(self.features)),
                0,
            ),
            self.name@,
            0,
        )
    }

    /// The text of the `Provides` field that the package gets where the
    /// manifest gives none.
    pub fn default_provides(&self) -> (r: Option<String>)
        ensures
            text_view(r) == provides_text(self.provided_names()),
    {
        let versions = self.version_suffixes_exec();
        let features = self.feature_suffixes_exec();
        let ghost vv = views(versions@);
        let ghost fv = views(features@);
        let ghost total = names_of_versions(self.crate_name@, vv, fv, 0);
        let mut all: Vec<String> = Vec::new();
        let mut i: usize = 0;
        proof {
            assert(views(all@) + names_of_versions(self.crate_name@, vv, fv, 0) =~= total);
        }
        while i < versions.len()
            invariant
                i <= versions.len(),
                vv == views(versions@),
                fv == views(features@),
                views(all@) + names_of_versions(self.crate_name@, vv, fv, i as int) == total,
            decreases versions.len() - i,
        {
            let ghost rest = names_of_versions(self.crate_name@, vv, fv, i + 1);
            let mut j: usize = 0;
            proof {
                assert(vv[i as int] == versions@[i as int]@);
            }
            while j < features.len()
                invariant
                    i < versions.len(),
                    j <= features.len(),
                    vv == views(versions@),
                    fv == views(features@),
                    views(all@) + names_of_version(self.crate_name@, vv[i as int], fv, j as int)
                        + rest == total,
                decreases features.len() - j,
            {
                let suffix = concat2(versions[i].as_str(), features[j].as_str());
                let name = debcargo_binary_name(self.crate_name.as_str(), suffix.as_str());
                let ghost before = views(all@);
                all.push(name);
                proof {
                    assert(vv[i as int] == versions@[i as int]@);
                    assert(fv[j as int] == features@[j as int]@);
                    assert(views(all@) =~= before.push(name@));
                    assert(before + (seq![name@] + names_of_version(
                        self.crate_name@,
                        vv[i as int],
                        fv,
                        j + 1,
                    )) + rest =~= before.push(name@) + names_of_version(
                        self.crate_name@,
                        vv[i as int],
                        fv,
                        j + 1,
                    ) + rest);
                }
                j += 1;
            }
            proof {
                assert(views(all@) + names_of_version(self.crate_name@, vv[i as int], fv, j as int)
                    + rest =~= views(all@) + rest);
            }
            i += 1;
        }
        proof {
            assert(views(all@) + names_of_versions(self.crate_name@, vv, fv, i as int) =~= views(
                all@,
            ));
        }
        let ghost items = views(all@);
        let mut kept: Vec<String> = Vec::new();
        let mut k: usize = 0;
        proof {
            assert(pinned(views(kept@)) =~= Seq::<Seq<char>>::empty());
            assert(views(kept@) + new_names_from(items, self.name@, 0) =~= new_names_from(
                items,
                self.name@,
                0,
            ));
        }
        let mut lines: Vec<String> = Vec::new();
        while k < all.len()
            invariant
                k <= all.len(),
                items == views(all@),
                views(kept@) + new_names_from(items, self.name@, k as int) == new_names_from(
                    items,
                    self.name@,
                    0,
                ),
                views(lines@) == pinned(views(kept@)),
            decreases all.len() - k,
        {
            proof {
                assert(items[k as int] == all@[k as int]@);
            }
            let mut fresh = !str_eq(all[k].as_str(), self.name.as_str());
            let mut e: usize = 0;
            while e < k
                invariant
                    e <= k < all.len(),
                    items == views(all@),
                    fresh == (items[k as int] != self.name@ && !stands_before(
                        items,
                        e as int,
                        items[k as int],
                    )),
                decreases k - e,
            {
                proof {
                    assert(items[e as int] == all@[e as int]@);
                    assert(items[k as int] == all@[k as int]@);
                }
                if str_eq(all[e].as_str(), all[k].as_str()) {
                    fresh = false;
                }
                e += 1;
            }
            if fresh {
                let ghost before = views(kept@);
                let ghost pinned_before = views(lines@);
                kept.push(all[k].clone());
                lines.push(concat2(all[k].as_str(), " (= ${binary:Version})"));
                proof {
                    let name = items[k as int];
                    assert(views(kept@) =~= before.push(name));
                    assert(before + (seq![name] + new_names_from(items, self.name@, k + 1))
                        =~= before.push(name) + new_names_from(items, self.name@, k + 1));
                    assert(views(lines@) =~= pinned_before.push(
                        name + " (= ${binary:Version})"@,
                    ));
                    assert(views(lines@) =~= pinned(views(kept@)));
                }
            }
            k += 1;
        }
        proof {
            assert(views(kept@) + new_names_from(items, self.name@, k as int) =~= views(kept@));
        }
        if kept.len() == 0 {
            return None;
        }
        let body = join_exec(&lines, ",\n ");
        let mut out: Vec<char> = Vec::new();
        out.push('\n');
        let chars = chars_of(body.as_str());
        push_all(&mut out, &chars);
        Some(string_of(&out))
    }

    fn version_suffixes_exec(&self) -> (r: Vec<String>)
        ensures
            views(r@) == version_suffixes(self.crate_version, self.semver_suffix),
    {
        let mut major: Vec<char> = Vec::new();
        major.push('-');
        push_decimal(&mut major, self.crate_version.major);
        let ghost major_text = seq!['-'] + decimal(self.crate_version.major as nat);
        assert(major@ =~= major_text);
        let mut minor = slice_of(&major, 0, major.len());
        minor.push('.');
        push_decimal(&mut minor, self.crate_version.minor);
        let ghost minor_text = major_text + seq!['.'] + decimal(self.crate_version.minor as nat);
        assert(minor@ =~= minor_text) by {
            assert(major@.subrange(0, major.len() as int) =~= major@);
        }
        let mut patch = slice_of(&minor, 0, minor.len());
        patch.push('.');
        push_decimal(&mut patch, self.crate_version.patch);
        let ghost patch_text = minor_text + seq!['.'] + decimal(self.crate_version.patch as nat);
        assert(patch@ =~= patch_text) by {
            assert(minor@.subrange(0, minor.len() as int) =~= minor@);
        }
        let mut out: Vec<String> = Vec::new();
        if !self.semver_suffix {
            out.push(String::new());
        }
        let ghost head = views(out@);
        assert(head =~= (if self.semver_suffix {
            Seq::<Seq<char>>::empty()
        } else {
            seq![Seq::<char>::empty()]
        }));
        out.push(string_of(&major));
        out.push(string_of(&minor));
        out.push(string_of(&patch));
        proof {
            assert(views(out@) =~= head + seq![major_text, minor_text, patch_text]);
            assert(views(out@) =~= version_suffixes(self.crate_version, self.semver_suffix));
        }
        out
    }

    fn feature_suffixes_exec(&self) -> (r: Vec<String>)
        ensures
            views(r@) == feature_suffixes(features_view(self.features)),
    {
        let mut out: Vec<String> = Vec::new();
        out.push(String::new());
        out.push("+default".to_owned());
        let ghost head = views(out@);
        proof {
            assert(head =~= seq![Seq::<char>::empty(), "+default"@]);
        }
        match &self.features {
            Some(f) => {
                let ghost tail = Seq::new(f@.len(), |i: int| seq!['+'] + f@[i]@);
                let mut i: usize = 0;
                while i < f.len()
                    invariant
                        i <= f.len(),
                        tail == Seq::new(f@.len(), |i: int| seq!['+'] + f@[i]@),
                        views(out@) == head + tail.take(i as int),
                    decreases f.len() - i,
                {
                    let ghost before = views(out@);
                    let mut name: Vec<char> = Vec::new();
                    name.push('+');
                    let chars = chars_of(f[i].as_str());
                    push_all(&mut name, &chars);
                    out.push(string_of(&name));
                    proof {
                        assert(views(out@) =~= before.push(seq!['+'] + f@[i as int]@));
                        assert(views(out@) =~= head + tail.take(i + 1));
                    }
                    i += 1;
                }
                proof {
                    assert(tail.take(i as int) =~= tail);
                    assert(tail =~= Seq::new(views(f@).len(), |i: int| seq!['+'] + views(f@)[i]));
                }
            },
            None => {
                proof {
                    assert(views(out@) =~= head + Seq::<Seq<char>>::empty());
                }
            },
        }
        out
    }
}

/// The kind of package that a table describes by its name: `bin` where the
/// crate ships a program under that name, else `lib` where the name is
/// that of the library package.
pub open spec fn kind_of(
    name: Seq<char>,
    lib: Seq<char>,
    bin: Option<Seq<char>>,
) -> Option<Seq<char>> {
    if bin == Some(name) {
        Some("bin"@)
    } else if name == lib {
        Some("lib"@)
    } else {
        None
    }
}

/// The table at index `i` describes a package: its name has a kind, and no
/// table before it has the same name.
pub open spec fn describes_package(
    tables: Seq<Table>,
    lib: Seq<char>,
    bin: Option<Seq<char>>,
    i: int,
) -> bool {
    kind_of(tables[i].name@, lib, bin) is Some && first_index(
        table_pred(tables, tables[i].name@),
        0,
        tables.len() as int,
    ) == Some(i)
}

/// The indexes from `i` on of the tables that describe a package, in
/// order.
pub open spec fn package_tables(
    tables: Seq<Table>,
    lib: Seq<char>,
    bin: Option<Seq<char>>,
    i: int,
) -> Seq<int>
    decreases tables.len() - i,
{
    if i < 0 || i >= tables.len() {
        Seq::empty()
    } else if describes_package(tables, lib, bin, i) {
        seq![i] + package_tables(tables, lib, bin, i + 1)
    } else {
        package_tables(tables, lib, bin, i + 1)
    }
}

/// A manifest pair that is being edited, with the path of the packaging
/// manifest where it came from a file.
pub struct DebcargoEditor {
    /// The path of `debian/debcargo.toml`.
    pub debcargo_toml_path: Option<String>,
    /// The two manifests.
    pub main: DebcargoSource,
}

impl DebcargoEditor {
    /// An editor with an empty packaging manifest, no crate manifest and no
    /// path.
    pub fn new() -> (r: Self)
        ensures
            r.debcargo_toml_path is None,
            r.main.cargo is None,
            r.main.debcargo.values@.len() == 0,
            r.main.debcargo.tables@.len() == 0,
    {
        DebcargoEditor {
            debcargo_toml_path: None,
            main: DebcargoSource {
                debcargo: Debcargo { values: Vec::new(), tables: Vec::new() },
                cargo: None,
            },
        }
    }

    /// An editor for the packaging manifest that was read from `path`,
    /// without a crate manifest.
    pub fn open(path: &str, debcargo: Debcargo) -> (r: Self)
        ensures
            text_view(r.debcargo_toml_path) == Some(path@),
            r.main.debcargo == debcargo,
            r.main.cargo is None,
    {
        DebcargoEditor {
            debcargo_toml_path: Some(path.to_owned()),
            main: DebcargoSource { debcargo, cargo: None },
        }
    }

    /// An editor for the packaging manifest that was read from
    /// `debcargo_toml_path` and the crate manifest of the same directory.
    pub fn from_directory(debcargo_toml_path: &str, debcargo: Debcargo, cargo: Cargo) -> (r: Self)
        ensures
            text_view(r.debcargo_toml_path) == Some(debcargo_toml_path@),
            r.main.debcargo == debcargo,
            r.main.cargo == Some(cargo),
    {
        DebcargoEditor {
            debcargo_toml_path: Some(debcargo_toml_path.to_owned()),
            main: DebcargoSource { debcargo, cargo: Some(cargo) },
        }
    }

    /// Whether committing has to write the file: it has to where what the
    /// manifest now serializes to differs from what the file holds, and
    /// only there.
    pub fn commit(&self, old_contents: &str, new_contents: &str) -> (changed: bool)
        ensures
            changed == (old_contents@ != new_contents@),
    {
        !str_eq(old_contents, new_contents)
    }

    /// The source package.
    pub fn source(&mut self) -> (r: &mut DebcargoSource)
        ensures
            *r == old(self).main,
            final(self).main == *final(r),
            final(self).debcargo_toml_path == old(self).debcargo_toml_path,
    {
        &mut self.main
    }

    /// The summary of the crate's packages: the text `summary` of the
    /// packaging manifest followed by ` - Rust source code`, and without
    /// it the first line of the crate's description.
    pub open spec fn global_summary_spec(self) -> Option<Seq<char>> {
        match text_of(lookup(self.main.debcargo.values@, "summary"@)) {
            Some(s) => Some(s + " - Rust source code"@),
            None => match text_of(self.main.package_value("description"@)) {
                Some(d) => Some(first_line(d)),
                None => None,
            },
        }
    }

    /// The summary of the crate's packages.
    pub fn global_summary(&self) -> (r: Option<String>)
        ensures
            text_view(r) == self.global_summary_spec(),
    {
        match get_text(&self.main.debcargo.values, "summary") {
            Some(s) => Some(concat2(s.as_str(), " - Rust source code")),
            None => match self.main.package_text("description") {
                Some(d) => {
                    let chars = chars_of(d.as_str());
                    let head = match find_char(&chars, '\n') {
                        Some(i) => slice_of(&chars, 0, i),
                        None => {
                            proof {
                                assert(chars@.subrange(0, chars.len() as int) =~= chars@);
                            }
                            slice_of(&chars, 0, chars.len())
                        },
                    };
                    Some(string_of(&head))
                },
                None => None,
            },
        }
    }

    /// The description of the crate's packages: the text `description` of
    /// the packaging manifest.
    pub fn global_description(&self) -> (r: Option<String>)
        ensures
            text_view(r) == text_of(lookup(self.main.debcargo.values@, "description"@)),
    {
        get_text(&self.main.debcargo.values, "description")
    }

    /// The features of the crate, where the crate manifest has a table of
    /// them.
    pub open spec fn features_spec(self) -> Option<Seq<Seq<char>>> {
        match self.main.cargo {
            Some(c) => features_view(c.features),
            None => None,
        }
    }

    /// The features of the crate, where the crate manifest has a table of
    /// them.
    pub fn features(&self) -> (r: Option<Vec<String>>)
        ensures
            features_view(r) == self.features_spec(),
    {
        match &self.main.cargo {
            Some(c) => match &c.features {
                Some(g) => Some(clone_strings(g)),
                None => None,
            },
            None => None,
        }
    }

    /// The name of the library package: `librust-`, the normalized crate
    /// name, the major and minor version where package names carry them,
    /// and `-dev`.
    pub open spec fn lib_name_spec(self) -> Seq<char> {
        binary_name(
            self.main.crate_name_spec().unwrap(),
            if self.main.semver_suffix_spec() {
                semver_paired(self.main.crate_version_spec().unwrap())
            } else {
                Seq::empty()
            },
        )
    }

    /// The name of the program package, where the crate ships one: the
    /// boolean `bin` of the packaging manifest says whether it does, and
    /// without it a crate does unless package names carry the version. The
    /// name is the text `bin_name`, and without it the crate name.
    pub open spec fn bin_name_spec(self) -> Option<Seq<char>> {
        let enabled = match flag_of(lookup(self.main.debcargo.values@, "bin"@)) {
            Some(b) => b,
            None => !self.main.semver_suffix_spec(),
        };
        if enabled {
            match text_of(lookup(self.main.debcargo.values@, "bin_name"@)) {
                Some(n) => Some(n),
                None => self.main.crate_name_spec(),
            }
        } else {
            None
        }
    }

    /// The binary `b` is the package that the table at index `i`
    /// describes.
    pub open spec fn is_binary_of(self, b: DebcargoBinary, i: int) -> bool {
        let table = self.main.debcargo.tables@[i];
        &&& b.name@ == table.name@
        &&& Some(b.key@) == kind_of(table.name@, self.lib_name_spec(), self.bin_name_spec())
        &&& b.section@ == "packages."@ + b.key@
        &&& same_lookups(b.entries@, table.entries@)
        &&& text_view(b.global_summary) == self.global_summary_spec()
        &&& text_view(b.global_description) == text_of(
            lookup(self.main.debcargo.values@, "description"@),
        )
        &&& Some(b.crate_name@) == self.main.crate_name_spec()
        &&& Some(b.crate_version) == self.main.crate_version_spec()
        &&& b.semver_suffix == self.main.semver_suffix_spec()
        &&& features_view(b.features) == self.features_spec()
    }

    /// The binary packages: one for each table of the packaging manifest
    /// that is called like the library package or like the program
    /// package, in the order of the tables.
    pub fn binaries(&self) -> (r: Vec<DebcargoBinary>)
        requires
            self.main.crate_name_spec() is Some,
            self.main.crate_version_spec() is Some,
        ensures
            r@.len() == package_tables(
                self.main.debcargo.tables@,
                self.lib_name_spec(),
                self.bin_name_spec(),
                0,
            ).len(),
            forall|k: int|
                0 <= k < r@.len() ==> self.is_binary_of(
                    #[trigger] r@[k],
                    package_tables(
                        self.main.debcargo.tables@,
                        self.lib_name_spec(),
                        self.bin_name_spec(),
                        0,
                    )[k],
                ),
    {
        let semver_suffix = self.main.semver_suffix();
        let crate_name = self.main.crate_name().unwrap();
        let crate_version = self.main.crate_version().unwrap();
        let suffix = if semver_suffix {
            semver_pair(&crate_version)
        } else {
            String::new()
        };
        let lib_name = debcargo_binary_name(crate_name.as_str(), suffix.as_str());
        let enabled = match get_flag(&self.main.debcargo.values, "bin") {
            Some(b) => b,
            None => !semver_suffix,
        };
        let bin_name: Option<String> = if enabled {
            match get_text(&self.main.debcargo.values, "bin_name") {
                Some(n) => Some(n),
                None => Some(crate_name.clone()),
            }
        } else {
            None
        };
        let global_summary = self.global_summary();
        let global_description = self.global_description();
        let ghost tables = self.main.debcargo.tables@;
        let ghost lib = self.lib_name_spec();
        let ghost bin = self.bin_name_spec();
        let ghost all = package_tables(tables, lib, bin, 0);
        let mut out: Vec<DebcargoBinary> = Vec::new();
        let mut i: usize = 0;
        proof {
            assert(Seq::<int>::empty() + package_tables(tables, lib, bin, 0) =~= all);
        }
        let ghost mut done: Seq<int> = Seq::empty();
        while i < self.main.debcargo.tables.len()
            invariant
                i <= self.main.debcargo.tables.len(),
                tables == self.main.debcargo.tables@,
                lib == self.lib_name_spec(),
                bin == self.bin_name_spec(),
                lib_name@ == lib,
                text_view(bin_name) == bin,
                text_view(global_summary) == self.global_summary_spec(),
                text_view(global_description) == text_of(
                    lookup(self.main.debcargo.values@, "description"@),
                ),
                Some(crate_name@) == self.main.crate_name_spec(),
                Some(crate_version) == self.main.crate_version_spec(),
                semver_suffix == self.main.semver_suffix_spec(),
                done + package_tables(tables, lib, bin, i as int) == all,
                out@.len() == done.len(),
                forall|k: int| 0 <= k < out@.len() ==> self.is_binary_of(#[trigger] out@[k], done[k]),
            decreases self.main.debcargo.tables.len() - i,
        {
            let table = &self.main.debcargo.tables[i];
            let name = table.name.as_str();
            let is_bin = match &bin_name {
                Some(b) => str_eq(b.as_str(), name),
                None => false,
            };
            let kind: Option<String> = if is_bin {
                Some("bin".to_owned())
            } else if str_eq(name, lib_name.as_str()) {
                Some("lib".to_owned())
            } else {
                None
            };
            let first = match find_table(&self.main.debcargo.tables, name) {
                Some(j) => j == i,
                None => false,
            };
            match kind {
                Some(key) => {
                    if first {
                        let section = concat2("packages.", key.as_str());
                        let binary = DebcargoBinary {
                            key,
                            name: table.name.clone(),
                            section,
                            entries: clone_entries(&table.entries),
                            global_summary: clone_text(&global_summary),
                            global_description: clone_text(&global_description),
                            crate_name: crate_name.clone(),
                            crate_version,
                            semver_suffix,
                            features: self.features(),
                        };
                        out.push(binary);
                        proof {
                            assert(describes_package(tables, lib, bin, i as int));
                            assert(done.push(i as int) + package_tables(tables, lib, bin, i + 1)
                                =~= done + package_tables(tables, lib, bin, i as int));
                            done = done.push(i as int);
                        }
                    }
                },
                None => {},
            }
            i += 1;
        }
        proof {
            assert(done + package_tables(tables, lib, bin, i as int) =~= done);
        }
        out
    }
}

impl DebcargoEditor {
    /// The binary packages, where the crate manifest gives the name of the
    /// crate and a version that can be read; `None` where it does not.
    pub fn try_binaries(&self) -> (r: Option<Vec<DebcargoBinary>>)
        ensures
            r is Some <==> (self.main.crate_name_spec() is Some && self.main.crate_version_spec()
                is Some),
            r matches Some(b) ==> b@.len() == package_tables(
                self.main.debcargo.tables@,
                self.lib_name_spec(),
                self.bin_name_spec(),
                0,
            ).len() && forall|k: int|
                0 <= k < b@.len() ==> self.is_binary_of(
                    #[trigger] b@[k],
                    package_tables(
                        self.main.debcargo.tables@,
                        self.lib_name_spec(),
                        self.bin_name_spec(),
                        0,
                    )[k],
                ),
    {
        if self.main.crate_name().is_some() && self.main.crate_version().is_some() {
            Some(self.binaries())
        } else {
            None
        }
    }
}

impl Default for DebcargoEditor {
    fn default() -> (r: Self)
        ensures
            r.debcargo_toml_path is None,
            r.main.cargo is None,
            r.main.debcargo.values@.len() == 0,
            r.main.debcargo.tables@.len() == 0,
    {
        DebcargoEditor::new()
    }
}

fn clone_text(s: &Option<String>) -> (r: Option<String>)
    ensures
        text_view(r) == text_view(*s),
{
    match s {
        Some(t) => Some(t.clone()),
        None => None,
    }
}

fn clone_strings(v: &Vec<String>) -> (r: Vec<String>)
    ensures
        views(r@) == views(v@),
{
    let mut out: Vec<String> = Vec::new();
    let mut i: usize = 0;
    while i < v.len()
        invariant
            i <= v.len(),
            views(out@) == views(v@).take(i as int),
        decreases v.len() - i,
    {
        let ghost before = views(out@);
        out.push(v[i].clone());
        proof {
            assert(views(out@) =~= before.push(v@[i as int]@));
            assert(views(out@) =~= views(v@).take(i + 1));
        }
        i += 1;
    }
    proof {
        assert(views(v@).take(i as int) =~= views(v@));
    }
    out
}

/// A line writes a field whatever the case of the ASCII letters in which
/// the field is named.
pub proof fn lemma_writes_field_ignores_case(line: Seq<char>, a: Seq<char>, b: Seq<char>)
    requires
        eq_ignore_ascii_case(a, b),
    ensures
        writes_field(line, a) == writes_field(line, b),
{
    if line.len() > a.len() {
        lemma_eq_ignore_ascii_case_shared(a, b, line.subrange(0, a.len() as int));
    }
}

/// The URL of a package under one kind of version control does not depend
/// on the case of the ASCII letters in which the kind is named.
pub proof fn lemma_vcs_url_ignores_case(source: DebcargoSource, a: Seq<char>, b: Seq<char>)
    requires
        eq_ignore_ascii_case(a, b),
    ensures
        source.vcs_url_spec(a) == source.vcs_url_spec(b),
{
    assert(native_vcs(a) == native_vcs(b)) by {
        lemma_eq_ignore_ascii_case_shared(a, b, "git"@);
        lemma_eq_ignore_ascii_case_symmetric(a, "git"@);
        lemma_eq_ignore_ascii_case_symmetric(b, "git"@);
        lemma_eq_ignore_ascii_case_shared(a, b, "browser"@);
        lemma_eq_ignore_ascii_case_symmetric(a, "browser"@);
        lemma_eq_ignore_ascii_case_symmetric(b, "browser"@);
    }
    let lines = source.extra_lines_spec();
    let na = vcs_field_name(a);
    let nb = vcs_field_name(b);
    assert(eq_ignore_ascii_case(na, nb)) by {
        let p = "Vcs-"@;
        assert forall|i: int| 0 <= i < na.len() implies ascii_lower(#[trigger] na[i])
            == ascii_lower(nb[i]) by {
            if i < p.len() {
                assert(na[i] == p[i] && nb[i] == p[i]);
            } else {
                assert(na[i] == a[i - p.len()] && nb[i] == b[i - p.len()]);
                assert(ascii_lower(a[i - p.len()]) == ascii_lower(b[i - p.len()]));
            }
        }
    }
    assert forall|i: int| 0 <= i < lines.len() implies #[trigger] line_pred(lines, na)(i)
        == line_pred(lines, nb)(i) by {
        lemma_writes_field_ignores_case(lines[i], na, nb);
    }
    lemma_first_index_same(line_pred(lines, na), line_pred(lines, nb), 0, lines.len() as int);
}

/// The line that writes a field with a value writes that field.
pub proof fn lemma_field_line_writes_field(name: Seq<char>, value: Seq<char>)
    ensures
        writes_field(field_line(name, value), name),
{
    reveal_strlit(": ");
    let line = field_line(name, value);
    assert(line.subrange(0, name.len() as int) =~= name);
    crate::control::lemma_eq_ignore_ascii_case_same(name);
    assert(line[name.len() as int] == ':');
}

/// Setting a control field in the extra lines to the same value twice in
/// a row is the same as setting it once.
pub proof fn lemma_set_extra_field_twice(lines: Seq<Seq<char>>, name: Seq<char>, value: Seq<char>)
    ensures
        with_extra_field(with_extra_field(lines, name, value), name, value) == with_extra_field(
            lines,
            name,
            value,
        ),
{
    let n = lines.len() as int;
    let after = with_extra_field(lines, name, value);
    lemma_field_line_writes_field(name, value);
    lemma_first_index(line_pred(lines, name), 0, n);
    match first_index(line_pred(lines, name), 0, n) {
        Some(i) => {
            assert forall|j: int| 0 <= j < n implies #[trigger] line_pred(after, name)(j)
                == line_pred(lines, name)(j) by {
                if j != i {
                    assert(after[j] == lines[j]);
                }
            }
            lemma_first_index_same(line_pred(after, name), line_pred(lines, name), 0, n);
            assert(with_extra_field(after, name, value) =~= after);
        },
        None => {
            assert forall|j: int| 0 <= j < n implies !#[trigger] line_pred(after, name)(j) by {
                assert(!line_pred(lines, name)(j));
                assert(after[j] == lines[j]);
            }
            assert(line_pred(after, name)(n));
            lemma_first_index_is(line_pred(after, name), 0, n + 1, n);
            assert(with_extra_field(after, name, value) =~= after);
        },
    }
}

/// A kind of version control without a key of its own goes to exactly one
/// extra line where the manifest had none: the line that writes `Vcs-`,
/// the kind and the URL.
pub proof fn lemma_first_overflow_line(vcs_type: Seq<char>, url: Seq<char>)
    ensures
        with_extra_field(Seq::empty(), vcs_field_name(vcs_type), url) == seq![
            field_line(vcs_field_name(vcs_type), url),
        ],
{
    assert(with_extra_field(Seq::empty(), vcs_field_name(vcs_type), url) =~= seq![
        field_line(vcs_field_name(vcs_type), url),
    ]);
}

/// A control field that was set in the extra lines is found there again,
/// with the value that it was set to but for whitespace around it.
pub proof fn lemma_extra_field_after_set(lines: Seq<Seq<char>>, name: Seq<char>, value: Seq<char>)
    ensures
        extra_field(with_extra_field(lines, name, value), name) == Some(
            trim(seq![' '] + value),
        ),
{
    reveal_strlit(": ");
    let n = lines.len() as int;
    let after = with_extra_field(lines, name, value);
    let line = field_line(name, value);
    lemma_field_line_writes_field(name, value);
    lemma_first_index(line_pred(lines, name), 0, n);
    assert(line.subrange(name.len() as int + 1, line.len() as int) =~= seq![' '] + value);
    match first_index(line_pred(lines, name), 0, n) {
        Some(i) => {
            assert forall|j: int| 0 <= j < i implies !#[trigger] line_pred(after, name)(j) by {
                assert(!line_pred(lines, name)(j));
                assert(after[j] == lines[j]);
            }
            assert(line_pred(after, name)(i));
            lemma_first_index_is(line_pred(after, name), 0, n, i);
        },
        None => {
            assert forall|j: int| 0 <= j < n implies !#[trigger] line_pred(after, name)(j) by {
                assert(!line_pred(lines, name)(j));
                assert(after[j] == lines[j]);
            }
            assert(line_pred(after, name)(n));
            lemma_first_index_is(line_pred(after, name), 0, n + 1, n);
        },
    }
}

} // verus!
