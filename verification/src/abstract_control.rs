//! One interface for editing a Debian package, whether a control file or a
//! debcargo manifest describes it.

use crate::control::{
    field_set, field_value, field_views, get_field, set_field, Field, PlainBinary, PlainControl,
    PlainSource, PlainSourceView,
};
use crate::debcargo::{
    element_views, list_of, lookup, package_tables, source_set, table_entries, text_elements,
    text_view, vcs_url_set, Cargo, Debcargo, DebcargoBinary, DebcargoEditor, DebcargoSource,
    Element, Value, ValueView,
};
use crate::relations::{
    ensure_relation, entry_text, relation_ensured, Entry, Relations, RelationView,
};
use crate::text::{chars_of, join_exec, joined_from, push_all, str_eq, string_of, views};
use vstd::prelude::*;

verus! {

/// A binary package, whatever describes it.
pub trait AbstractBinary {
    /// The name of the binary package, as contracts speak of it.
    spec fn name_view(&self) -> Option<Seq<char>>;

    /// The name of the binary package.
    fn name(&self) -> (r: Option<String>)
        ensures
            text_view(r) == self.name_view(),
    ;
}

/// A source package, whatever describes it.
pub trait AbstractSource: Sized {
    /// The name of the source package, as contracts speak of it.
    spec fn name_view(&self) -> Option<Seq<char>>;

    /// The URL of the package under one kind of version control, as
    /// contracts speak of it.
    spec fn vcs_url_view(&self, vcs_type: Seq<char>) -> Option<Seq<char>>;

    /// What making sure of a build dependency turns the package into.
    spec fn build_dep_ensured(old: Self, new: Self, dep: Seq<RelationView>) -> bool;

    /// What setting the maintainer turns the package into.
    spec fn maintainer_set(old: Self, new: Self, maintainer: Seq<char>) -> bool;

    /// What setting the uploaders turns the package into.
    spec fn uploaders_set(old: Self, new: Self, uploaders: Seq<Seq<char>>) -> bool;

    /// What setting the URL under one kind of version control turns the
    /// package into.
    spec fn vcs_url_set(old: Self, new: Self, vcs_type: Seq<char>, url: Seq<char>) -> bool;

    /// The name of the source package.
    fn name(&self) -> (r: Option<String>)
        ensures
            text_view(r) == self.name_view(),
    ;

    /// Makes sure that a build dependency is there.
    fn ensure_build_dep(&mut self, dep: Entry)
        ensures
            Self::build_dep_ensured(*old(self), *final(self), dep@),
    ;

    /// Sets the maintainer.
    fn set_maintainer(&mut self, maintainer: &str)
        ensures
            Self::maintainer_set(*old(self), *final(self), maintainer@),
    ;

    /// Sets the uploaders.
    fn set_uploaders(&mut self, uploaders: &Vec<String>)
        ensures
            Self::uploaders_set(*old(self), *final(self), views(uploaders@)),
    ;

    /// Sets the URL of the package under one kind of version control.
    fn set_vcs_url(&mut self, vcs_type: &str, url: &str)
        ensures
            Self::vcs_url_set(*old(self), *final(self), vcs_type@, url@),
    ;

    /// The URL of the package under one kind of version control.
    fn get_vcs_url(&self, vcs_type: &str) -> (r: Option<String>)
        ensures
            text_view(r) == self.vcs_url_view(vcs_type@),
    ;
}

/// An editor of the files that describe a package.
pub trait AbstractControlEditor {
    /// The kind of source package that the editor holds.
    type Source: AbstractSource;

    /// The kind of binary package that the editor holds.
    type Binary: AbstractBinary;

    /// Whether the binary packages can be told, as contracts speak of it.
    spec fn knows_binaries(&self) -> bool;

    /// Whether the binary packages can be told.
    fn can_tell_binaries(&self) -> (r: bool)
        ensures
            r == self.knows_binaries(),
    ;

    /// Whether there is a source package, as contracts speak of it.
    spec fn has_source_view(&self) -> bool;

    /// Whether there is a source package.
    fn has_source(&self) -> (r: bool)
        ensures
            r == self.has_source_view(),
    ;

    /// The source package.
    fn source(&mut self) -> &mut Self::Source
        requires
            old(self).has_source_view(),
    ;

    /// The binary packages.
    fn binaries(&self) -> Vec<Self::Binary>
        requires
            self.knows_binaries(),
    ;

    /// Whether committing has to write the file, given what the file holds
    /// and what the document now serializes to: it has to where the two
    /// differ, and only there.
    fn commit(&self, old_contents: &str, new_contents: &str) -> (changed: bool)
        ensures
            changed == (old_contents@ != new_contents@),
    ;

    /// The place of wrapping and sorting in the model. The operation itself
    /// is done on the file, outside this library, by whoever holds it: for
    /// a control file it lays the fields out anew and sorts the
    /// paragraphs, so the binary packages may come in another order; for
    /// a manifest there is nothing to do. The model holds no layout, and
    /// what it holds is read again from the file after the operation.
    fn wrap_and_sort(&mut self);
}

impl AbstractBinary for PlainBinary {
    open spec fn name_view(&self) -> Option<Seq<char>> {
        field_value(field_views(self.fields@), "Package"@)
    }

    fn name(&self) -> (r: Option<String>) {
        get_field(&self.fields, "Package")
    }
}

impl AbstractBinary for DebcargoBinary {
    open spec fn name_view(&self) -> Option<Seq<char>> {
        Some(self.name@)
    }

    fn name(&self) -> (r: Option<String>) {
        Some(self.name.clone())
    }
}

/// The name of the control field for a kind of version control.
fn vcs_field(vcs_type: &str) -> (r: String)
    ensures
        r@ == "Vcs-"@ + vcs_type@,
{
    let mut out = chars_of("Vcs-");
    let kind = chars_of(vcs_type);
    push_all(&mut out, &kind);
    string_of(&out)
}

impl AbstractSource for PlainSource {
    open spec fn name_view(&self) -> Option<Seq<char>> {
        field_value(field_views(self.fields@), "Source"@)
    }

    /// The value of the field `Vcs-` and the kind.
    open spec fn vcs_url_view(&self, vcs_type: Seq<char>) -> Option<Seq<char>> {
        field_value(field_views(self.fields@), "Vcs-"@ + vcs_type)
    }

    /// `Build-Depends` holds `dep`: as a new last entry unless an entry
    /// with the same alternatives was there, and alone where there was no
    /// such field.
    open spec fn build_dep_ensured(old: Self, new: Self, dep: Seq<RelationView>) -> bool {
        new@ == (PlainSourceView {
            build_depends: Some(
                match old@.build_depends {
                    Some(s) => relation_ensured(s, dep),
                    None => seq![dep],
                },
            ),
            ..old@
        })
    }

    /// The field `Maintainer` is set.
    open spec fn maintainer_set(old: Self, new: Self, maintainer: Seq<char>) -> bool {
        field_set(old@, new@, "Maintainer"@, maintainer)
    }

    /// The field `Uploaders` is set to the uploaders with a comma and a
    /// space between them.
    open spec fn uploaders_set(old: Self, new: Self, uploaders: Seq<Seq<char>>) -> bool {
        field_set(old@, new@, "Uploaders"@, joined_from(uploaders, ", "@, 0))
    }

    /// The field `Vcs-` and the kind is set.
    open spec fn vcs_url_set(old: Self, new: Self, vcs_type: Seq<char>, url: Seq<char>) -> bool {
        field_set(old@, new@, "Vcs-"@ + vcs_type, url)
    }

    fn name(&self) -> (r: Option<String>) {
        get_field(&self.fields, "Source")
    }

    fn ensure_build_dep(&mut self, dep: Entry) {
        let mut relations = match &self.build_depends {
            Some(r) => r.clone(),
            None => Relations::new(),
        };
        let ghost was_absent = self.build_depends is None;
        ensure_relation(&mut relations, dep);
        proof {
            if was_absent {
                assert(relations@ =~= seq![dep@]);
            }
        }
        self.build_depends = Some(relations);
    }

    fn set_maintainer(&mut self, maintainer: &str) {
        set_field(&mut self.fields, "Maintainer", maintainer);
    }

    fn set_uploaders(&mut self, uploaders: &Vec<String>) {
        let value = join_exec(uploaders, ", ");
        set_field(&mut self.fields, "Uploaders", value.as_str());
    }

    fn set_vcs_url(&mut self, vcs_type: &str, url: &str) {
        let name = vcs_field(vcs_type);
        set_field(&mut self.fields, name.as_str(), url);
    }

    fn get_vcs_url(&self, vcs_type: &str) -> (r: Option<String>) {
        let name = vcs_field(vcs_type);
        get_field(&self.fields, name.as_str())
    }
}

fn copy_elements(l: &Vec<Element>) -> (r: Vec<Element>)
    ensures
        element_views(r@) == element_views(l@),
{
    let mut out: Vec<Element> = Vec::new();
    let mut i: usize = 0;
    while i < l.len()
        invariant
            i <= l.len(),
            element_views(out@) == element_views(l@).take(i as int),
        decreases l.len() - i,
    {
        let e = match &l[i] {
            Element::Text(s) => Element::Text(s.clone()),
            Element::Other => Element::Other,
        };
        let ghost before = element_views(out@);
        out.push(e);
        proof {
            assert(element_views(out@) =~= before.push(e@));
            assert(element_views(out@) =~= element_views(l@).take(i + 1));
        }
        i += 1;
    }
    proof {
        assert(element_views(l@).take(i as int) =~= element_views(l@));
    }
    out
}

fn copy_strings(v: &Vec<String>) -> (r: Vec<String>)
    ensures
        views(r@) == views(v@),
{
    let mut out: Vec<String> = Vec::new();
    let mut i: usize = 0;
    while i < v.len()
        invariant
            i <= v.len(),
            views(out@) == views(v@).take(i as int),
        decreases v.len() - i,
    {
        let ghost before = views(out@);
        out.push(v[i].clone());
        proof {
            assert(views(out@) =~= before.push(v@[i as int]@));
            assert(views(out@) =~= views(v@).take(i + 1));
        }
        i += 1;
    }
    proof {
        assert(views(v@).take(i as int) =~= views(v@));
    }
    out
}

impl AbstractSource for DebcargoSource {
    open spec fn name_view(&self) -> Option<Seq<char>> {
        self.name_spec()
    }

    open spec fn vcs_url_view(&self, vcs_type: Seq<char>) -> Option<Seq<char>> {
        self.vcs_url_spec(vcs_type)
    }

    /// The text of `dep` stands at the end of the list `build_depends` of
    /// the table `source`, where the table has that list; whether `dep` was
    /// there already is not looked at. Without the list nothing that the
    /// manifest says changes.
    open spec fn build_dep_ensured(old: Self, new: Self, dep: Seq<RelationView>) -> bool {
        match list_of(old.source_value("build_depends"@)) {
            Some(l) => source_set(
                old,
                new,
                "build_depends"@,
                ValueView::List(l.push(Some(entry_text(dep)))),
            ),
            None => new.cargo == old.cargo && new.debcargo.values == old.debcargo.values
                && forall|name: Seq<char>| #[trigger]
                table_entries(new.debcargo.tables@, name) == table_entries(
                    old.debcargo.tables@,
                    name,
                ),
        }
    }

    /// The text `maintainer` of the table `source` is set.
    open spec fn maintainer_set(old: Self, new: Self, maintainer: Seq<char>) -> bool {
        source_set(old, new, "maintainer"@, ValueView::Text(maintainer))
    }

    /// The list `uploaders` of the table `source` is set.
    open spec fn uploaders_set(old: Self, new: Self, uploaders: Seq<Seq<char>>) -> bool {
        source_set(old, new, "uploaders"@, ValueView::List(text_elements(uploaders)))
    }

    open spec fn vcs_url_set(old: Self, new: Self, vcs_type: Seq<char>, url: Seq<char>) -> bool {
        vcs_url_set(old, new, vcs_type, url)
    }

    fn name(&self) -> (r: Option<String>) {
        DebcargoSource::name(self)
    }

    fn ensure_build_dep(&mut self, dep: Entry) {
        let i = self.toml_section_mut();
        let ghost mid = *self;
        proof {
            assert(table_entries(mid.debcargo.tables@, "source"@)
                == mid.debcargo.tables@[i as int].entries@);
            assert(table_entries(mid.debcargo.tables@, "source"@) == table_entries(
                old(self).debcargo.tables@,
                "source"@,
            ));
            assert(mid.source_value("build_depends"@) == old(self).source_value("build_depends"@));
        }
        let found = crate::debcargo::find_key(&self.debcargo.tables[i].entries, "build_depends");
        let mut elements: Vec<Element> = match found {
            Some(k) => match &self.debcargo.tables[i].entries[k].value {
                Value::List(l) => copy_elements(l),
                _ => {
                    return ;
                },
            },
            None => {
                return ;
            },
        };
        let ghost before = element_views(elements@);
        let text = dep.to_string();
        elements.push(Element::Text(text));
        proof {
            assert(element_views(elements@) =~= before.push(Some(entry_text(dep@))));
        }
        self.set_source_value("build_depends", Value::List(elements));
        proof {
            assert forall|name: Seq<char>, k: Seq<char>| #[trigger]
                lookup(table_entries(self.debcargo.tables@, name), k) == (if name == "source"@
                    && k == "build_depends"@ {
                    Some(ValueView::List(before.push(Some(entry_text(dep@)))))
                } else {
                    lookup(table_entries(old(self).debcargo.tables@, name), k)
                }) by {
                assert(table_entries(mid.debcargo.tables@, name) == table_entries(
                    old(self).debcargo.tables@,
                    name,
                ));
            }
        }
    }

    fn set_maintainer(&mut self, maintainer: &str) {
        DebcargoSource::set_maintainer(self, maintainer);
    }

    fn set_uploaders(&mut self, uploaders: &Vec<String>) {
        let copy = copy_strings(uploaders);
        DebcargoSource::set_uploaders(self, copy);
    }

    fn set_vcs_url(&mut self, vcs_type: &str, url: &str) {
        DebcargoSource::set_vcs_url(self, vcs_type, url);
    }

    fn get_vcs_url(&self, vcs_type: &str) -> (r: Option<String>) {
        DebcargoSource::get_vcs_url(self, vcs_type)
    }
}

/// A control file that is being edited, with its path where it came from
/// a file.
pub struct PlainControlEditor {
    /// The path of `debian/control`.
    pub path: Option<String>,
    /// What the file holds.
    pub control: PlainControl,
}

fn copy_fields(fields: &Vec<Field>) -> (r: Vec<Field>)
    ensures
        field_views(r@) == field_views(fields@),
{
    let mut out: Vec<Field> = Vec::new();
    let mut i: usize = 0;
    while i < fields.len()
        invariant
            i <= fields.len(),
            field_views(out@) == field_views(fields@).take(i as int),
        decreases fields.len() - i,
    {
        let f = Field { name: fields[i].name.clone(), value: fields[i].value.clone() };
        let ghost before = field_views(out@);
        out.push(f);
        proof {
            assert(field_views(out@) =~= before.push(f@));
            assert(field_views(out@) =~= field_views(fields@).take(i + 1));
        }
        i += 1;
    }
    proof {
        assert(field_views(fields@).take(i as int) =~= field_views(fields@));
    }
    out
}

impl AbstractControlEditor for PlainControlEditor {
    type Source = PlainSource;

    type Binary = PlainBinary;

    open spec fn knows_binaries(&self) -> bool {
        true
    }

    fn can_tell_binaries(&self) -> (r: bool) {
        true
    }

    open spec fn has_source_view(&self) -> bool {
        self.control.source is Some
    }

    fn has_source(&self) -> (r: bool) {
        self.control.source.is_some()
    }

    /// The source paragraph of the file.
    fn source(&mut self) -> (r: &mut PlainSource)
        ensures
            Some(*r) == old(self).control.source,
            final(self).control.source == Some(*final(r)),
            final(self).control.binaries == old(self).control.binaries,
            final(self).path == old(self).path,
    {
        self.control.source.as_mut().unwrap()
    }

    /// The binary paragraphs, in the order of the file.
    fn binaries(&self) -> (r: Vec<PlainBinary>)
        ensures
            r@.len() == self.control.binaries@.len(),
            forall|i: int|
                0 <= i < r@.len() ==> field_views((#[trigger] r@[i]).fields@) == field_views(
                    self.control.binaries@[i].fields@,
                ),
    {
        let mut out: Vec<PlainBinary> = Vec::new();
        let mut i: usize = 0;
        while i < self.control.binaries.len()
            invariant
                i <= self.control.binaries.len(),
                out@.len() == i,
                forall|k: int|
                    0 <= k < i ==> field_views((#[trigger] out@[k]).fields@) == field_views(
                        self.control.binaries@[k].fields@,
                    ),
            decreases self.control.binaries.len() - i,
        {
            out.push(PlainBinary { fields: copy_fields(&self.control.binaries[i].fields) });
            i += 1;
        }
        out
    }

    fn commit(&self, old_contents: &str, new_contents: &str) -> (changed: bool) {
        !str_eq(old_contents, new_contents)
    }

    /// Leaves the model as it is. The control file is wrapped and its
    /// paragraphs are sorted outside the library; the order of the binary
    /// packages that the model holds is that of the file as it was read.
    fn wrap_and_sort(&mut self)
        ensures
            *final(self) == *old(self),
    {
    }
}

impl AbstractControlEditor for DebcargoEditor {
    type Source = DebcargoSource;

    type Binary = DebcargoBinary;

    open spec fn knows_binaries(&self) -> bool {
        self.main.crate_name_spec() is Some && self.main.crate_version_spec() is Some
    }

    fn can_tell_binaries(&self) -> (r: bool) {
        self.main.crate_name().is_some() && self.main.crate_version().is_some()
    }

    open spec fn has_source_view(&self) -> bool {
        true
    }

    fn has_source(&self) -> (r: bool) {
        true
    }

    /// The source package, which a manifest always has.
    fn source(&mut self) -> (r: &mut DebcargoSource)
        ensures
            *r == old(self).main,
            final(self).main == *final(r),
            final(self).debcargo_toml_path == old(self).debcargo_toml_path,
    {
        &mut self.main
    }

    fn binaries(&self) -> (r: Vec<DebcargoBinary>)
        ensures
            r@.len() == package_tables(
                self.main.debcargo.tables@,
                self.lib_name_spec(),
                self.bin_name_spec(),
                0,
            ).len(),
            forall|k: int|
                0 <= k < r@.len() ==> self.is_binary_of(
                    #[trigger] r@[k],
                    package_tables(
                        self.main.debcargo.tables@,
                        self.lib_name_spec(),
                        self.bin_name_spec(),
                        0,
                    )[k],
                ),
    {
        DebcargoEditor::binaries(self)
    }

    fn commit(&self, old_contents: &str, new_contents: &str) -> (changed: bool) {
        DebcargoEditor::commit(self, old_contents, new_contents)
    }

    /// A manifest is not wrapped or sorted: nothing changes.
    fn wrap_and_sort(&mut self)
        ensures
            *final(self) == *old(self),
    {
    }
}

/// What was read for a package: the manifest pair where there is a
/// `debian/debcargo.toml`, and the control file where there is none.
pub enum PackageFiles {
    /// `debian/debcargo.toml`, with its path, and `Cargo.toml`.
    Manifest { debcargo_toml_path: String, debcargo: Debcargo, cargo: Cargo },
    /// `debian/control`, with its path.
    Control { path: String, control: PlainControl },
}

/// An editor of either kind.
pub enum ControlEditor {
    /// An editor of a packaging manifest.
    ManifestBacked(DebcargoEditor),
    /// An editor of a control file.
    StanzaBacked(PlainControlEditor),
}

/// The file that an editor for a package has to read:
/// `debian/debcargo.toml` where the tree has it, else `debian/control`.
pub fn edit_control_path(has_debcargo_toml: bool) -> (r: &'static str)
    ensures
        r@ == (if has_debcargo_toml {
            "debian/debcargo.toml"@
        } else {
            "debian/control"@
        }),
{
    if has_debcargo_toml {
        "debian/debcargo.toml"
    } else {
        "debian/control"
    }
}

/// Opens the files of a package for editing: a manifest-backed editor for
/// a manifest pair, a stanza-backed editor for a control file.
pub fn edit_control(files: PackageFiles) -> (r: ControlEditor)
    ensures
        match files {
            PackageFiles::Manifest { debcargo_toml_path, debcargo, cargo } => r
                matches ControlEditor::ManifestBacked(e) && text_view(e.debcargo_toml_path)
                == Some(debcargo_toml_path@) && e.main.debcargo == debcargo && e.main.cargo
                == Some(cargo),
            PackageFiles::Control { path, control } => r matches ControlEditor::StanzaBacked(e)
                && e.path == Some(path) && e.control == control,
        },
{
    match files {
        PackageFiles::Manifest { debcargo_toml_path, debcargo, cargo } => {
            ControlEditor::ManifestBacked(
                DebcargoEditor::from_directory(debcargo_toml_path.as_str(), debcargo, cargo),
            )
        },
        PackageFiles::Control { path, control } => {
            ControlEditor::StanzaBacked(PlainControlEditor { path: Some(path), control })
        },
    }
}

impl ControlEditor {
    /// Whether there is a source package: always for a manifest, and for a
    /// control file where it has a source paragraph.
    pub open spec fn has_source_spec(self) -> bool {
        match self {
            ControlEditor::ManifestBacked(_) => true,
            ControlEditor::StanzaBacked(e) => e.control.source is Some,
        }
    }

    /// The editor after its source package was edited: `manifest` says what
    /// became of the source of a manifest, `stanza` what became of the
    /// source paragraph of a control file. Nothing else changes.
    pub open spec fn source_edited(
        old: ControlEditor,
        new: ControlEditor,
        manifest: spec_fn(DebcargoSource, DebcargoSource) -> bool,
        stanza: spec_fn(PlainSource, PlainSource) -> bool,
    ) -> bool {
        match (old, new) {
            (ControlEditor::ManifestBacked(a), ControlEditor::ManifestBacked(b)) => {
                b.debcargo_toml_path == a.debcargo_toml_path && manifest(a.main, b.main)
            },
            (ControlEditor::StanzaBacked(a), ControlEditor::StanzaBacked(b)) => {
                b.path == a.path && b.control.binaries == a.control.binaries && (
                match (a.control.source, b.control.source) {
                    (Some(s), Some(t)) => stanza(s, t),
                    _ => false,
                })
            },
            _ => false,
        }
    }

    /// Whether there is a source package.
    pub fn has_source(&self) -> (r: bool)
        ensures
            r == self.has_source_spec(),
    {
        match self {
            ControlEditor::ManifestBacked(_) => true,
            ControlEditor::StanzaBacked(e) => e.control.source.is_some(),
        }
    }

    /// The name of the source package.
    pub fn source_name(&self) -> (r: Option<String>)
        ensures
            text_view(r) == (match self {
                ControlEditor::ManifestBacked(e) => e.main.name_view(),
                ControlEditor::StanzaBacked(e) => match e.control.source {
                    Some(s) => s.name_view(),
                    None => None,
                },
            }),
    {
        match self {
            ControlEditor::ManifestBacked(e) => AbstractSource::name(&e.main),
            ControlEditor::StanzaBacked(e) => match &e.control.source {
                Some(s) => AbstractSource::name(s),
                None => None,
            },
        }
    }

    /// The URL of the package under one kind of version control.
    pub fn get_vcs_url(&self, vcs_type: &str) -> (r: Option<String>)
        ensures
            text_view(r) == (match self {
                ControlEditor::ManifestBacked(e) => e.main.vcs_url_view(vcs_type@),
                ControlEditor::StanzaBacked(e) => match e.control.source {
                    Some(s) => s.vcs_url_view(vcs_type@),
                    None => None,
                },
            }),
    {
        match self {
            ControlEditor::ManifestBacked(e) => AbstractSource::get_vcs_url(&e.main, vcs_type),
            ControlEditor::StanzaBacked(e) => match &e.control.source {
                Some(s) => AbstractSource::get_vcs_url(s, vcs_type),
                None => None,
            },
        }
    }

    /// Makes sure that a build dependency is there.
    pub fn ensure_build_dep(&mut self, dep: Entry)
        requires
            old(self).has_source_spec(),
        ensures
            Self::source_edited(
                *old(self),
                *final(self),
                |a: DebcargoSource, b: DebcargoSource| DebcargoSource::build_dep_ensured(a, b, dep@),
                |a: PlainSource, b: PlainSource| PlainSource::build_dep_ensured(a, b, dep@),
            ),
    {
        match self {
            ControlEditor::ManifestBacked(e) => AbstractSource::ensure_build_dep(&mut e.main, dep),
            ControlEditor::StanzaBacked(e) => {
                let source = e.source();
                AbstractSource::ensure_build_dep(source, dep)
            },
        }
    }

    /// Sets the maintainer.
    pub fn set_maintainer(&mut self, maintainer: &str)
        requires
            old(self).has_source_spec(),
        ensures
            Self::source_edited(
                *old(self),
                *final(self),
                |a: DebcargoSource, b: DebcargoSource|
                    DebcargoSource::maintainer_set(a, b, maintainer@),
                |a: PlainSource, b: PlainSource| PlainSource::maintainer_set(a, b, maintainer@),
            ),
    {
        match self {
            ControlEditor::ManifestBacked(e) => AbstractSource::set_maintainer(
                &mut e.main,
                maintainer,
            ),
            ControlEditor::StanzaBacked(e) => {
                let source = e.source();
                AbstractSource::set_maintainer(source, maintainer)
            },
        }
    }

    /// Sets the uploaders.
    pub fn set_uploaders(&mut self, uploaders: &Vec<String>)
        requires
            old(self).has_source_spec(),
        ensures
            Self::source_edited(
                *old(self),
                *final(self),
                |a: DebcargoSource, b: DebcargoSource|
                    DebcargoSource::uploaders_set(a, b, views(uploaders@)),
                |a: PlainSource, b: PlainSource| PlainSource::uploaders_set(a, b, views(uploaders@)),
            ),
    {
        match self {
            ControlEditor::ManifestBacked(e) => AbstractSource::set_uploaders(
                &mut e.main,
                uploaders,
            ),
            ControlEditor::StanzaBacked(e) => {
                let source = e.source();
                AbstractSource::set_uploaders(source, uploaders)
            },
        }
    }

    /// Sets the URL of the package under one kind of version control.
    pub fn set_vcs_url(&mut self, vcs_type: &str, url: &str)
        requires
            old(self).has_source_spec(),
        ensures
            Self::source_edited(
                *old(self),
                *final(self),
                |a: DebcargoSource, b: DebcargoSource|
                    DebcargoSource::vcs_url_set(a, b, vcs_type@, url@),
                |a: PlainSource, b: PlainSource| PlainSource::vcs_url_set(a, b, vcs_type@, url@),
            ),
    {
        match self {
            ControlEditor::ManifestBacked(e) => AbstractSource::set_vcs_url(
                &mut e.main,
                vcs_type,
                url,
            ),
            ControlEditor::StanzaBacked(e) => {
                let source = e.source();
                AbstractSource::set_vcs_url(source, vcs_type, url)
            },
        }
    }

    /// Whether committing has to write the file: it has to where what the
    /// document now serializes to differs from what the file holds, and
    /// only there.
    pub fn commit(&self, old_contents: &str, new_contents: &str) -> (changed: bool)
        ensures
            changed == (old_contents@ != new_contents@),
    {
        !str_eq(old_contents, new_contents)
    }
}

} // verus!
