//! The settings of `debian/lintian-brush.conf`.

use crate::control::{eq_ignore_ascii_case, eq_ignore_ascii_case_exec};
use crate::debcargo::text_view;
use crate::release_info::{DistroRelease, resolve_release_codename, resolved};
use crate::text::{first_index, lemma_first_index_is, lemma_first_index_none, str_eq, views};
use vstd::prelude::*;

verus! {

/// The name of the configuration file, from the root of the package.
pub const PACKAGE_CONFIG_FILENAME: &'static str = "debian/lintian-brush.conf";

/// The keys that the configuration file may hold.
pub open spec fn supported_keys() -> Seq<Seq<char>> {
    seq!["compat-release"@, "minimum-certainty"@, "allow-reformatting"@, "update-changelog"@]
}

/// How sure a change is.
#[derive(Clone, Copy, Debug, PartialEq, Eq, Structural)]
pub enum Certainty {
    Certain,
    Confident,
    Likely,
    Possible,
}

/// The certainty that a word names.
pub open spec fn certainty_of(s: Seq<char>) -> Option<Certainty> {
    if s == "certain"@ {
        Some(Certainty::Certain)
    } else if s == "confident"@ {
        Some(Certainty::Confident)
    } else if s == "likely"@ {
        Some(Certainty::Likely)
    } else if s == "possible"@ {
        Some(Certainty::Possible)
    } else {
        None
    }
}

/// The boolean that a value writes: `true` or `false`, in any case of
/// letters.
pub open spec fn boolean_of(s: Seq<char>) -> Option<bool> {
    if eq_ignore_ascii_case(s, "true"@) {
        Some(true)
    } else if eq_ignore_ascii_case(s, "false"@) {
        Some(false)
    } else {
        None
    }
}

/// One setting: a key and, where the file gives one, its value.
pub struct Setting {
    pub key: String,
    pub value: Option<String>,
}

/// The settings of the section `default` of the configuration file.
pub struct Config {
    pub settings: Vec<Setting>,
}

/// The predicate "the setting at this index has the key `key`" of a list.
pub open spec fn setting_pred(settings: Seq<Setting>, key: Seq<char>) -> spec_fn(int) -> bool {
    |i: int| settings[i].key@ == key
}

/// The value of the first setting with the key `key`, where it has one.
pub open spec fn setting(settings: Seq<Setting>, key: Seq<char>) -> Option<Seq<char>> {
    match first_index(setting_pred(settings, key), 0, settings.len() as int) {
        Some(i) => text_view(settings[i].value),
        None => None,
    }
}

/// The keys from index `i` on that the configuration file may not hold.
pub open spec fn unknown_from(settings: Seq<Setting>, i: int) -> Seq<Seq<char>>
    decreases settings.len() - i,
{
    if i < 0 || i >= settings.len() {
        Seq::empty()
    } else if supported_keys().contains(settings[i].key@) {
        unknown_from(settings, i + 1)
    } else {
        seq![settings[i].key@] + unknown_from(settings, i + 1)
    }
}

impl Config {
    /// The value of a key.
    pub fn get(&self, key: &str) -> (r: Option<String>)
        ensures
            text_view(r) == setting(self.settings@, key@),
    {
        let mut i: usize = 0;
        while i < self.settings.len()
            invariant
                i <= self.settings.len(),
                forall|k: int| 0 <= k < i ==> !#[trigger] setting_pred(self.settings@, key@)(k),
            decreases self.settings.len() - i,
        {
            if str_eq(self.settings[i].key.as_str(), key) {
                proof {
                    lemma_first_index_is(
                        setting_pred(self.settings@, key@),
                        0,
                        self.settings.len() as int,
                        i as int,
                    );
                }
                return match &self.settings[i].value {
                    Some(v) => Some(v.clone()),
                    None => None,
                };
            }
            i += 1;
        }
        proof {
            lemma_first_index_none(
                setting_pred(self.settings@, key@),
                0,
                self.settings.len() as int,
            );
        }
        None
    }

    /// The keys that the file holds and that mean nothing, in the order of
    /// the file.
    pub fn unknown_keys(&self) -> (r: Vec<String>)
        ensures
            views(r@) == unknown_from(self.settings@, 0),
    {
        let mut out: Vec<String> = Vec::new();
        let mut i: usize = 0;
        proof {
            assert(views(out@) + unknown_from(self.settings@, 0) =~= unknown_from(
                self.settings@,
                0,
            ));
        }
        while i < self.settings.len()
            invariant
                i <= self.settings.len(),
                views(out@) + unknown_from(self.settings@, i as int) == unknown_from(
                    self.settings@,
                    0,
                ),
            decreases self.settings.len() - i,
        {
            let key = self.settings[i].key.as_str();
            let known = str_eq(key, "compat-release") || str_eq(key, "minimum-certainty")
                || str_eq(key, "allow-reformatting") || str_eq(key, "update-changelog");
            proof {
                let keys = supported_keys();
                assert(keys[0] == "compat-release"@ && keys[1] == "minimum-certainty"@ && keys[2]
                    == "allow-reformatting"@ && keys[3] == "update-changelog"@);
            }
            if !known {
                let ghost before = views(out@);
                out.push(self.settings[i].key.clone());
                proof {
                    let k = self.settings@[i as int].key@;
                    assert(views(out@) =~= before.push(k));
                    assert(before + (seq![k] + unknown_from(self.settings@, i + 1))
                        =~= before.push(k) + unknown_from(self.settings@, i + 1));
                }
            }
            i += 1;
        }
        proof {
            assert(views(out@) + unknown_from(self.settings@, i as int) =~= views(out@));
        }
        out
    }

    /// The release to stay compatible with: the series that the value of
    /// `compat-release` resolves to on the day `date`.
    pub fn compat_release(
        &self,
        date: i64,
        debian: &Vec<DistroRelease>,
        ubuntu: &Vec<DistroRelease>,
    ) -> (r: Option<String>)
        ensures
            text_view(r) == (match setting(self.settings@, "compat-release"@) {
                Some(v) => resolved(v, date, debian@, ubuntu@),
                None => None,
            }),
    {
        match self.get("compat-release") {
            Some(v) => resolve_release_codename(v.as_str(), date, debian, ubuntu),
            None => None,
        }
    }

    /// Whether reformatting is allowed. `None` where the file does not say,
    /// or says something that is no boolean.
    pub fn allow_reformatting(&self) -> (r: Option<bool>)
        ensures
            r == (match setting(self.settings@, "allow-reformatting"@) {
                Some(v) => boolean_of(v),
                None => None,
            }),
    {
        match self.get("allow-reformatting") {
            Some(v) => parse_boolean(v.as_str()),
            None => None,
        }
    }

    /// The least certainty at which changes are made. `None` where the
    /// file does not say, or names no certainty.
    pub fn minimum_certainty(&self) -> (r: Option<Certainty>)
        ensures
            r == (match setting(self.settings@, "minimum-certainty"@) {
                Some(v) => certainty_of(v),
                None => None,
            }),
    {
        match self.get("minimum-certainty") {
            Some(v) => parse_certainty(v.as_str()),
            None => None,
        }
    }

    /// Whether the changelog is to be updated. `None` where the file does
    /// not say, or says something that is no boolean.
    pub fn update_changelog(&self) -> (r: Option<bool>)
        ensures
            r == (match setting(self.settings@, "update-changelog"@) {
                Some(v) => boolean_of(v),
                None => None,
            }),
    {
        match self.get("update-changelog") {
            Some(v) => parse_boolean(v.as_str()),
            None => None,
        }
    }
}

/// The boolean that a value writes.
pub fn parse_boolean(s: &str) -> (r: Option<bool>)
    ensures
        r == boolean_of(s@),
{
    if eq_ignore_ascii_case_exec(s, "true") {
        Some(true)
    } else if eq_ignore_ascii_case_exec(s, "false") {
        Some(false)
    } else {
        None
    }
}

/// The certainty that a word names.
pub fn parse_certainty(s: &str) -> (r: Option<Certainty>)
    ensures
        r == certainty_of(s@),
{
    if str_eq(s, "certain") {
        Some(Certainty::Certain)
    } else if str_eq(s, "confident") {
        Some(Certainty::Confident)
    } else if str_eq(s, "likely") {
        Some(Certainty::Likely)
    } else if str_eq(s, "possible") {
        Some(Certainty::Possible)
    } else {
        None
    }
}

} // verus!
