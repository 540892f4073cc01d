//! Tools for editing the metadata of Debian packages.
//!
//! - `relations`: dependency relations, and making sure of a relation or of
//!   a least version.
//! - `changes`: what one such edit changed in a list of relations, for
//!   whoever writes it back into a file.
//! - `debhelper`: the debhelper compat level of a package, and the version
//!   of debhelper that it build-depends on.
//! - `rules`: the `dh` invocation of `debian/rules`, and overrides that
//!   only call the command that they override.
//! - `rules_proofs`: what holds of adding to and dropping from the `--with`
//!   list.
//! - `control`, `debcargo`, `abstract_control`: control files, debcargo
//!   manifests, and one interface to edit either.
//! - `lintian`, `release_info`, `config`, `versions`: policy versions,
//!   releases of Debian and Ubuntu, the package's settings, and upstream
//!   version strings.
//! - `text`: the handling of text that the rest is built from.
//!
//! The library works on values that a caller has read: it opens no file
//! and runs no program. Its functions are verified against their
//! contracts; the few calls into other crates are marked where they stand,
//! with what is taken on trust about them.

pub mod abstract_control;
pub mod changes;
pub mod config;
pub mod control;
pub mod debcargo;
pub mod debhelper;
pub mod lintian;
pub mod relations;
pub mod release_info;
pub mod rules;
pub mod rules_proofs;
pub mod text;
pub mod versions;
