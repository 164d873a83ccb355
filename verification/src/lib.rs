//! A convenience layer over a declarative package manager: it computes which
//! packages a request actually has to add or remove, rewrites the package-list
//! attribute of a configuration document while leaving the rest of the text
//! untouched, and drives the write / rebuild / restore sequence that applies
//! the change, rolling the document back when the rebuild fails.
//!
//! The pure logic lives here and is verified; reading files, spawning the
//! rebuild processes and all other I/O are left to the surrounding binary.
use vstd::prelude::*;

pub mod chars;
pub mod diff;
pub mod execute;
pub mod mutate;
pub mod normalize;
pub mod operate;
pub mod parse;
pub mod scan;
pub mod search;

verus! {

/// One package as the search cache describes it.
pub struct PkgData {
    pub pname: String,
    pub description: Option<String>,
    pub version: String,
}

/// The three surfaces a request can act on: the system-wide configuration
/// document, the per-user configuration document, or the imperative
/// per-user environment.
pub enum PackageTypes {
    System,
    Home,
    Env,
}

impl PackageTypes {
    /// True for the two targets that are backed by a configuration document.
    pub open spec fn is_declarative(&self) -> bool {
        self is System || self is Home
    }
}

/// Everything one invocation works with: the target, the requested packages,
/// the configuration paths, and the flags that shape the apply sequence.
pub struct NpkgData {
    pub pkgmgr: PackageTypes,
    pub pkgs: Vec<String>,
    pub output: Option<String>,
    pub syscfg: String,
    pub hmcfg: String,
    pub dryrun: bool,
    pub flake: Option<String>,
    pub currpkgs: Vec<String>,
}

} // verus!
