//! Programs that tools need.

use std::collections::HashMap;
use vstd::prelude::*;

verus! {

/// Where a program comes from.
#[derive(Debug)]
pub enum DepKind {
    /// A package of npm.
    NpmPackage { package: String, version: String, entry_point: String },
    /// A binary of a release.
    Binary { repo: String, asset_pattern: String, version: String },
}

/// How to tell that a program works.
#[derive(Debug)]
pub enum HealthCheck {
    /// A command succeeds.
    Command { command: String },
}

/// A program that a tool needs.
#[derive(Debug)]
pub struct Dependency {
    /// Its name.
    pub name: String,
    /// Where it comes from.
    pub kind: DepKind,
    /// How to tell that it works.
    pub health_check: HealthCheck,
    /// Its environment.
    pub env: HashMap<String, String>,
    /// Its arguments.
    pub args: Vec<String>,
}

impl Dependency {
    /// Whether the program comes from npm, under these names.
    pub open spec fn is_npm_package(
        &self,
        package: Seq<char>,
        version: Seq<char>,
        entry_point: Seq<char>,
    ) -> bool {
        match self.kind {
            DepKind::NpmPackage { package: p, version: v, entry_point: e } => p@ == package && v@
                == version && e@ == entry_point,
            DepKind::Binary { .. } => false,
        }
    }

    /// Whether the program is a binary of a release, under these names.
    pub open spec fn is_binary(
        &self,
        repo: Seq<char>,
        asset_pattern: Seq<char>,
        version: Seq<char>,
    ) -> bool {
        match self.kind {
            DepKind::NpmPackage { .. } => false,
            DepKind::Binary { repo: r, asset_pattern: a, version: v } => r@ == repo && a@
                == asset_pattern && v@ == version,
        }
    }

    /// Whether the program works where this command succeeds.
    pub open spec fn is_checked_by(&self, text: Seq<char>) -> bool {
        match self.health_check {
            HealthCheck::Command { command } => command@ == text,
        }
    }

    /// Whether the program runs with nothing in its environment and no arguments.
    pub open spec fn is_plain(&self) -> bool {
        self.env@ == Map::<String, String>::empty() && self.args@.len() == 0
    }
}

} // verus!
