//! Facts about the machine that decisions are made for.

use crate::env::{law_case_of_names_is_ignored, law_set_then_get, lookup, with_pair, EnvMap, Pair};
use crate::text::{same_ignoring_ascii_case, same_text};
use vstd::prelude::*;

verus! {

/// The operating system that a decision is made for.
#[derive(Clone, Copy, Debug, PartialEq, Eq, Structural)]
pub enum Platform {
    /// Microsoft Windows.
    Windows,
    /// Linux.
    Linux,
    /// Apple macOS.
    MacOs,
    /// Any other system with Unix paths.
    Other,
}

/// What is known of a machine: its system, its environment variables and the state of the paths
/// that a decision may depend on.
#[derive(Debug)]
pub struct Host {
    /// The operating system.
    pub platform: Platform,
    /// The environment variables whose names and values are text.
    pub env: EnvMap,
    /// The paths that exist.
    pub existing: Vec<String>,
    /// The canonical form of each path that has one.
    pub canonical: EnvMap,
    /// The path of the bubblewrap program, if there is one.
    pub bwrap: Option<String>,
    /// The Seatbelt policy that every macOS sandbox starts from.
    pub seatbelt_base: String,
    /// The Seatbelt policy that goes with network access.
    pub seatbelt_network: String,
}

/// The value of a variable on the given system. Windows ignores the case of names.
pub open spec fn variable(env: Seq<Pair>, name: Seq<char>, platform: Platform) -> Option<Seq<char>> {
    lookup(env, name, platform is Windows)
}

/// The home directory: the first of `USERPROFILE`, `HOME` and `HOMEDIR` that is set.
pub open spec fn home_directory(env: Seq<Pair>, platform: Platform) -> Option<Seq<char>> {
    if variable(env, "USERPROFILE"@, platform) is Some {
        variable(env, "USERPROFILE"@, platform)
    } else if variable(env, "HOME"@, platform) is Some {
        variable(env, "HOME"@, platform)
    } else {
        variable(env, "HOMEDIR"@, platform)
    }
}

impl Host {
    /// A machine of which only the system is known.
    pub fn new(platform: Platform) -> (r: Host)
        ensures
            r.platform == platform,
            r.env.pairs() == Seq::<Pair>::empty(),
            r.existing@ == Seq::<String>::empty(),
            r.canonical.pairs() == Seq::<Pair>::empty(),
            r.bwrap is None,
            r.seatbelt_base@ == Seq::<char>::empty(),
            r.seatbelt_network@ == Seq::<char>::empty(),
    {
        Host {
            platform,
            env: EnvMap::new(),
            existing: Vec::new(),
            canonical: EnvMap::new(),
            bwrap: None,
            seatbelt_base: String::new(),
            seatbelt_network: String::new(),
        }
    }

    /// The value of the variable `name`.
    pub open spec fn spec_var(&self, name: Seq<char>) -> Option<Seq<char>> {
        variable(self.env.pairs(), name, self.platform)
    }

    /// Whether the path is known to exist.
    pub open spec fn has_path(&self, p: Seq<char>) -> bool {
        self.existing.deep_view().contains(p)
    }

    /// Reads an environment variable.
    pub fn var(&self, name: &str) -> (r: Option<String>)
        ensures
            match r {
                Some(v) => self.spec_var(name@) == Some(v@),
                None => self.spec_var(name@) is None,
            },
    {
        self.env.get(name, self.platform == Platform::Windows)
    }

    /// Finds the home directory.
    pub fn home(&self) -> (r: Option<String>)
        ensures
            match r {
                Some(v) => home_directory(self.env.pairs(), self.platform) == Some(v@),
                None => home_directory(self.env.pairs(), self.platform) is None,
            },
    {
        match self.var("USERPROFILE") {
            Some(v) => Some(v),
            None => match self.var("HOME") {
                Some(v) => Some(v),
                None => self.var("HOMEDIR"),
            },
        }
    }

    /// Tells whether the path exists.
    pub fn path_exists(&self, p: &str) -> (r: bool)
        ensures
            r == self.has_path(p@),
    {
        let n: usize = self.existing.len();
        for i in 0..n
            invariant
                n == self.existing@.len(),
                forall|k: int| 0 <= k < i ==> #[trigger] self.existing.deep_view()[k] != p@,
        {
            if same_text(self.existing[i].as_str(), p) {
                assert(self.existing.deep_view()[i as int] == p@);
                return true;
            }
        }
        false
    }

    /// The canonical form of the path, if it has one.
    pub open spec fn canonical_form(&self, p: Seq<char>) -> Option<Seq<char>> {
        lookup(self.canonical.pairs(), p, false)
    }

    /// Reads the canonical form of the path, if it has one.
    pub fn canonicalized(&self, p: &str) -> (r: Option<String>)
        ensures
            match r {
                Some(v) => self.canonical_form(p@) == Some(v@),
                None => self.canonical_form(p@) is None,
            },
    {
        self.canonical.get(p, false)
    }
}

/// The home directory is the value of `USERPROFILE`; where that is not set, of `HOME`; and where
/// neither is set, of `HOMEDIR`.
pub proof fn law_home_directory(env: Seq<Pair>, platform: Platform, home: Seq<char>)
    ensures
        variable(env, "USERPROFILE"@, platform) == Some(home) ==> home_directory(env, platform)
            == Some(home),
        variable(env, "USERPROFILE"@, platform) is None && variable(env, "HOME"@, platform) == Some(
            home,
        ) ==> home_directory(env, platform) == Some(home),
        variable(env, "USERPROFILE"@, platform) is None && variable(env, "HOME"@, platform) is None
            ==> home_directory(env, platform) == variable(env, "HOMEDIR"@, platform),
{
}

/// On Windows the case of ASCII letters in a name makes no difference. Elsewhere a variable that is
/// set under one name is found under that name, and under no other.
pub proof fn law_names_of_variables(
    env: Seq<Pair>,
    name: Seq<char>,
    value: Seq<char>,
    other: Seq<char>,
    platform: Platform,
)
    ensures
        same_ignoring_ascii_case(name, other) ==> variable(env, name, Platform::Windows)
            == variable(env, other, Platform::Windows),
        !(platform is Windows) ==> variable(with_pair(env, name, value), name, platform) == Some(
            value,
        ),
        !(platform is Windows) && other != name ==> variable(
            with_pair(env, name, value),
            other,
            platform,
        ) == variable(env, other, platform),
{
    law_set_then_get(env, name, value, other);
    if same_ignoring_ascii_case(name, other) {
        law_case_of_names_is_ignored(env, name, other);
    }
}

} // verus!
