//! The project manifest and lockfile of the scaffolding tool, and the
//! rules for editing them.
//!
//! Reading and writing the files themselves is I/O and lives outside the
//! library; the decisions — which names are acceptable, when a module
//! may be added, what the generated package is called — are made here.

use vstd::prelude::*;

verus! {

/// The `script` table of a project manifest.
#[derive(Debug)]
pub struct ScriptConfig {
    /// The project name.
    pub name: String,
    /// The project version.
    pub version: String,
}

/// The `library` table of a project manifest.
#[derive(Debug)]
pub struct LibraryConfig {
    /// The library name.
    pub name: String,
    /// The library version.
    pub version: String,
}

/// A project manifest: a script or a library, with its module
/// dependencies as name–version pairs.
#[derive(Debug)]
pub struct Config {
    /// Present when the project is a script.
    pub script: Option<ScriptConfig>,
    /// Present when the project is a library.
    pub library: Option<LibraryConfig>,
    /// The declared modules, in insertion order.
    pub dependencies: Vec<(String, String)>,
}

/// One resolved dependency of the lockfile.
#[derive(Debug)]
pub struct LockedDependency {
    /// The declared version.
    pub version: String,
    /// The package name used for the build.
    pub cargo_name: String,
    /// The package version used for the build.
    pub cargo_version: String,
}

/// The lockfile: resolved dependencies keyed by module name.
#[derive(Debug)]
pub struct Lockfile {
    /// The resolved dependencies, in insertion order.
    pub dependencies: Vec<(String, LockedDependency)>,
}

/// Why a manifest edit was refused.
#[derive(Debug, Clone, Copy, PartialEq, Eq, Structural)]
pub enum ConfigError {
    /// Modules can be added to scripts only.
    ProjectIsLibrary,
    /// The module is already declared.
    ModuleExists,
}

/// A character acceptable at the start of a module name: an ASCII
/// letter.
pub open spec fn is_name_start(c: char) -> bool {
    (('a' as u32) <= (c as u32) && (c as u32) <= ('z' as u32)) || (('A' as u32) <= (c as u32) && (
    c as u32) <= ('Z' as u32))
}

/// A character acceptable inside a module name: an ASCII letter, a
/// digit, an underscore or a hyphen.
pub open spec fn is_name_char(c: char) -> bool {
    is_name_start(c) || (('0' as u32) <= (c as u32) && (c as u32) <= ('9' as u32)) || c == '_'
        || c == '-'
}

/// A valid module name: non-empty, starting with an ASCII letter, made
/// of letters, digits, underscores and hyphens.
pub open spec fn spec_valid_module_name(s: Seq<char>) -> bool {
    &&& s.len() > 0
    &&& is_name_start(s[0])
    &&& forall|i: int| 0 <= i < s.len() ==> is_name_char(#[trigger] s[i])
}

/// Whether `name` is acceptable as a module name.
pub fn valid_module_name(name: &str) -> (r: bool)
    ensures
        r == spec_valid_module_name(name@),
{
    let n = name.unicode_len();
    if n == 0 {
        return false;
    }
    let first = name.get_char(0);
    let fu = first as u32;
    let first_ok = (97 <= fu && fu <= 122) || (65 <= fu && fu <= 90);
    if !first_ok {
        proof {
            assert(!is_name_start(name@[0]));
        }
        return false;
    }
    let mut i: usize = 0;
    while i < n
        invariant
            n == name@.len(),
            i <= n,
            forall|i2: int| 0 <= i2 < i ==> is_name_char(#[trigger] name@[i2]),
        decreases n - i,
    {
        let c = name.get_char(i);
        let u = c as u32;
        let ok = (97 <= u && u <= 122) || (65 <= u && u <= 90) || (48 <= u && u <= 57) || c == '_'
            || c == '-';
        if !ok {
            proof {
                assert(!is_name_char(name@[i as int]));
            }
            return false;
        }
        i = i + 1;
    }
    true
}

/// The version declared for module `key`, if any; a later declaration
/// wins.
pub open spec fn dep_lookup(entries: Seq<(String, String)>, key: Seq<char>) -> Option<Seq<char>>
    decreases entries.len(),
{
    if entries.len() == 0 {
        None
    } else if entries.last().0@ == key {
        Some(entries.last().1@)
    } else {
        dep_lookup(entries.drop_last(), key)
    }
}

impl Config {
    /// Whether a module of this name is already declared.
    pub fn contains_dependency(&self, name: &String) -> (r: bool)
        ensures
            r == (dep_lookup(self.dependencies@, name@) is Some),
    {
        let entries = &self.dependencies;
        let mut i = entries.len();
        proof {
            assert(entries@.take(entries@.len() as int) =~= entries@);
        }
        while i > 0
            invariant
                entries@ == self.dependencies@,
                i <= entries@.len(),
                dep_lookup(entries@, name@) == dep_lookup(entries@.take(i as int), name@),
            decreases i,
        {
            i = i - 1;
            proof {
                assert(entries@.take(i + 1).drop_last() =~= entries@.take(i as int));
                assert(entries@.take(i + 1).last() == entries@[i as int]);
            }
            if entries[i].0 == *name {
                proof {
                    assert(dep_lookup(entries@, name@) == dep_lookup(
                        entries@.take(i + 1 as int),
                        name@,
                    ));
                    assert(dep_lookup(entries@.take(i + 1 as int), name@) is Some);
                }
                return true;
            }
        }
        proof {
            assert(entries@.take(0) =~= Seq::<(String, String)>::empty());
        }
        false
    }

    /// Declare a new module.
    ///
    /// Refused when the project is a library or when the module already
    /// exists.  On success the module is declared at version `latest`,
    /// and the package name to build against — the module name under the
    /// `blyx-` prefix — is returned with the new manifest.
    pub fn add_module(self, name: String) -> (r: Result<(Config, String), ConfigError>)
        ensures
            self.library is Some ==> r == Err::<(Config, String), ConfigError>(
                ConfigError::ProjectIsLibrary,
            ),
            self.library is None && dep_lookup(self.dependencies@, name@) is Some ==> r == Err::<
                (Config, String),
                ConfigError,
            >(ConfigError::ModuleExists),
            self.library is None && dep_lookup(self.dependencies@, name@) is None ==> (r matches Ok(
                (c, cargo),
            ) && c.script == self.script && c.library is None && c.dependencies@.len()
                == self.dependencies@.len() + 1 && c.dependencies@.last().0 == name
                && c.dependencies@.last().1@ == "latest"@ && c.dependencies@.take(
                self.dependencies@.len() as int,
            ) == self.dependencies@ && cargo@ == "blyx-"@ + name@),
    {
        if self.library.is_some() {
            return Err(ConfigError::ProjectIsLibrary);
        }
        if self.contains_dependency(&name) {
            return Err(ConfigError::ModuleExists);
        }
        let cargo = "blyx-".to_owned().concat(name.as_str());
        let mut deps = self.dependencies;
        let ghost old_deps = deps@;
        deps.push((name, "latest".to_owned()));
        proof {
            assert(deps@.take(old_deps.len() as int) =~= old_deps);
        }
        let c = Config { script: self.script, library: None, dependencies: deps };
        Ok((c, cargo))
    }
}

impl Lockfile {
    /// A lockfile with no resolved dependencies.
    pub fn new() -> (r: Lockfile)
        ensures
            r.dependencies@ == Seq::<(String, LockedDependency)>::empty(),
    {
        Lockfile { dependencies: Vec::new() }
    }
}

impl Default for Lockfile {
    /// The default lockfile is empty, standing for an absent file.
    fn default() -> (r: Self)
        ensures
            r.dependencies@ == Seq::<(String, LockedDependency)>::empty(),
    {
        Lockfile::new()
    }
}

} // verus!
