//! Repository configuration: locations, core options, and the checks that
//! the server and re-initialisation make.

use vstd::prelude::*;

use crate::hash::{alg_name, HashAlgorithm};
use crate::responses::{ErrorKind, OutpackError};
use crate::text::{chars_of, push_str, str_eq, string_of};

verus! {

/// A place packets are known at.
#[derive(Debug, Clone)]
pub struct Location {
    pub name: String,
    pub id: String,
    pub priority: i64,
}

/// The options that fix how a repository stores packets.
#[derive(Debug, Clone)]
pub struct Core {
    pub hash_algorithm: HashAlgorithm,
    pub path_archive: Option<String>,
    pub use_file_store: bool,
    pub require_complete_tree: bool,
}

/// A repository's configuration.
#[derive(Debug, Clone)]
pub struct Config {
    pub schema_version: String,
    pub location: Vec<Location>,
    pub core: Core,
}

pub open spec fn opt_text(o: Option<String>) -> Option<Seq<char>> {
    match o {
        Some(s) => Some(s@),
        None => None,
    }
}

/// Two sets of core options are the same.
pub open spec fn core_same(a: Core, b: Core) -> bool {
    &&& a.hash_algorithm == b.hash_algorithm
    &&& opt_text(a.path_archive) == opt_text(b.path_archive)
    &&& a.use_file_store == b.use_file_store
    &&& a.require_complete_tree == b.require_complete_tree
}

/// The schema version of new configurations.
pub open spec fn schema_version_text() -> Seq<char> {
    "0.1.1"@
}

/// The name, and the id, of the location every repository has.
pub open spec fn local_text() -> Seq<char> {
    "local"@
}

impl Core {
    /// Whether two sets of core options are the same.
    pub fn same_as(&self, o: &Core) -> (r: bool)
        ensures
            r == core_same(*self, *o),
    {
        let archive_same = match (&self.path_archive, &o.path_archive) {
            (Some(a), Some(b)) => str_eq(a.as_str(), b.as_str()),
            (None, None) => true,
            _ => false,
        };
        self.hash_algorithm == o.hash_algorithm && archive_same && self.use_file_store
            == o.use_file_store && self.require_complete_tree == o.require_complete_tree
    }
}

impl Config {
    /// A new configuration: SHA-256 hashes, the given options, and the one
    /// location `local`.
    pub fn new(path_archive: Option<String>, use_file_store: bool, require_complete_tree: bool) -> (r: Config)
        ensures
            r.schema_version@ == schema_version_text(),
            r.location@.len() == 1,
            r.location@[0].name@ == local_text(),
            r.location@[0].id@ == local_text(),
            r.location@[0].priority == 0,
            r.core.hash_algorithm == HashAlgorithm::Sha256,
            r.core.path_archive == path_archive,
            r.core.use_file_store == use_file_store,
            r.core.require_complete_tree == require_complete_tree,
    {
        let mut location: Vec<Location> = Vec::new();
        location.push(
            Location { name: String::from_str("local"), id: String::from_str("local"), priority: 0 },
        );
        let core = Core {
            hash_algorithm: HashAlgorithm::Sha256,
            path_archive,
            use_file_store,
            require_complete_tree,
        };
        Config { schema_version: String::from_str("0.1.1"), location, core }
    }
}

/// Why a configuration cannot serve packets, checked in this order; `None`
/// if it can.
pub open spec fn config_problem(core: Core) -> Option<Seq<char>> {
    if !core.use_file_store {
        Some("Outpack must be configured to use a file store"@)
    } else if !core.require_complete_tree {
        Some("Outpack must be configured to require a complete tree"@)
    } else if core.hash_algorithm != HashAlgorithm::Sha256 {
        Some(
            "Outpack must be configured to use hash algorithm 'sha256', but you are using '"@
                + alg_name(core.hash_algorithm) + "'"@,
        )
    } else if core.path_archive is Some {
        Some(
            "Outpack must be configured to *not* use an archive, but your path_archive is '"@
                + core.path_archive->Some_0@ + "'"@,
        )
    } else {
        None
    }
}

/// Checks that a configuration can serve packets: a file store, a complete
/// tree, SHA-256 and no archive.
pub fn check_config(config: &Config) -> (r: Result<(), String>)
    ensures
        match config_problem(config.core) {
            None => r is Ok,
            Some(m) => r is Err && r->Err_0@ == m,
        },
{
    if !config.core.use_file_store {
        return Err(String::from_str("Outpack must be configured to use a file store"));
    }
    if !config.core.require_complete_tree {
        return Err(String::from_str("Outpack must be configured to require a complete tree"));
    }
    if config.core.hash_algorithm != HashAlgorithm::Sha256 {
        let mut m: Vec<char> = Vec::new();
        push_str(&mut m, "Outpack must be configured to use hash algorithm 'sha256', but you are using '");
        push_str(&mut m, config.core.hash_algorithm.to_string().as_str());
        push_str(&mut m, "'");
        return Err(string_of(&m));
    }
    match &config.core.path_archive {
        Some(p) => {
            let mut m: Vec<char> = Vec::new();
            push_str(&mut m, "Outpack must be configured to *not* use an archive, but your path_archive is '");
            push_str(&mut m, p.as_str());
            push_str(&mut m, "'");
            Err(string_of(&m))
        },
        None => Ok(()),
    }
}

/// Checks a repository before serving it: its `.outpack` directory exists
/// (`outpack_exists`), its configuration could be read (`config`, else the
/// reason) and passes `check_config`.
pub fn preflight(root_path: &str, outpack_exists: bool, config: &Result<Config, String>) -> (r: Result<(), String>)
    ensures
        !outpack_exists ==> r is Err && r->Err_0@ == "Outpack root not found at '"@ + root_path@ + "'"@,
        outpack_exists && config is Err ==> r is Err && r->Err_0@ == "Failed to read outpack config from '"@
            + root_path@ + "': "@ + config->Err_0@,
        outpack_exists && config is Ok ==> match config_problem(config->Ok_0.core) {
            None => r is Ok,
            Some(m) => r is Err && r->Err_0@ == m,
        },
{
    if !outpack_exists {
        let mut m: Vec<char> = Vec::new();
        push_str(&mut m, "Outpack root not found at '");
        push_str(&mut m, root_path);
        push_str(&mut m, "'");
        return Err(string_of(&m));
    }
    match config {
        Ok(c) => check_config(c),
        Err(e) => {
            let mut m: Vec<char> = Vec::new();
            push_str(&mut m, "Failed to read outpack config from '");
            push_str(&mut m, root_path);
            push_str(&mut m, "': ");
            push_str(&mut m, e.as_str());
            Err(string_of(&m))
        },
    }
}

/// The id of the first location named `local`, if there is one.
pub open spec fn local_id_spec(locs: Seq<Location>) -> Option<Seq<char>>
    decreases locs.len(),
{
    if locs.len() == 0 {
        None
    } else if locs[0].name@ == local_text() {
        Some(locs[0].id@)
    } else {
        local_id_spec(locs.drop_first())
    }
}

/// The id of the location named `local`; a configuration without one is
/// invalid data.
pub fn get_local_location_id(config: &Config) -> (r: Result<String, OutpackError>)
    ensures
        match local_id_spec(config.location@) {
            Some(id) => r is Ok && r->Ok_0@ == id,
            None => r is Err && r->Err_0.kind == Some(ErrorKind::InvalidData),
        },
{
    let locs = &config.location;
    let mut i: usize = 0;
    proof {
        assert(locs@.subrange(0, locs@.len() as int) =~= locs@);
    }
    while i < locs.len()
        invariant
            i <= locs@.len(),
            locs@ == config.location@,
            local_id_spec(locs@) == local_id_spec(locs@.subrange(i as int, locs@.len() as int)),
        decreases locs@.len() - i,
    {
        proof {
            let rest = locs@.subrange(i as int, locs@.len() as int);
            assert(rest[0] == locs@[i as int]);
            assert(rest.drop_first() =~= locs@.subrange(i + 1, locs@.len() as int));
        }
        if str_eq(locs[i].name.as_str(), "local") {
            proof {
                let rest = locs@.subrange(i as int, locs@.len() as int);
                assert(rest.len() > 0);
                assert(rest[0].name@ == local_text());
                assert(local_id_spec(rest) == Some(rest[0].id@));
            }
            let cs = chars_of(locs[i].id.as_str());
            return Ok(string_of(&cs));
        }
        i = i + 1;
    }
    Err(
        OutpackError::new(
            ErrorKind::InvalidData,
            String::from_str("configuration has no location named 'local'"),
        ),
    )
}

/// What initialising a repository must do on disk.
#[derive(Debug)]
pub struct InitPlan {
    /// The configuration to write to `.outpack/config.json`.
    pub config: Config,
    /// Directories to create, in order.
    pub directories: Vec<String>,
}

/// The directories a new repository has, under `path`.
pub open spec fn init_dirs(path: Seq<char>, use_file_store: bool) -> Seq<Seq<char>> {
    let base = seq![
        path + "/.outpack"@,
        path + "/.outpack/location/local"@,
        path + "/.outpack/metadata"@,
    ];
    if use_file_store {
        base.push(path + "/.outpack/files"@)
    } else {
        base
    }
}

fn dir_under(path: &str, rest: &str) -> (r: String)
    ensures
        r@ == path@ + rest@,
{
    let mut m: Vec<char> = Vec::new();
    push_str(&mut m, path);
    push_str(&mut m, rest);
    string_of(&m)
}

/// Decides how to initialise a repository at `path`, given the configuration
/// already there, if any: nothing to do when the core options are the same,
/// an error when they differ, else the configuration and directories to
/// create.
pub fn outpack_init(
    path: &str,
    existing: Option<&Config>,
    path_archive: Option<String>,
    use_file_store: bool,
    require_complete_tree: bool,
) -> (r: Result<Option<InitPlan>, OutpackError>)
    ensures
        match existing {
            Some(prev) => {
                let wanted = Core {
                    hash_algorithm: HashAlgorithm::Sha256,
                    path_archive,
                    use_file_store,
                    require_complete_tree,
                };
                if core_same(prev.core, wanted) {
                    r == Ok::<Option<InitPlan>, OutpackError>(None)
                } else {
                    r is Err && r->Err_0.kind == Some(ErrorKind::InvalidInput) && r->Err_0.detail@
                        == "Trying to change config on reinitialisation"@
                }
            },
            None => r is Ok && r->Ok_0 is Some && ({
                let plan = r->Ok_0->Some_0;
                &&& plan.config.core.hash_algorithm == HashAlgorithm::Sha256
                &&& plan.config.core.path_archive == path_archive
                &&& plan.config.core.use_file_store == use_file_store
                &&& plan.config.core.require_complete_tree == require_complete_tree
                &&& plan.config.location@.len() == 1
                &&& plan.config.location@[0].name@ == local_text()
                &&& plan.directories@.map_values(|d: String| d@) == init_dirs(path@, use_file_store)
            }),
        },
{
    let cfg = Config::new(path_archive, use_file_store, require_complete_tree);
    match existing {
        Some(prev) => {
            if prev.core.same_as(&cfg.core) {
                Ok(None)
            } else {
                Err(
                    OutpackError::new(
                        ErrorKind::InvalidInput,
                        String::from_str("Trying to change config on reinitialisation"),
                    ),
                )
            }
        },
        None => {
            let mut directories: Vec<String> = Vec::new();
            directories.push(dir_under(path, "/.outpack"));
            directories.push(dir_under(path, "/.outpack/location/local"));
            directories.push(dir_under(path, "/.outpack/metadata"));
            if use_file_store {
                directories.push(dir_under(path, "/.outpack/files"));
            }
            proof {
                assert(directories@.map_values(|d: String| d@) =~= init_dirs(path@, use_file_store));
            }
            Ok(Some(InitPlan { config: cfg, directories }))
        },
    }
}

} // verus!
