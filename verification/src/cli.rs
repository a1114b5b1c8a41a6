//! The command line: its commands and the choices that follow from them.
use vstd::prelude::*;
use crate::text::{concat, copy_str};

verus! {

/// The command line of the program.
#[derive(Debug)]
pub struct Cli {
    pub command: Commands,
    /// Verbose logging.
    pub verbose: bool,
}

/// The commands.
#[derive(Debug)]
#[allow(inconsistent_fields)]
pub enum Commands {
    /// Install mods.
    Install {
        game_path: String,
        mods_path: Option<String>,
        mod_list: Option<String>,
        /// The output directory; by default below the game directory.
        output_path: Option<String>,
        dry_run: bool,
        clear_cache: bool,
    },
    /// List the mods of a directory.
    List { mods_path: String },
    /// Validate a mod.
    Validate { mod_path: String },
}

/// Where the mods to install come from.
#[derive(Debug)]
pub enum InstallSource {
    /// A mod list file.
    ModList(String),
    /// A directory that holds one mod or several.
    ModsDir(String),
}

/// Command line errors.
#[derive(Debug, PartialEq, Eq, Structural)]
pub enum CliError {
    /// Neither a mods directory nor a mod list was given.
    NoModSource,
}

impl CliError {
    /// The error message.
    pub fn message(&self) -> (m: String)
        ensures
            m@ == "Either --mods-path or --mod-list must be specified"@,
    {
        copy_str("Either --mods-path or --mod-list must be specified")
    }
}

/// The view of an optional string slice.
pub open spec fn opt_view(o: Option<&str>) -> Option<Seq<char>> {
    match o {
        Some(s) => Some(s@),
        None => None,
    }
}

impl Commands {
    /// The default output directory: `<game_path>/Mods/Infinite/Infinite.mpq/data`.
    pub fn default_output_path(game_path: &str) -> (r: String)
        ensures
            r@ == game_path@ + "/Mods/Infinite/Infinite.mpq/data"@,
    {
        concat(game_path, "/Mods/Infinite/Infinite.mpq/data")
    }

    /// The output directory given, or the default one.
    pub fn output_path_or_default(game_path: &str, output_path: Option<&str>) -> (r: String)
        ensures
            r@ == match output_path {
                Some(o) => o@,
                None => game_path@ + "/Mods/Infinite/Infinite.mpq/data"@,
            },
    {
        match output_path {
            Some(o) => copy_str(o),
            None => Self::default_output_path(game_path),
        }
    }

    /// Where the mods to install come from: the mod list when one is given,
    /// otherwise the mods directory; an error when neither is.
    pub fn install_source(mods_path: Option<&str>, mod_list: Option<&str>) -> (r: Result<
        InstallSource,
        CliError,
    >)
        ensures
            mod_list matches Some(l) ==> (r matches Ok(InstallSource::ModList(p)) && p@ == l@),
            mod_list is None ==> (mods_path matches Some(d) ==> (r matches Ok(
                InstallSource::ModsDir(p),
            ) && p@ == d@)),
            mod_list is None && mods_path is None ==> r == Err::<InstallSource, CliError>(
                CliError::NoModSource,
            ),
    {
        match mod_list {
            Some(l) => Ok(InstallSource::ModList(copy_str(l))),
            None => match mods_path {
                Some(d) => Ok(InstallSource::ModsDir(copy_str(d))),
                None => Err(CliError::NoModSource),
            },
        }
    }
}

} // verus!
