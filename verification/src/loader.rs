//! Loaded mods and the loader that finds them.
use vstd::prelude::*;
use crate::config::{defaults_spec, ModConfig, UserConfig};
use crate::text::copy_str;

verus! {

/// A loaded mod with its metadata.
#[derive(Debug)]
pub struct LoadedMod {
    /// Unique mod identifier (the directory name).
    pub id: String,
    /// Path to the mod directory.
    pub path: String,
    /// Parsed mod metadata.
    pub config: ModConfig,
    /// The user's configuration values.
    pub user_config: UserConfig,
}

impl LoadedMod {
    /// A mod loaded from its directory name, path and metadata; its user
    /// configuration starts as the defaults of its options.
    pub fn new(id: String, path: String, config: ModConfig) -> (r: LoadedMod)
        ensures
            r.id@ == id@,
            r.path@ == path@,
            r.config == config,
            r.user_config.wf(),
            r.user_config.view_map() == defaults_spec(config.config@),
    {
        let user_config = config.generate_default_config();
        LoadedMod { id, path, config, user_config }
    }
}

/// Finds mods in a directory.
#[derive(Debug)]
pub struct ModLoader {
    mods_dir: String,
}

impl ModLoader {
    /// The directory searched.
    pub closed spec fn mods_dir_view(&self) -> Seq<char> {
        self.mods_dir@
    }

    /// A loader for a mods directory.
    pub fn new(mods_dir: &str) -> (r: ModLoader)
        ensures
            r.mods_dir_view() == mods_dir@,
    {
        ModLoader { mods_dir: copy_str(mods_dir) }
    }

    /// The directory searched.
    pub fn mods_dir(&self) -> (r: &String)
        ensures
            r@ == self.mods_dir_view(),
    {
        &self.mods_dir
    }
}

} // verus!
