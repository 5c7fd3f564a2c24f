use vstd::prelude::*;

use crate::gui::GuiTheme;
use crate::gui::SortBy;
use crate::smap::StrMap;
use crate::state::StateError;

verus! {

/// How the mod list is sorted for display.
#[derive(Debug, Clone, Copy, PartialEq, Eq, Structural)]
pub struct SortingConfig {
    pub sort_category: SortBy,
    pub is_ascending: bool,
}

impl Default for SortingConfig {
    fn default() -> (r: Self)
        ensures
            r.sort_category == SortBy::Enabled,
            r.is_ascending,
    {
        SortingConfig { sort_category: SortBy::Enabled, is_ascending: true }
    }
}

/// Mathematical value of a `Config`.
#[verifier::ext_equal]
pub struct ConfigView {
    pub provider_parameters: Seq<(Seq<char>, Seq<(Seq<char>, Seq<char>)>)>,
    pub drg_pak_path: Option<Seq<char>>,
    pub gui_theme: Option<GuiTheme>,
    pub sorting_config: Option<SortingConfig>,
    pub confirm_mod_deletion: bool,
    pub confirm_profile_deletion: bool,
    pub backup_path: Option<Seq<char>>,
}

/// The user configuration: per-provider parameters, the game archive path,
/// and interface preferences. Paths are kept as plain strings; resolving
/// them against the machine is the shell's business.
#[derive(Debug)]
pub struct Config {
    pub provider_parameters: StrMap<StrMap<String>>,
    pub drg_pak_path: Option<String>,
    pub gui_theme: Option<GuiTheme>,
    pub sorting_config: Option<SortingConfig>,
    pub confirm_mod_deletion: bool,
    pub confirm_profile_deletion: bool,
    pub backup_path: Option<String>,
}

impl View for Config {
    type V = ConfigView;

    open spec fn view(&self) -> ConfigView {
        ConfigView {
            provider_parameters: self.provider_parameters@,
            drg_pak_path: match self.drg_pak_path {
                Some(p) => Some(p@),
                None => None,
            },
            gui_theme: self.gui_theme,
            sorting_config: self.sorting_config,
            confirm_mod_deletion: self.confirm_mod_deletion,
            confirm_profile_deletion: self.confirm_profile_deletion,
            backup_path: match self.backup_path {
                Some(p) => Some(p@),
                None => None,
            },
        }
    }
}

impl Default for Config {
    /// The out-of-the-box configuration. Probing the machine for a game
    /// installation is a filesystem collaborator's job; the shell fills
    /// `drg_pak_path` in when it finds one.
    fn default() -> (r: Self)
        ensures
            r@.provider_parameters.len() == 0,
            r@.drg_pak_path is None,
            r@.gui_theme is None,
            r@.sorting_config is None,
            r@.confirm_mod_deletion,
            r@.confirm_profile_deletion,
            r@.backup_path is None,
    {
        Config {
            provider_parameters: StrMap::new(),
            drg_pak_path: None,
            gui_theme: None,
            sorting_config: None,
            confirm_mod_deletion: true,
            confirm_profile_deletion: true,
            backup_path: None,
        }
    }
}

/// What a legacy (untagged) configuration carries over: its provider
/// parameters and its game archive path; every later field starts at its
/// default.
pub open spec fn legacy_config_upgrade(l: ConfigView) -> ConfigView {
    ConfigView {
        provider_parameters: l.provider_parameters,
        drg_pak_path: l.drg_pak_path,
        gui_theme: None,
        sorting_config: None,
        confirm_mod_deletion: true,
        confirm_profile_deletion: true,
        backup_path: None,
    }
}

/// A configuration together with its version tag. A tag newer than any
/// known generation parses into `Unsupported` and is a hard failure, never
/// silently coerced.
#[derive(Debug)]
pub enum VersionAnnotatedConfig {
    V0_0_0(Config),
    Unsupported,
}

/// A configuration as read from disk: tagged, or the untagged legacy shape.
#[derive(Debug)]
pub enum MaybeVersionedConfig {
    Versioned(VersionAnnotatedConfig),
    Legacy(Config),
}

impl VersionAnnotatedConfig {
    /// The current-generation configuration, when the tag is a known one.
    pub fn current(&self) -> (r: Option<&Config>)
        ensures
            match r {
                Some(c) => *self is V0_0_0 && c@ == self->V0_0_0_0@,
                None => *self is Unsupported,
            },
    {
        match self {
            VersionAnnotatedConfig::V0_0_0(c) => Some(c),
            VersionAnnotatedConfig::Unsupported => None,
        }
    }
}

impl Default for VersionAnnotatedConfig {
    fn default() -> (r: Self)
        ensures
            r is V0_0_0,
            r->V0_0_0_0@.provider_parameters.len() == 0,
            r->V0_0_0_0@.drg_pak_path is None,
    {
        VersionAnnotatedConfig::V0_0_0(Config::default())
    }
}

impl Default for MaybeVersionedConfig {
    fn default() -> (r: Self)
        ensures
            r is Versioned,
            r->Versioned_0 is V0_0_0,
    {
        MaybeVersionedConfig::Versioned(VersionAnnotatedConfig::default())
    }
}

impl MaybeVersionedConfig {
    /// Brings what was read from disk to the current generation: a current
    /// tag passes through, a legacy value keeps its provider parameters and
    /// archive path, and an unknown tag fails with
    /// `UnsupportedSchemaVersion`.
    pub fn into_current(self) -> (r: Result<Config, StateError>)
        ensures
            match r {
                Ok(c) => match self {
                    MaybeVersionedConfig::Versioned(v) => v is V0_0_0 && c@ == v->V0_0_0_0@,
                    MaybeVersionedConfig::Legacy(l) => c@ == legacy_config_upgrade(l@),
                },
                Err(e) => {
                    &&& e == StateError::UnsupportedSchemaVersion
                    &&& self is Versioned
                    &&& self->Versioned_0 is Unsupported
                },
            },
    {
        match self {
            MaybeVersionedConfig::Versioned(VersionAnnotatedConfig::V0_0_0(c)) => Ok(c),
            MaybeVersionedConfig::Versioned(VersionAnnotatedConfig::Unsupported) => Err(
                StateError::UnsupportedSchemaVersion,
            ),
            MaybeVersionedConfig::Legacy(l) => {
                let c = Config {
                    provider_parameters: l.provider_parameters,
                    drg_pak_path: l.drg_pak_path,
                    gui_theme: None,
                    sorting_config: None,
                    confirm_mod_deletion: true,
                    confirm_profile_deletion: true,
                    backup_path: None,
                };
                proof {
                    assert(c@ =~= legacy_config_upgrade(l@));
                }
                Ok(c)
            },
        }
    }
}

} // verus!
