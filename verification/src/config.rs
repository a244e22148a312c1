//! The persisted settings: window level, clicker interval and the two hotkey
//! strings, and where a save writes them.

use vstd::prelude::*;

verus! {

/// The clicker interval, in milliseconds, used when none is configured.
pub fn default_interval() -> (r: u64)
    ensures
        r == 500,
{
    500
}

/// The hotkey string that sets the click position when none is configured.
pub fn default_set_position_key() -> (r: String)
    ensures
        r@ == seq!['F', '6'],
{
    let s = "F6";
    proof {
        reveal_strlit("F6");
    }
    s.to_owned()
}

/// The hotkey string that starts and stops the clicker when none is
/// configured.
pub fn default_toggle_key() -> (r: String)
    ensures
        r@ == seq!['F', '7'],
{
    let s = "F7";
    proof {
        reveal_strlit("F7");
    }
    s.to_owned()
}

/// The two hotkey strings.
#[derive(Debug, Clone)]
pub struct HotKeyConfig {
    pub set_position: String,
    pub toggle: String,
}

impl Default for HotKeyConfig {
    fn default() -> (r: Self)
        ensures
            r.set_position@ == seq!['F', '6'],
            r.toggle@ == seq!['F', '7'],
    {
        HotKeyConfig { set_position: default_set_position_key(), toggle: default_toggle_key() }
    }
}

/// Where a save writes the settings.
#[derive(Debug, Clone, PartialEq, Eq)]
pub enum SaveTarget {
    /// The file the settings were loaded from.
    Path(String),
    /// `config.toml` in the platform's configuration directory for the
    /// application.
    DefaultLocation,
}

/// The settings.
#[derive(Debug, Clone)]
pub struct Config {
    pub always_on_top: bool,
    pub default_interval: u64,
    pub hotkeys: HotKeyConfig,
    /// The file the settings were loaded from, if any.
    pub config_path: Option<String>,
}

impl Default for Config {
    fn default() -> (r: Self)
        ensures
            !r.always_on_top,
            r.default_interval == 500,
            r.hotkeys.set_position@ == seq!['F', '6'],
            r.hotkeys.toggle@ == seq!['F', '7'],
            r.path_spec() is None,
    {
        Config {
            always_on_top: false,
            default_interval: default_interval(),
            hotkeys: HotKeyConfig::default(),
            config_path: None,
        }
    }
}

impl Config {
    /// The file these settings were loaded from, if any.
    pub open spec fn path_spec(&self) -> Option<Seq<char>> {
        match &self.config_path {
            Some(p) => Some(p@),
            None => None,
        }
    }

    /// Whether `t` is where a save of these settings goes: the file they
    /// were loaded from, or else the default location.
    pub open spec fn saves_to(&self, t: SaveTarget) -> bool {
        match t {
            SaveTarget::Path(p) => self.path_spec() == Some(p@),
            SaveTarget::DefaultLocation => self.path_spec() is None,
        }
    }

    /// Settings with the given values and no file of origin.
    pub fn new(always_on_top: bool, default_interval: u64, hotkeys: HotKeyConfig) -> (r: Config)
        ensures
            r.always_on_top == always_on_top,
            r.default_interval == default_interval,
            r.hotkeys == hotkeys,
            r.path_spec() is None,
    {
        Config { always_on_top, default_interval, hotkeys, config_path: None }
    }

    /// These settings, remembered as loaded from `path`.
    pub fn with_path(self, path: String) -> (r: Config)
        ensures
            r.always_on_top == self.always_on_top,
            r.default_interval == self.default_interval,
            r.hotkeys == self.hotkeys,
            r.path_spec() == Some(path@),
    {
        Config { config_path: Some(path), ..self }
    }

    /// The file these settings were loaded from, if any.
    pub fn config_path(&self) -> (r: Option<&String>)
        ensures
            match r {
                Some(p) => self.path_spec() == Some(p@),
                None => self.path_spec() is None,
            },
    {
        self.config_path.as_ref()
    }

    /// Where a save of these settings goes: the file they were loaded from,
    /// or else the default location.
    pub fn save(&self) -> (t: SaveTarget)
        ensures
            self.saves_to(t),
    {
        match &self.config_path {
            Some(p) => SaveTarget::Path(p.clone()),
            None => SaveTarget::DefaultLocation,
        }
    }

    /// Applies `update_fn` to the settings, then says where to save them.
    pub fn update_and_save<F: FnOnce(&mut Config)>(&mut self, update_fn: F) -> (t: SaveTarget)
        requires
            forall|r: &mut Config| *r == *old(self) ==> update_fn.requires((r,)),
        ensures
            exists|r: &mut Config|
                *r == *old(self) && *final(r) == *final(self) && update_fn.ensures((r,), ()),
            final(self).saves_to(t),
    {
        update_fn(self);
        self.save()
    }
}

/// Settings are saved where they came from: to their file when they were
/// loaded from one, to the default location otherwise, and to exactly one
/// of the two.
pub proof fn lemma_save_target_follows_origin(c: Config, t: SaveTarget)
    requires
        c.saves_to(t),
    ensures
        match c.path_spec() {
            Some(p) => t matches SaveTarget::Path(q) && q@ == p,
            None => t == SaveTarget::DefaultLocation,
        },
{
}

} // verus!
