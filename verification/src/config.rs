use vstd::prelude::*;

use crate::modpacks::{spec_packmods_view, ModPackMod, ModPackModView};
use crate::text::{clone_strings, exists_on_disk, join, owned, spec_disk_exists, spec_join};

verus! {

/// The bits of the `f32` scale factor 1.0.
pub const SCALE_ONE_BITS: u32 = 0x3f80_0000u32;

/// The configuration file as older versions wrote it: the global load order was a list of
/// folder names.
#[derive(Debug, PartialEq)]
pub struct OldDivaConfig {
    /// The global load order, used when no mod pack is applied.
    pub priority: Vec<String>,
    pub diva_dir: String,
    pub steam_dir: String,
    pub aft_dir: String,
    pub applied_pack: String,
    pub aft_mode: bool,
    pub dark_mode: bool,
    pub first_run: bool,
    pub dml_version: String,
    pub diva_dirs: Vec<String>,
}

/// The configuration file of the mod manager.
#[derive(Debug)]
pub struct DivaConfig {
    /// The global load order, used when no mod pack is applied.
    pub priority: Vec<ModPackMod>,
    pub diva_dir: String,
    pub steam_dir: String,
    pub aft_dir: String,
    pub applied_pack: String,
    pub aft_mode: bool,
    pub use_system_theme: bool,
    pub use_system_scaling: bool,
    /// The user interface scale factor, an `f32` kept as its bits.
    pub scale_bits: u32,
    pub dark_mode: bool,
    pub first_run: bool,
    pub dml_version: String,
    pub diva_dirs: Vec<String>,
}

impl OldDivaConfig {
    /// The configuration of a first run: nothing set, dark mode on.
    pub fn new() -> (r: Self)
        ensures
            r.priority@.len() == 0,
            r.diva_dir@ == Seq::<char>::empty(),
            r.steam_dir@ == Seq::<char>::empty(),
            r.aft_dir@ == Seq::<char>::empty(),
            r.applied_pack@ == Seq::<char>::empty(),
            !r.aft_mode,
            r.dark_mode,
            r.first_run,
            r.dml_version@ == Seq::<char>::empty(),
            r.diva_dirs@.len() == 0,
    {
        OldDivaConfig {
            priority: Vec::new(),
            diva_dir: String::new(),
            steam_dir: String::new(),
            aft_dir: String::new(),
            applied_pack: String::new(),
            aft_mode: false,
            dark_mode: true,
            first_run: true,
            dml_version: String::new(),
            diva_dirs: Vec::new(),
        }
    }
}

/// The entries that an old global load order becomes: each folder name put under the game
/// folder `diva_dir`, enabled and without a name, kept only where `exists` says that path
/// exists.
pub open spec fn spec_upgraded_priority(diva_dir: Seq<char>, names: Seq<Seq<char>>, exists: Seq<bool>) -> Seq<
    ModPackModView,
>
    decreases names.len(),
{
    if names.len() == 0 {
        Seq::empty()
    } else {
        let rest = spec_upgraded_priority(diva_dir, names.drop_last(), exists.drop_last());
        if exists.last() {
            rest.push(
                ModPackModView {
                    name: Seq::empty(),
                    enabled: true,
                    path: spec_join(diva_dir, names.last()),
                },
            )
        } else {
            rest
        }
    }
}

impl DivaConfig {
    /// The configuration of a first run: nothing set, dark mode on, system theme and
    /// scaling, scale factor 1.0.
    pub fn new() -> (r: Self)
        ensures
            r.priority@.len() == 0,
            r.diva_dir@ == Seq::<char>::empty(),
            r.steam_dir@ == Seq::<char>::empty(),
            r.aft_dir@ == Seq::<char>::empty(),
            r.applied_pack@ == Seq::<char>::empty(),
            !r.aft_mode,
            r.dark_mode,
            r.first_run,
            r.dml_version@ == Seq::<char>::empty(),
            r.diva_dirs@.len() == 0,
            r.use_system_theme,
            r.use_system_scaling,
            r.scale_bits == SCALE_ONE_BITS,
    {
        DivaConfig {
            priority: Vec::new(),
            diva_dir: String::new(),
            steam_dir: String::new(),
            aft_dir: String::new(),
            applied_pack: String::new(),
            aft_mode: false,
            dark_mode: true,
            first_run: true,
            dml_version: String::new(),
            diva_dirs: Vec::new(),
            use_system_theme: true,
            use_system_scaling: true,
            scale_bits: SCALE_ONE_BITS,
        }
    }

    /// Upgrades an old configuration, given for each folder name of its load order whether
    /// that folder exists under the game folder: those that do become enabled entries,
    /// the rest is dropped; the other settings carry over, with system theme and scaling
    /// and scale factor 1.0.
    pub fn from_old_given(value: OldDivaConfig, exists: &Vec<bool>) -> (r: Self)
        requires
            exists@.len() == value.priority@.len(),
        ensures
            spec_packmods_view(r.priority@) == spec_upgraded_priority(
                value.diva_dir@,
                value.priority.deep_view(),
                exists@,
            ),
            r.diva_dir@ == value.diva_dir@,
            r.steam_dir@ == value.steam_dir@,
            r.aft_dir@ == value.aft_dir@,
            r.applied_pack@ == value.applied_pack@,
            r.aft_mode == value.aft_mode,
            r.dark_mode == value.dark_mode,
            r.first_run == value.first_run,
            r.dml_version@ == value.dml_version@,
            r.diva_dirs.deep_view() == value.diva_dirs.deep_view(),
            r.use_system_theme,
            r.use_system_scaling,
            r.scale_bits == SCALE_ONE_BITS,
    {
        let ghost names = value.priority.deep_view();
        let mut prio: Vec<ModPackMod> = Vec::new();
        let mut i: usize = 0;
        while i < value.priority.len()
            invariant
                i <= value.priority.len(),
                exists@.len() == value.priority@.len(),
                names == value.priority.deep_view(),
                spec_packmods_view(prio@) == spec_upgraded_priority(
                    value.diva_dir@,
                    names.subrange(0, i as int),
                    exists@.subrange(0, i as int),
                ),
            decreases value.priority.len() - i,
        {
            proof {
                assert(names.subrange(0, i + 1).drop_last() =~= names.subrange(0, i as int));
                assert(exists@.subrange(0, i + 1).drop_last() =~= exists@.subrange(0, i as int));
                assert(names[i as int] == value.priority@[i as int]@);
            }
            if exists[i] {
                let path = join(value.diva_dir.as_str(), value.priority[i].as_str());
                let ghost before = spec_packmods_view(prio@);
                let entry = ModPackMod { name: String::new(), enabled: true, path };
                prio.push(entry);
                proof {
                    assert(spec_packmods_view(prio@) =~= before.push(entry@));
                }
            }
            i = i + 1;
        }
        proof {
            assert(names.subrange(0, i as int) =~= names);
            assert(exists@.subrange(0, i as int) =~= exists@);
        }
        DivaConfig {
            priority: prio,
            diva_dir: value.diva_dir.clone(),
            steam_dir: value.steam_dir.clone(),
            aft_dir: value.aft_dir.clone(),
            applied_pack: value.applied_pack.clone(),
            aft_mode: value.aft_mode,
            dark_mode: value.dark_mode,
            first_run: value.first_run,
            dml_version: value.dml_version.clone(),
            diva_dirs: clone_strings(&value.diva_dirs),
            use_system_theme: true,
            use_system_scaling: true,
            scale_bits: SCALE_ONE_BITS,
        }
    }

    /// Upgrades an old configuration, looking on disk which folders of its load order
    /// exist under the game folder.
    pub fn from_old(value: OldDivaConfig) -> (r: Self)
        ensures
            exists|e: Seq<bool>|
                #![trigger spec_upgraded_priority(value.diva_dir@, value.priority.deep_view(), e)]
                e.len() == value.priority@.len() && spec_packmods_view(r.priority@)
                    == spec_upgraded_priority(value.diva_dir@, value.priority.deep_view(), e),
            exists|e: Seq<bool>|
                #![trigger spec_upgraded_priority(value.diva_dir@, value.priority.deep_view(), e)]
                e.len() == value.priority@.len() && (forall|i: int|
                    0 <= i < e.len() ==> #[trigger] spec_disk_exists(
                        spec_join(value.diva_dir@, value.priority@[i]@),
                        e[i],
                    )) && spec_packmods_view(r.priority@) == spec_upgraded_priority(
                    value.diva_dir@,
                    value.priority.deep_view(),
                    e,
                ),
            r.diva_dir@ == value.diva_dir@,
            r.steam_dir@ == value.steam_dir@,
            r.aft_dir@ == value.aft_dir@,
            r.applied_pack@ == value.applied_pack@,
            r.aft_mode == value.aft_mode,
            r.dark_mode == value.dark_mode,
            r.first_run == value.first_run,
            r.dml_version@ == value.dml_version@,
            r.diva_dirs.deep_view() == value.diva_dirs.deep_view(),
            r.use_system_theme,
            r.use_system_scaling,
            r.scale_bits == SCALE_ONE_BITS,
    {
        let mut exists: Vec<bool> = Vec::new();
        let mut i: usize = 0;
        while i < value.priority.len()
            invariant
                i <= value.priority.len(),
                exists@.len() == i,
                forall|j: int|
                    0 <= j < i ==> #[trigger] spec_disk_exists(
                        spec_join(value.diva_dir@, value.priority@[j]@),
                        exists@[j],
                    ),
            decreases value.priority.len() - i,
        {
            let path = join(value.diva_dir.as_str(), value.priority[i].as_str());
            exists.push(exists_on_disk(path.as_str()));
            i = i + 1;
        }
        DivaConfig::from_old_given(value, &exists)
    }

    /// After loading: a configuration that names a game folder but lists no game folders
    /// gets that one as its list.
    pub fn fill_diva_dirs(&mut self)
        ensures
            final(self).diva_dirs.deep_view() == if old(self).diva_dirs@.len() == 0
                && old(self).diva_dir@.len() != 0 {
                seq![old(self).diva_dir@]
            } else {
                old(self).diva_dirs.deep_view()
            },
            final(self).priority@ == old(self).priority@,
            final(self).diva_dir == old(self).diva_dir,
            final(self).steam_dir == old(self).steam_dir,
            final(self).aft_dir == old(self).aft_dir,
            final(self).applied_pack == old(self).applied_pack,
            final(self).aft_mode == old(self).aft_mode,
            final(self).use_system_theme == old(self).use_system_theme,
            final(self).use_system_scaling == old(self).use_system_scaling,
            final(self).scale_bits == old(self).scale_bits,
            final(self).dark_mode == old(self).dark_mode,
            final(self).first_run == old(self).first_run,
            final(self).dml_version == old(self).dml_version,
    {
        if self.diva_dirs.len() == 0 && !self.diva_dir.as_str().is_empty() {
            let d = self.diva_dir.clone();
            self.diva_dirs.push(d);
            assert(self.diva_dirs.deep_view() =~= seq![old(self).diva_dir@]);
        }
    }
}

/// The colour scheme of a window.
#[derive(Debug, PartialEq, Eq, Clone, Copy)]
pub enum ColorScheme {
    /// Follow the system.
    Unknown,
    Dark,
    Light,
}

/// The colour scheme that the theme settings ask for: the system's when asked to follow
/// it, else dark or light.
pub fn color_scheme(use_system_theme: bool, dark_mode: bool) -> (r: ColorScheme)
    ensures
        r == if use_system_theme {
            ColorScheme::Unknown
        } else if dark_mode {
            ColorScheme::Dark
        } else {
            ColorScheme::Light
        },
{
    if use_system_theme {
        ColorScheme::Unknown
    } else if dark_mode {
        ColorScheme::Dark
    } else {
        ColorScheme::Light
    }
}

/// The file that the mod loader reads its configuration from, in the game folder: none when
/// no game folder is known.
pub fn dml_config_target(diva_dir: Option<String>) -> (r: Option<String>)
    ensures
        match diva_dir {
            Some(d) => if d@.len() != 0 {
                r matches Some(t) && t@ == spec_join(d@, "config.toml"@)
            } else {
                r is None
            },
            None => r is None,
        },
{
    match diva_dir {
        Some(d) => {
            if d.as_str().is_empty() {
                None
            } else {
                Some(join(d.as_str(), "config.toml"))
            }
        },
        None => None,
    }
}

/// The game folders that the settings window lists: those of the configuration, or one
/// placeholder row when there are none.
pub fn settings_dirs(cfg: &DivaConfig) -> (r: Vec<String>)
    ensures
        r.deep_view() == if cfg.diva_dirs@.len() == 0 {
            seq!["/path/to/pdx"@]
        } else {
            cfg.diva_dirs.deep_view()
        },
{
    if cfg.diva_dirs.len() == 0 {
        let mut r: Vec<String> = Vec::new();
        r.push(owned("/path/to/pdx"));
        assert(r.deep_view() =~= seq!["/path/to/pdx"@]);
        r
    } else {
        clone_strings(&cfg.diva_dirs)
    }
}

/// What the settings window hands back (the scale factor is applied by the caller).
#[derive(Debug, PartialEq)]
pub struct Settings {
    pub diva_dirs: Vec<String>,
    pub steam_dir: String,
    pub diva_dir: String,
    pub aft_mode: bool,
    pub dark_mode: bool,
    pub system_scale: bool,
    pub system_theme: bool,
}

/// Why settings were refused.
#[derive(Debug, PartialEq, Eq, Clone, Copy)]
pub enum SettingsError {
    /// A listed game folder holds no `DivaMegaMix.exe`.
    InvalidDivaDirectory,
}

impl SettingsError {
    /// The message shown for the error.
    pub fn message(&self) -> (r: String)
        ensures
            r@ == "Invalid Project Diva Directory"@,
    {
        owned("Invalid Project Diva Directory")
    }
}

/// Whether `after` and `r` are what taking the settings `settings` into `before` gives,
/// given for each listed game folder whether it holds `DivaMegaMix.exe` (`exe_found`) and
/// whether the Steam folder exists: a game folder without the game refuses the settings
/// and changes nothing; else the Steam folder is taken when it exists, and the game
/// folders, modes and theme settings are taken, the rest kept.
pub open spec fn spec_settings_applied(
    before: DivaConfig,
    after: DivaConfig,
    settings: Settings,
    exe_found: Seq<bool>,
    steam_exists: bool,
    r: Result<(), SettingsError>,
) -> bool {
    &&& r is Err <==> exists|i: int| 0 <= i < exe_found.len() && !exe_found[i]
    &&& r is Err ==> after == before
    &&& r is Ok ==> {
        &&& after.steam_dir@ == if steam_exists {
            settings.steam_dir@
        } else {
            before.steam_dir@
        }
        &&& after.diva_dir@ == settings.diva_dir@
        &&& after.diva_dirs.deep_view() == settings.diva_dirs.deep_view()
        &&& after.aft_mode == settings.aft_mode
        &&& after.dark_mode == settings.dark_mode
        &&& after.use_system_scaling == settings.system_scale
        &&& after.use_system_theme == settings.system_theme
        &&& after.priority@ == before.priority@
        &&& after.applied_pack == before.applied_pack
        &&& after.aft_dir == before.aft_dir
        &&& after.scale_bits == before.scale_bits
        &&& after.first_run == before.first_run
        &&& after.dml_version == before.dml_version
    }
}

impl DivaConfig {
    /// Takes the settings of the settings window, given for each listed game folder whether
    /// it holds `DivaMegaMix.exe` and whether the Steam folder exists (see
    /// `spec_settings_applied`).
    pub fn apply_settings_given(
        &mut self,
        settings: &Settings,
        exe_found: &Vec<bool>,
        steam_exists: bool,
    ) -> (r: Result<(), SettingsError>)
        requires
            exe_found@.len() == settings.diva_dirs@.len(),
        ensures
            spec_settings_applied(*old(self), *final(self), *settings, exe_found@, steam_exists, r),
    {
        let mut i: usize = 0;
        while i < exe_found.len()
            invariant
                i <= exe_found@.len(),
                forall|j: int| 0 <= j < i ==> exe_found@[j],
            decreases exe_found@.len() - i,
        {
            if !exe_found[i] {
                return Err(SettingsError::InvalidDivaDirectory);
            }
            i = i + 1;
        }
        if steam_exists {
            self.steam_dir = settings.steam_dir.clone();
        }
        self.diva_dir = settings.diva_dir.clone();
        self.diva_dirs = clone_strings(&settings.diva_dirs);
        self.aft_mode = settings.aft_mode;
        self.dark_mode = settings.dark_mode;
        self.use_system_scaling = settings.system_scale;
        self.use_system_theme = settings.system_theme;
        Ok(())
    }

    /// Takes the settings of the settings window, looking on disk for `DivaMegaMix.exe` in
    /// each listed game folder and for the Steam folder.
    pub fn apply_settings(&mut self, settings: &Settings) -> (r: Result<(), SettingsError>)
        ensures
            exists|found: Seq<bool>, steam: bool|
                #![trigger spec_settings_applied(*old(self), *final(self), *settings, found, steam, r)]
                found.len() == settings.diva_dirs@.len() && spec_settings_applied(
                    *old(self),
                    *final(self),
                    *settings,
                    found,
                    steam,
                    r,
                ),
            exists|found: Seq<bool>, steam: bool|
                #![trigger spec_settings_applied(*old(self), *final(self), *settings, found, steam, r)]
                found.len() == settings.diva_dirs@.len() && (forall|i: int|
                    0 <= i < found.len() ==> #[trigger] spec_disk_exists(
                        spec_join(settings.diva_dirs@[i]@, "DivaMegaMix.exe"@),
                        found[i],
                    )) && spec_disk_exists(settings.steam_dir@, steam) && spec_settings_applied(
                    *old(self),
                    *final(self),
                    *settings,
                    found,
                    steam,
                    r,
                ),
    {
        let mut found: Vec<bool> = Vec::new();
        let mut i: usize = 0;
        while i < settings.diva_dirs.len()
            invariant
                i <= settings.diva_dirs.len(),
                found@.len() == i,
                forall|j: int|
                    0 <= j < i ==> #[trigger] spec_disk_exists(
                        spec_join(settings.diva_dirs@[j]@, "DivaMegaMix.exe"@),
                        found@[j],
                    ),
            decreases settings.diva_dirs.len() - i,
        {
            let exe = join(settings.diva_dirs[i].as_str(), "DivaMegaMix.exe");
            found.push(exists_on_disk(exe.as_str()));
            i = i + 1;
        }
        let steam = exists_on_disk(settings.steam_dir.as_str());
        self.apply_settings_given(settings, &found, steam)
    }
}

} // verus!
