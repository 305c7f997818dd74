use vstd::prelude::*;

use crate::strmap::StrMap;
use crate::text::{
    ask_disk, exists_on_disk, join, owned, parent_path, spec_disk_exists, spec_join, spec_parent_path,
};

verus! {

/// A mod of a DIVA Mod Manager loadout.
#[derive(Debug, PartialEq)]
pub struct DmmLoadoutMod {
    pub name: String,
    pub enabled: bool,
}

/// What DIVA Mod Manager stores for one game.
pub struct DmmPDMMConfig {
    pub launcher: Option<String>,
    pub game_path: Option<String>,
    pub mods_folder: Option<String>,
    /// The loadouts by name: the mods of each.
    pub loadouts: StrMap<Vec<DmmLoadoutMod>>,
}

/// The contents of a `DmmPDMMConfig`.
pub struct DmmPDMMConfigView {
    pub launcher: Option<Seq<char>>,
    pub game_path: Option<Seq<char>>,
    pub mods_folder: Option<Seq<char>>,
    pub loadout_names: Seq<Seq<char>>,
}

impl View for DmmPDMMConfig {
    type V = DmmPDMMConfigView;

    open spec fn view(&self) -> DmmPDMMConfigView {
        DmmPDMMConfigView {
            launcher: self.launcher.deep_view(),
            game_path: self.game_path.deep_view(),
            mods_folder: self.mods_folder.deep_view(),
            loadout_names: self.loadouts.key_order(),
        }
    }
}

/// The configuration file of DIVA Mod Manager.
pub struct DmmConfig {
    pub current_game: String,
    /// The configuration of each game, by the game's name.
    pub configs: StrMap<DmmPDMMConfig>,
}

/// What the first-run window takes over from DIVA Mod Manager.
#[derive(Debug, PartialEq)]
pub struct DmmImport {
    /// The game folder: the folder that holds the mods folder, when it exists.
    pub diva_dir: Option<String>,
    /// The names of the loadouts, offered for import.
    pub loadouts: Vec<String>,
}

/// The name under which DIVA Mod Manager stores Project DIVA Mega Mix+.
pub open spec fn spec_mega_mix_name() -> Seq<char> {
    "Project DIVA Mega Mix+"@
}

fn key_names(m: &StrMap<Vec<DmmLoadoutMod>>) -> (r: Vec<String>)
    ensures
        r.deep_view() == m.key_order(),
{
    let mut r: Vec<String> = Vec::new();
    let n = m.len();
    let mut i: usize = 0;
    while i < n
        invariant
            i <= n,
            n == m.key_order().len(),
            r.deep_view() == m.key_order().subrange(0, i as int),
        decreases n - i,
    {
        let (k, _) = m.entry_at(i);
        let ghost before = r.deep_view();
        let kc = k.clone();
        r.push(kc);
        assert(r.deep_view() =~= before.push(kc@));
        assert(r.deep_view() =~= m.key_order().subrange(0, i + 1));
        i = i + 1;
    }
    assert(m.key_order().subrange(0, i as int) =~= m.key_order());
    r
}

/// What to take over from DIVA Mod Manager's configuration, given whether the folder that
/// holds its mods folder exists (see `dmm_import_holds`).
pub fn dmm_import_given(cfg: &DmmConfig, parent_exists: bool) -> (r: Option<DmmImport>)
    ensures
        dmm_import_holds(cfg, parent_exists, r),
{
    let pdmm = match cfg.configs.get("Project DIVA Mega Mix+") {
        Some(p) => p,
        None => return None,
    };
    let diva_dir = match &pdmm.mods_folder {
        Some(m) => {
            if parent_exists {
                Some(parent_path(m.as_str()))
            } else {
                None
            }
        },
        None => None,
    };
    let loadouts = key_names(&pdmm.loadouts);
    Some(DmmImport { diva_dir, loadouts })
}

/// What to take over from DIVA Mod Manager's configuration, looking on disk whether the
/// folder that holds its mods folder exists.
pub fn dmm_import(cfg: &DmmConfig) -> (r: Option<DmmImport>)
    ensures
        exists|e: bool| #[trigger] dmm_import_holds(cfg, e, r),
        exists|e: bool|
            #![trigger dmm_import_holds(cfg, e, r)]
            dmm_import_holds(cfg, e, r) && (cfg.configs@.contains_key(spec_mega_mix_name())
                ==> match cfg.configs@[spec_mega_mix_name()].mods_folder {
                Some(m) => spec_disk_exists(spec_parent_path(m), e),
                None => true,
            }),
{
    let exists = match cfg.configs.get("Project DIVA Mega Mix+") {
        Some(p) => match &p.mods_folder {
            Some(m) => {
                let parent = parent_path(m.as_str());
                exists_on_disk(parent.as_str())
            },
            None => false,
        },
        None => false,
    };
    dmm_import_given(cfg, exists)
}

/// Whether `r` is what is taken over from DIVA Mod Manager's configuration `cfg`, given
/// whether the folder holding its mods folder exists: nothing when it has no Project DIVA
/// Mega Mix+ entry; else that folder as game folder (when it exists) and the loadout names
/// in the order they are stored.
pub open spec fn dmm_import_holds(cfg: &DmmConfig, parent_exists: bool, r: Option<DmmImport>) -> bool {
    &&& !cfg.configs@.contains_key(spec_mega_mix_name()) ==> r is None
    &&& cfg.configs@.contains_key(spec_mega_mix_name()) ==> (r matches Some(imp) && {
        let c = cfg.configs@[spec_mega_mix_name()];
        &&& imp.loadouts.deep_view() == c.loadout_names
        &&& imp.diva_dir.deep_view() == match c.mods_folder {
            Some(m) => if parent_exists {
                Some(spec_parent_path(m))
            } else {
                None
            },
            None => None,
        }
    })
}

/// Why the game folder chosen in the first-run window was refused.
#[derive(Debug, PartialEq, Eq, Clone, Copy)]
pub enum SetupError {
    /// It does not exist or is a file.
    NotADirectory,
    /// It does not hold `DivaMegaMix.exe`.
    MissingExecutable,
}

impl SetupError {
    /// The message shown for the error.
    pub fn message(&self) -> (r: String)
        ensures
            r@ == match *self {
                SetupError::NotADirectory => "Selected Project Diva directory does not exist or is a file"@,
                SetupError::MissingExecutable => "Selected Directory does not contain DivaMegaMix.exe"@,
            },
    {
        match self {
            SetupError::NotADirectory => owned(
                "Selected Project Diva directory does not exist or is a file",
            ),
            SetupError::MissingExecutable => owned("Selected Directory does not contain DivaMegaMix.exe"),
        }
    }
}

/// Checks the game folder chosen in the first-run window, given whether it is an existing
/// folder and whether it holds `DivaMegaMix.exe`.
pub fn check_setup_dir_given(is_dir: bool, exe_exists: bool) -> (r: Result<(), SetupError>)
    ensures
        !is_dir ==> r == Err::<(), SetupError>(SetupError::NotADirectory),
        is_dir && !exe_exists ==> r == Err::<(), SetupError>(SetupError::MissingExecutable),
        is_dir && exe_exists ==> r is Ok,
{
    if !is_dir {
        Err(SetupError::NotADirectory)
    } else if !exe_exists {
        Err(SetupError::MissingExecutable)
    } else {
        Ok(())
    }
}

/// Whether `path` is an existing folder on disk.
///
/// Trusted: `Path::is_dir`; nothing is claimed of the answer, which depends on the disk.
#[verifier::external_body]
fn path_is_dir(path: &str) -> bool {
    std::path::Path::new(path).is_dir()
}

/// Whether `answer` is what the disk answered when asked whether `path` is an existing
/// folder (`Path::is_dir`). The disk itself is not modelled: this records which question an
/// answer belongs to, so that an answer cannot be made up or taken from another path.
pub closed spec fn spec_disk_is_dir(path: Seq<char>, answer: bool) -> bool {
    exists|p: &str| p@ == path && #[trigger] call_ensures(path_is_dir, (p,), answer)
}

/// Whether `path` is an existing folder on disk; the answer is the disk's (see
/// `spec_disk_is_dir`).
fn dir_on_disk(path: &str) -> (r: bool)
    ensures
        spec_disk_is_dir(path@, r),
{
    let r = ask_disk(&path_is_dir, path);
    assert(call_ensures(path_is_dir, (path,), r));
    r
}

/// Checks the game folder chosen in the first-run window on disk: the disk is asked whether
/// `dir` is an existing folder and whether `DivaMegaMix.exe` exists in it, and its answers
/// decide.
pub fn check_setup_dir(dir: &str) -> (r: Result<(), SetupError>)
    ensures
        exists|d: bool, e: bool| #[trigger] check_setup_holds(d, e, r),
        exists|d: bool, e: bool|
            #![trigger check_setup_holds(d, e, r)]
            spec_disk_is_dir(dir@, d) && spec_disk_exists(spec_join(dir@, "DivaMegaMix.exe"@), e)
                && check_setup_holds(d, e, r),
{
    let is_dir = dir_on_disk(dir);
    let exe = join(dir, "DivaMegaMix.exe");
    let exe_exists = exists_on_disk(exe.as_str());
    let r = check_setup_dir_given(is_dir, exe_exists);
    assert(check_setup_holds(is_dir, exe_exists, r));
    r
}

/// A game folder is accepted exactly when it is an existing folder that holds
/// `DivaMegaMix.exe`; otherwise the first failing check is reported: not a folder before
/// a missing executable.
pub proof fn lemma_setup_dir_accepted(is_dir: bool, exe_exists: bool, r: Result<(), SetupError>)
    requires
        check_setup_holds(is_dir, exe_exists, r),
    ensures
        is_dir && exe_exists ==> r == Ok::<(), SetupError>(()),
        r is Ok <==> is_dir && exe_exists,
        r == Err::<(), SetupError>(SetupError::NotADirectory) <==> !is_dir,
        r == Err::<(), SetupError>(SetupError::MissingExecutable) <==> is_dir && !exe_exists,
{
    if let Ok(u) = r {
        assert(u == ());
    }
}

/// Whether `r` is what `check_setup_dir_given` gives for `is_dir` and `exe_exists`.
pub open spec fn check_setup_holds(is_dir: bool, exe_exists: bool, r: Result<(), SetupError>) -> bool {
    &&& !is_dir ==> r == Err::<(), SetupError>(SetupError::NotADirectory)
    &&& is_dir && !exe_exists ==> r == Err::<(), SetupError>(SetupError::MissingExecutable)
    &&& is_dir && exe_exists ==> r is Ok
}

} // verus!
