use vstd::prelude::*;

use crate::vdf::{
    entries_view, lemma_obj_view, parse_vdf, spec_parse_vdf, spec_vdf_lookup, spec_vdf_quoted,
    vdf_lookup, vdf_quoted, vdfs_view, Vdf, VdfView,
};

use crate::text::{
    exists_on_disk, join, owned, spec_disk_exists, spec_join, spec_strip_ends, str_eq,
    strings_contain, strip_ends,
};

verus! {

/// The game folder: the one held in memory (`stored`, when it could be read), else what a
/// search of the disk (`find`, called only then) finds.
pub fn get_diva_folder<F: FnOnce() -> Option<String>>(stored: Option<String>, find: F) -> (r: Option<String>)
    requires
        stored is None ==> call_requires(find, ()),
    ensures
        stored is Some ==> r == stored,
        stored is None ==> call_ensures(find, (), r),
{
    match stored {
        Some(d) => Some(d),
        None => find(),
    }
}

/// The game folder that the configuration names (`diva_dir`), given whether that folder
/// exists and whether it holds `DivaMegaMix.exe`: taken only when it is set, exists and
/// holds the game.
pub open spec fn spec_configured_diva_folder(diva_dir: Seq<char>, dir_exists: bool, exe_exists: bool) -> Option<
    Seq<char>,
> {
    if diva_dir.len() != 0 && dir_exists && exe_exists {
        Some(diva_dir)
    } else {
        None
    }
}

/// The Steam folder that the configuration names (`steam_dir`), given whether it exists:
/// taken only when it is set and exists.
pub open spec fn spec_configured_steam_folder(steam_dir: Seq<char>, exists: bool) -> Option<Seq<char>> {
    if steam_dir.len() != 0 && exists {
        Some(steam_dir)
    } else {
        None
    }
}

/// The game folder that the configuration names, given whether that folder exists and
/// whether it holds `DivaMegaMix.exe` (see `spec_configured_diva_folder`).
pub fn configured_diva_folder_given(diva_dir: &String, dir_exists: bool, exe_exists: bool) -> (r: Option<String>)
    ensures
        r.deep_view() == spec_configured_diva_folder(diva_dir@, dir_exists, exe_exists),
{
    if !diva_dir.as_str().is_empty() && dir_exists && exe_exists {
        Some(diva_dir.clone())
    } else {
        None
    }
}

/// The game folder that the configuration names, when it is set, exists on disk and holds
/// `DivaMegaMix.exe`: when it is set, the disk is asked whether the folder exists and
/// whether `DivaMegaMix.exe` exists in it, and its answers decide.
pub fn configured_diva_folder(diva_dir: &String) -> (r: Option<String>)
    ensures
        exists|d: bool, e: bool| r.deep_view() == spec_configured_diva_folder(diva_dir@, d, e),
        diva_dir@.len() == 0 ==> r is None,
        diva_dir@.len() != 0 ==> exists|d: bool, e: bool|
            #![trigger spec_configured_diva_folder(diva_dir@, d, e)]
            spec_disk_exists(diva_dir@, d) && spec_disk_exists(
                spec_join(diva_dir@, "DivaMegaMix.exe"@),
                e,
            ) && r.deep_view() == spec_configured_diva_folder(diva_dir@, d, e),
{
    if diva_dir.as_str().is_empty() {
        assert(spec_configured_diva_folder(diva_dir@, false, false) is None);
        return None;
    }
    let dir_exists = exists_on_disk(diva_dir.as_str());
    let exe = join(diva_dir.as_str(), "DivaMegaMix.exe");
    let exe_exists = exists_on_disk(exe.as_str());
    configured_diva_folder_given(diva_dir, dir_exists, exe_exists)
}

/// The configured game folder is taken exactly when it is set and the disk reports both the
/// folder and `DivaMegaMix.exe` in it; it is then taken as it stands.
pub proof fn lemma_configured_diva_folder_taken(diva_dir: Seq<char>, dir_exists: bool, exe_exists: bool)
    ensures
        diva_dir.len() != 0 && dir_exists && exe_exists ==> spec_configured_diva_folder(
            diva_dir,
            dir_exists,
            exe_exists,
        ) == Some(diva_dir),
        !(diva_dir.len() != 0 && dir_exists && exe_exists) ==> spec_configured_diva_folder(
            diva_dir,
            dir_exists,
            exe_exists,
        ) is None,
{
}

/// The Steam folder that the configuration names, when it is set and exists on disk.
pub fn configured_steam_folder(steam_dir: &String) -> (r: Option<String>)
    ensures
        exists|e: bool| r.deep_view() == spec_configured_steam_folder(steam_dir@, e),
        steam_dir@.len() == 0 ==> r is None,
        steam_dir@.len() != 0 ==> exists|e: bool|
            #![trigger spec_configured_steam_folder(steam_dir@, e)]
            spec_disk_exists(steam_dir@, e) && r.deep_view() == spec_configured_steam_folder(
                steam_dir@,
                e,
            ),
{
    if steam_dir.as_str().is_empty() {
        assert(spec_configured_steam_folder(steam_dir@, false) is None);
        return None;
    }
    let found = exists_on_disk(steam_dir.as_str());
    if found {
        assert(spec_configured_steam_folder(steam_dir@, true) == Some(steam_dir@));
        Some(steam_dir.clone())
    } else {
        assert(spec_configured_steam_folder(steam_dir@, false) is None);
        None
    }
}

/// The folder for downloads on operating system `os`: a fixed folder on Linux and macOS,
/// the user's temporary folder (`windows_temp`) on Windows, none elsewhere.
pub fn temp_folder_for(os: &str, windows_temp: Option<String>) -> (r: Option<String>)
    ensures
        (os@ == "linux"@ || os@ == "macos"@) ==> (r matches Some(t) && t@ == "/tmp/rust4diva"@),
        os@ == "windows"@ ==> r == windows_temp,
        !(os@ == "linux"@ || os@ == "macos"@ || os@ == "windows"@) ==> r is None,
{
    proof {
        reveal_strlit("linux");
        reveal_strlit("macos");
        reveal_strlit("windows");
        assert("windows"@.len() == 7);
        assert("linux"@.len() == 5);
        assert("macos"@.len() == 5);
        assert("windows"@ != "linux"@);
        assert("windows"@ != "macos"@);
    }
    if str_eq(os, "linux") || str_eq(os, "macos") {
        Some(owned("/tmp/rust4diva"))
    } else if str_eq(os, "windows") {
        windows_temp
    } else {
        None
    }
}

/// A Steam library as `config/libraryfolders.vdf` lists it: its path as written there (in
/// quotes) and the ids of the games installed in it; either may be missing.
#[derive(Debug, PartialEq)]
pub struct SteamLibrary {
    pub path: Option<String>,
    pub apps: Option<Vec<String>>,
}

/// The Steam id of Project DIVA Mega Mix+.
pub open spec fn spec_mega_mix_app_id() -> Seq<char> {
    "1761390"@
}

/// The path (quotes taken off) of the first library among `libs` that has a path and a list
/// of games holding Project DIVA Mega Mix+; empty when there is none.
pub open spec fn spec_select_library(libs: Seq<(Option<Seq<char>>, Option<Seq<Seq<char>>>)>) -> Seq<char>
    decreases libs.len(),
{
    if libs.len() == 0 {
        Seq::empty()
    } else {
        let (path, apps) = libs[0];
        if path is Some && apps is Some && apps->0.contains(spec_mega_mix_app_id()) {
            spec_strip_ends(path->0)
        } else {
            spec_select_library(libs.drop_first())
        }
    }
}

/// The contents of the libraries `libs`.
pub open spec fn spec_libraries_view(libs: Seq<SteamLibrary>) -> Seq<(Option<Seq<char>>, Option<Seq<Seq<char>>>)> {
    libs.map_values(|l: SteamLibrary| (l.path.deep_view(), l.apps.deep_view()))
}

/// The Steam library that holds Project DIVA Mega Mix+ (see `spec_select_library`).
pub fn select_diva_library(libs: &Vec<SteamLibrary>) -> (r: String)
    ensures
        r@ == spec_select_library(spec_libraries_view(libs@)),
{
    let ghost lv = spec_libraries_view(libs@);
    let mut i: usize = 0;
    assert(lv.subrange(0, lv.len() as int) =~= lv);
    while i < libs.len()
        invariant
            i <= libs.len(),
            lv == spec_libraries_view(libs@),
            spec_select_library(lv) == spec_select_library(lv.subrange(i as int, lv.len() as int)),
        decreases libs.len() - i,
    {
        let ghost rest = lv.subrange(i as int, lv.len() as int);
        assert(rest[0] == lv[i as int]);
        assert(rest.drop_first() =~= lv.subrange(i + 1, lv.len() as int));
        let lib = &libs[i];
        match (&lib.path, &lib.apps) {
            (Some(p), Some(apps)) => {
                if strings_contain(apps, "1761390") {
                    proof {
                        reveal_strlit("1761390");
                    }
                    return strip_ends(p.as_str());
                }
                proof {
                    reveal_strlit("1761390");
                }
            },
            _ => {},
        }
        i = i + 1;
    }
    String::new()
}

/// The folder of the game inside a Steam library.
pub fn diva_folder_in_library(library: &str) -> (r: String)
    ensures
        r@ == spec_join(
            library@,
            "steamapps/common/Hatsune Miku Project DIVA Mega Mix Plus"@,
        ),
{
    join(library, "steamapps/common/Hatsune Miku Project DIVA Mega Mix Plus")
}


/// The path (as written, in quotes) and the game ids of a library, from the values that
/// `libraryfolders.vdf` gives under the library's id: its first value must be an object, in
/// which `path` is text and `apps` is an object whose keys are the game ids; what is missing
/// or of another shape is left out.
pub open spec fn spec_library_of(vals: Seq<VdfView>) -> (Option<Seq<char>>, Option<Seq<Seq<char>>>) {
    if vals.len() > 0 && vals[0] is Obj {
        let lib = vals[0]->Obj_0;
        let path = match spec_vdf_lookup(lib, "path"@) {
            Some(pv) => if pv.len() > 0 && pv[0] is Str {
                Some(spec_vdf_quoted(pv[0]->Str_0))
            } else {
                None
            },
            None => None,
        };
        let apps = match spec_vdf_lookup(lib, "apps"@) {
            Some(av) => if av.len() > 0 && av[0] is Obj {
                Some(av[0]->Obj_0.map_values(|e: (Seq<char>, Seq<VdfView>)| e.0))
            } else {
                None
            },
            None => None,
        };
        (path, apps)
    } else {
        (None, None)
    }
}

/// The libraries that the document `v` of `libraryfolders.vdf` lists, in the order of their
/// ids; `None` when the document is no object.
pub open spec fn spec_libraries_of(v: VdfView) -> Option<Seq<(Option<Seq<char>>, Option<Seq<Seq<char>>>)>> {
    match v {
        VdfView::Str(_) => None,
        VdfView::Obj(es) => Some(Seq::new(es.len(), |i: int| spec_library_of(es[i].1))),
    }
}

/// The libraries that the text `text` of `libraryfolders.vdf` lists (see
/// `spec_libraries_of`); `None` when it cannot be read.
pub open spec fn spec_read_libraries(text: Seq<char>) -> Option<Seq<(Option<Seq<char>>, Option<Seq<Seq<char>>>)>> {
    match spec_parse_vdf(text) {
        Some(v) => spec_libraries_of(v),
        None => None,
    }
}

fn obj_keys(es: &Vec<(String, Vec<Vdf>)>) -> (r: Vec<String>)
    ensures
        r.deep_view() == entries_view(es@).map_values(|e: (Seq<char>, Seq<VdfView>)| e.0),
{
    let mut r: Vec<String> = Vec::new();
    let mut i: usize = 0;
    while i < es.len()
        invariant
            i <= es@.len(),
            r.deep_view() == entries_view(es@).map_values(|e: (Seq<char>, Seq<VdfView>)| e.0).subrange(
                0,
                i as int,
            ),
        decreases es@.len() - i,
    {
        let ghost before = r.deep_view();
        r.push(es[i].0.clone());
        assert(r.deep_view() =~= before.push(es@[i as int].0@));
        assert(r.deep_view() =~= entries_view(es@).map_values(
            |e: (Seq<char>, Seq<VdfView>)| e.0,
        ).subrange(0, i + 1));
        i = i + 1;
    }
    assert(entries_view(es@).map_values(|e: (Seq<char>, Seq<VdfView>)| e.0).subrange(0, i as int)
        =~= entries_view(es@).map_values(|e: (Seq<char>, Seq<VdfView>)| e.0));
    r
}

/// The library that the values `vals` under a library id describe (see `spec_library_of`).
pub fn library_of(vals: &Vec<Vdf>) -> (r: SteamLibrary)
    ensures
        (r.path.deep_view(), r.apps.deep_view()) == spec_library_of(vdfs_view(vals@)),
{
    proof {
        reveal_strlit("path");
        reveal_strlit("apps");
    }
    if vals.len() == 0 {
        return SteamLibrary { path: None, apps: None };
    }
    match &vals[0] {
        Vdf::Obj(lib) => {
            proof {
                lemma_obj_view(*lib);
            }
            let path = match vdf_lookup(lib, "path") {
                Some(pv) => {
                    if pv.len() > 0 {
                        match &pv[0] {
                            Vdf::Str(s) => Some(vdf_quoted(s.as_str())),
                            Vdf::Obj(_) => None,
                        }
                    } else {
                        None
                    }
                },
                None => None,
            };
            let apps = match vdf_lookup(lib, "apps") {
                Some(av) => {
                    if av.len() > 0 {
                        match &av[0] {
                            Vdf::Obj(aes) => {
                                proof {
                                    lemma_obj_view(*aes);
                                }
                                Some(obj_keys(aes))
                            },
                            Vdf::Str(_) => None,
                        }
                    } else {
                        None
                    }
                },
                None => None,
            };
            SteamLibrary { path, apps }
        },
        Vdf::Str(_) => SteamLibrary { path: None, apps: None },
    }
}

/// The libraries that the document `v` of `libraryfolders.vdf` lists (see
/// `spec_libraries_of`).
pub fn libraries_of(v: &Vdf) -> (r: Option<Vec<SteamLibrary>>)
    ensures
        match r {
            Some(l) => spec_libraries_of(v@) == Some(spec_libraries_view(l@)),
            None => spec_libraries_of(v@) is None,
        },
{
    match v {
        Vdf::Str(_) => None,
        Vdf::Obj(es) => {
            proof {
                lemma_obj_view(*es);
            }
            let ghost ev = entries_view(es@);
            let mut out: Vec<SteamLibrary> = Vec::new();
            let mut i: usize = 0;
            while i < es.len()
                invariant
                    i <= es@.len(),
                    ev == entries_view(es@),
                    spec_libraries_view(out@) == Seq::new(
                        ev.len(),
                        |k: int| spec_library_of(ev[k].1),
                    ).subrange(0, i as int),
                decreases es@.len() - i,
            {
                let ghost before = spec_libraries_view(out@);
                let lib = library_of(&es[i].1);
                out.push(lib);
                assert(spec_libraries_view(out@) =~= before.push(
                    (lib.path.deep_view(), lib.apps.deep_view()),
                ));
                assert(spec_libraries_view(out@) =~= Seq::new(
                    ev.len(),
                    |k: int| spec_library_of(ev[k].1),
                ).subrange(0, i + 1));
                i = i + 1;
            }
            assert(Seq::new(ev.len(), |k: int| spec_library_of(ev[k].1)).subrange(0, i as int)
                =~= Seq::new(ev.len(), |k: int| spec_library_of(ev[k].1)));
            Some(out)
        },
    }
}

/// The libraries that the text of `libraryfolders.vdf` lists (see `spec_read_libraries`).
pub fn read_libraries(text: &str) -> (r: Option<Vec<SteamLibrary>>)
    ensures
        match r {
            Some(l) => spec_read_libraries(text@) == Some(spec_libraries_view(l@)),
            None => spec_read_libraries(text@) is None,
        },
{
    match parse_vdf(text) {
        Some(v) => libraries_of(&v),
        None => None,
    }
}

/// The game folder that the libraries `libs` hold: inside the first library that has the
/// game, or empty when none has.
pub open spec fn spec_folder_in_libraries(libs: Seq<(Option<Seq<char>>, Option<Seq<Seq<char>>>)>) -> Seq<char> {
    let l = spec_select_library(libs);
    if l.len() == 0 {
        Seq::empty()
    } else {
        spec_join(l, "steamapps/common/Hatsune Miku Project DIVA Mega Mix Plus"@)
    }
}

/// The game folder that the text of `libraryfolders.vdf` points to: inside the library that
/// has the game installed, empty when no library has it, `None` when the text cannot be
/// read as a list of libraries.
pub fn diva_folder_from_vdf(text: &str) -> (r: Option<String>)
    ensures
        r.deep_view() == match spec_read_libraries(text@) {
            Some(libs) => Some(spec_folder_in_libraries(libs)),
            None => None,
        },
{
    let libs = match read_libraries(text) {
        Some(l) => l,
        None => return None,
    };
    let lib = select_diva_library(&libs);
    if lib.as_str().is_empty() {
        Some(String::new())
    } else {
        Some(diva_folder_in_library(lib.as_str()))
    }
}

/// Where Steam keeps its list of libraries, inside the Steam folder `steam`.
pub fn libraries_file(steam: &str) -> (r: String)
    ensures
        r@ == spec_join(steam@, "config/libraryfolders.vdf"@),
{
    join(steam, "config/libraryfolders.vdf")
}

/// The Windows Steam folder used when the registry names none that exists.
pub open spec fn spec_windows_steam_default() -> Seq<char> {
    "C:\\Program Files (x86)\\Steam"@
}

/// The Steam folder: the configured one (`configured`, already checked) when there is one;
/// else on Linux the home folder's `.local/share/Steam` when it exists
/// (`regular_exists`), or the Flatpak one when that exists (`flatpak_exists`); on macOS the
/// home folder's `Library/Application Support/Steam`; on Windows the install path that the
/// registry gives (`registry`: `None` when Steam's key is missing, `Some(None)` when it has
/// no install path) when it exists (`regular_exists`), else the default folder; none on
/// other systems.
pub open spec fn spec_steam_folder(
    configured: Option<Seq<char>>,
    os: Seq<char>,
    home: Option<Seq<char>>,
    regular_exists: bool,
    flatpak_exists: bool,
    registry: Option<Option<Seq<char>>>,
) -> Option<Seq<char>> {
    if configured is Some {
        configured
    } else if os == "linux"@ {
        if regular_exists {
            Some(spec_join(home->0, ".local/share/Steam"@))
        } else if flatpak_exists {
            Some(spec_join(home->0, ".var/app/com.valvesoftware.Steam/data/Steam"@))
        } else {
            None
        }
    } else if os == "macos"@ {
        Some(spec_join(home->0, "Library/Application Support/Steam"@))
    } else if os == "windows"@ {
        match registry {
            None => None,
            Some(None) => Some(spec_windows_steam_default()),
            Some(Some(p)) => if regular_exists {
                Some(p)
            } else {
                Some(spec_windows_steam_default())
            },
        }
    } else {
        None
    }
}

/// The Steam folder, given what was found (see `spec_steam_folder`).
pub fn steam_folder_given(
    configured: Option<String>,
    os: &str,
    home: Option<String>,
    regular_exists: bool,
    flatpak_exists: bool,
    registry: Option<Option<String>>,
) -> (r: Option<String>)
    requires
        configured is None && (os@ == "linux"@ || os@ == "macos"@) ==> home is Some,
    ensures
        r.deep_view() == spec_steam_folder(
            configured.deep_view(),
            os@,
            home.deep_view(),
            regular_exists,
            flatpak_exists,
            registry.deep_view(),
        ),
{
    if configured.is_some() {
        return configured;
    }
    proof {
        reveal_strlit("linux");
        reveal_strlit("macos");
        reveal_strlit("windows");
        assert("windows"@.len() == 7);
        assert("linux"@.len() == 5);
        assert("macos"@.len() == 5);
        assert("windows"@ != "linux"@);
        assert("windows"@ != "macos"@);
        assert("linux"@[0] != "macos"@[0]);
    }
    if str_eq(os, "linux") {
        let h = match home {
            Some(h) => h,
            None => return None,
        };
        if regular_exists {
            Some(join(h.as_str(), ".local/share/Steam"))
        } else if flatpak_exists {
            Some(join(h.as_str(), ".var/app/com.valvesoftware.Steam/data/Steam"))
        } else {
            None
        }
    } else if str_eq(os, "macos") {
        let h = match home {
            Some(h) => h,
            None => return None,
        };
        Some(join(h.as_str(), "Library/Application Support/Steam"))
    } else if str_eq(os, "windows") {
        match registry {
            None => None,
            Some(None) => Some(owned("C:\\Program Files (x86)\\Steam")),
            Some(Some(p)) => if regular_exists {
                Some(p)
            } else {
                Some(owned("C:\\Program Files (x86)\\Steam"))
            },
        }
    } else {
        None
    }
}

/// The Steam folder, looking on disk for the configured folder, the home folder's Steam
/// folders and the registry's install path (see `spec_steam_folder`).
pub fn steam_folder(
    steam_dir: &String,
    os: &str,
    home: Option<String>,
    registry: Option<Option<String>>,
) -> (r: Option<String>)
    requires
        os@ == "linux"@ || os@ == "macos"@ ==> home is Some,
    ensures
        exists|c: bool, a: bool, b: bool|
            #![trigger spec_steam_folder(spec_configured_steam_folder(steam_dir@, c), os@, home.deep_view(), a, b, registry.deep_view())]
            r.deep_view() == spec_steam_folder(
                spec_configured_steam_folder(steam_dir@, c),
                os@,
                home.deep_view(),
                a,
                b,
                registry.deep_view(),
            ),
        exists|c: bool, a: bool, b: bool|
            #![trigger spec_steam_folder(spec_configured_steam_folder(steam_dir@, c), os@, home.deep_view(), a, b, registry.deep_view())]
            spec_steam_answers(steam_dir@, os@, home.deep_view(), registry.deep_view(), c, a, b)
                && r.deep_view() == spec_steam_folder(
                spec_configured_steam_folder(steam_dir@, c),
                os@,
                home.deep_view(),
                a,
                b,
                registry.deep_view(),
            ),
{
    let configured = configured_steam_folder(steam_dir);
    let (regular, flatpak) = match &home {
        Some(h) => {
            let a = join(h.as_str(), ".local/share/Steam");
            let b = join(h.as_str(), ".var/app/com.valvesoftware.Steam/data/Steam");
            (exists_on_disk(a.as_str()), exists_on_disk(b.as_str()))
        },
        None => (false, false),
    };
    let regular = match &registry {
        Some(Some(p)) => {
            if str_eq(os, "windows") {
                exists_on_disk(p.as_str())
            } else {
                regular
            }
        },
        _ => regular,
    };
    steam_folder_given(configured, os, home, regular, flatpak, registry)
}

/// Whether `configured`, `regular` and `flatpak` are the disk's answers that the search
/// for the Steam folder asks for: on the configured folder, when it is set; on the install
/// path of the registry on Windows, else on `~/.local/share/Steam`, when there is a home
/// folder; on the Flatpak Steam folder under the home folder.
pub open spec fn spec_steam_answers(
    steam_dir: Seq<char>,
    os: Seq<char>,
    home: Option<Seq<char>>,
    registry: Option<Option<Seq<char>>>,
    configured: bool,
    regular: bool,
    flatpak: bool,
) -> bool {
    &&& steam_dir.len() != 0 ==> spec_disk_exists(steam_dir, configured)
    &&& home is Some ==> spec_disk_exists(
        spec_join(home->0, ".var/app/com.valvesoftware.Steam/data/Steam"@),
        flatpak,
    )
    &&& if os == "windows"@ && registry matches Some(Some(p)) {
        spec_disk_exists(registry->0->0, regular)
    } else {
        home is Some ==> spec_disk_exists(spec_join(home->0, ".local/share/Steam"@), regular)
    }
}

} // verus!
