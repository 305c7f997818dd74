use vstd::prelude::*;

use crate::modpacks::{ModPackMod, ModPackModView};
use crate::strmap::StrMap;
use crate::text::{
    clone_strings, contains_char, ends_with, escape_default, join, owned, parent_dir_name,
    spec_dir_name, spec_disk_exists, spec_ends_with, spec_escape_default, spec_join, spec_parent_dir_name, spec_parent_path,
    strings_contain,
};

verus! {

/// What a mod's `config.toml` says about it.
#[derive(Debug, PartialEq)]
pub struct DivaModConfig {
    pub enabled: bool,
    pub include_paths: Vec<String>,
    pub dll: Vec<String>,
    pub name: String,
    pub description: String,
    pub version: String,
    pub date: String,
    pub author: String,
}

/// The contents of a `DivaModConfig`.
pub struct DivaModConfigView {
    pub enabled: bool,
    pub include_paths: Seq<Seq<char>>,
    pub dll: Seq<Seq<char>>,
    pub name: Seq<char>,
    pub description: Seq<char>,
    pub version: Seq<char>,
    pub date: Seq<char>,
    pub author: Seq<char>,
}

impl View for DivaModConfig {
    type V = DivaModConfigView;

    open spec fn view(&self) -> DivaModConfigView {
        DivaModConfigView {
            enabled: self.enabled,
            include_paths: self.include_paths.deep_view(),
            dll: self.dll.deep_view(),
            name: self.name@,
            description: self.description@,
            version: self.version@,
            date: self.date@,
            author: self.author@,
        }
    }
}

/// An installed mod: its configuration and the path of its `config.toml`.
#[derive(Debug, PartialEq)]
pub struct DivaMod {
    pub config: DivaModConfig,
    pub path: String,
}

/// The contents of a `DivaMod`.
pub struct DivaModView {
    pub config: DivaModConfigView,
    pub path: Seq<char>,
}

impl View for DivaMod {
    type V = DivaModView;

    open spec fn view(&self) -> DivaModView {
        DivaModView { config: self.config@, path: self.path@ }
    }
}

/// The configuration of the DIVA mod loader (its `config.toml` in the game folder).
#[derive(Debug, PartialEq)]
pub struct DivaModLoader {
    pub enabled: bool,
    pub console: bool,
    pub mods: String,
    pub version: String,
    /// The folder names of the mods to load, in load order; the loader loads only these.
    pub priority: Vec<String>,
}

/// A row of the mods table.
#[derive(Debug, PartialEq)]
pub struct DivaModElement {
    pub name: String,
    pub author: String,
    pub description: String,
    pub version: String,
    pub enabled: bool,
    pub path: String,
}

impl DivaModConfig {
    /// A copy with the same contents.
    pub fn duplicate(&self) -> (r: Self)
        ensures
            r@ == self@,
    {
        DivaModConfig {
            enabled: self.enabled,
            include_paths: clone_strings(&self.include_paths),
            dll: clone_strings(&self.dll),
            name: self.name.clone(),
            description: self.description.clone(),
            version: self.version.clone(),
            date: self.date.clone(),
            author: self.author.clone(),
        }
    }

    /// Switches the mod on or off and hands back a copy of the new configuration.
    pub fn set_enabled(&mut self, enabled: bool) -> (r: Self)
        ensures
            final(self)@ == (DivaModConfigView { enabled, ..old(self)@ }),
            r@ == final(self)@,
    {
        self.enabled = enabled;
        self.duplicate()
    }
}

impl DivaMod {
    /// A copy with the same contents.
    pub fn duplicate(&self) -> (r: Self)
        ensures
            r@ == self@,
    {
        DivaMod { config: self.config.duplicate(), path: self.path.clone() }
    }

    /// Switches the mod on or off and hands back a copy of the mod.
    pub fn set_enabled(&mut self, enabled: bool) -> (r: Self)
        ensures
            final(self)@ == (DivaModView {
                config: DivaModConfigView { enabled, ..old(self)@.config },
                ..old(self)@
            }),
            r@ == final(self)@,
    {
        let config = self.config.set_enabled(enabled);
        self.config = config;
        self.duplicate()
    }

    /// The row of the mods table that shows this mod.
    pub fn to_element(&self) -> (r: DivaModElement)
        ensures
            r.name@ == self.config.name@,
            r.author@ == self.config.author@,
            r.description@ == self.config.description@,
            r.version@ == self.config.version@,
            r.enabled == self.config.enabled,
            r.path@ == self.path@,
    {
        DivaModElement {
            name: self.config.name.clone(),
            author: self.config.author.clone(),
            description: self.config.description.clone(),
            version: self.config.version.clone(),
            enabled: self.config.enabled,
            path: self.path.clone(),
        }
    }

    /// The entry for this mod in a mod pack or in the global load order; it is enabled.
    pub fn to_packmod(&self) -> (r: ModPackMod)
        ensures
            r@ == (ModPackModView { name: self.config.name@, enabled: true, path: self.path@ }),
    {
        ModPackMod { name: self.config.name.clone(), enabled: true, path: self.path.clone() }
    }

    /// The name of the folder that holds the mod, when that folder exists on disk.
    pub fn dir_name(&self) -> (r: Option<String>)
        ensures
            exists|e: bool| r.deep_view() == #[trigger] spec_dir_name(self.path@, e),
            exists|e: bool|
                #![trigger spec_dir_name(self.path@, e)]
                spec_disk_exists(spec_parent_path(self.path@), e) && r.deep_view() == spec_dir_name(
                    self.path@,
                    e,
                ),
    {
        crate::text::dir_name(self.path.as_str())
    }
}

impl DivaModElement {
    /// The entry for this row in a mod pack.
    pub fn to_packmod(&self) -> (r: ModPackMod)
        ensures
            r@ == (ModPackModView { name: self.name@, enabled: self.enabled, path: self.path@ }),
    {
        ModPackMod { name: self.name.clone(), enabled: self.enabled, path: self.path.clone() }
    }

    /// The name of the folder that holds the mod of this row, when that folder exists on disk.
    pub fn dir_name(&self) -> (r: Option<String>)
        ensures
            exists|e: bool| r.deep_view() == #[trigger] spec_dir_name(self.path@, e),
            exists|e: bool|
                #![trigger spec_dir_name(self.path@, e)]
                spec_disk_exists(spec_parent_path(self.path@), e) && r.deep_view() == spec_dir_name(
                    self.path@,
                    e,
                ),
    {
        crate::text::dir_name(self.path.as_str())
    }
}

impl DivaModLoader {
    /// The loader configuration used when the game folder has none: disabled, no console,
    /// mods in the `mods` folder, no version and no load order.
    pub fn new() -> (r: Self)
        ensures
            !r.enabled,
            !r.console,
            r.mods@ == "mods"@,
            r.version@ == Seq::<char>::empty(),
            r.priority@.len() == 0,
    {
        DivaModLoader {
            enabled: false,
            console: false,
            mods: owned("mods"),
            version: String::new(),
            priority: Vec::new(),
        }
    }
}

/// The mod that a `config.toml` at `config_path` describes, its description escaped for
/// display as `str::escape_default` does.
pub fn mod_from_config(config: DivaModConfig, config_path: String) -> (r: DivaMod)
    ensures
        r@ == (DivaModView {
            config: DivaModConfigView {
                description: spec_escape_default(config.description@),
                ..config@
            },
            path: config_path@,
        }),
{
    let mut config = config;
    config.description = escape_default(config.description.as_str());
    DivaMod { config, path: config_path }
}

/// How many of the archive entries `files` lie outside any folder (have no `/`).
pub open spec fn spec_count_at_root(files: Seq<Seq<char>>) -> nat
    decreases files.len(),
{
    if files.len() == 0 {
        0
    } else if files.last().contains('/') {
        spec_count_at_root(files.drop_last())
    } else {
        spec_count_at_root(files.drop_last()) + 1
    }
}

/// Whether an archive whose entries are `files` can be unpacked into the mods folder as it
/// is: every entry lies inside a folder. A `.rar` archive lists its folders without a
/// trailing `/`, so there at most one entry may lie outside a folder.
pub open spec fn spec_archive_valid(name: Seq<char>, files: Seq<Seq<char>>) -> bool {
    if spec_ends_with(name, ".rar"@) {
        spec_count_at_root(files) <= 1
    } else {
        forall|i: int| 0 <= i < files.len() ==> files[i].contains('/')
    }
}

/// Whether an archive named `name` with the entries `files` can be unpacked into the mods
/// folder as it is (see `spec_archive_valid`): every entry lies inside a folder, or, for a
/// `.rar` archive, at most one entry lies outside a folder.
pub fn archive_structure_valid(name: &str, files: &Vec<String>) -> (r: bool)
    ensures
        r == spec_archive_valid(name@, files.deep_view()),
{
    let rar = ends_with(name, ".rar");
    let ghost fs = files.deep_view();
    let mut count: usize = 0;
    let mut i: usize = 0;
    while i < files.len()
        invariant
            i <= files.len(),
            fs == files.deep_view(),
            rar == spec_ends_with(name@, ".rar"@),
            count == spec_count_at_root(fs.subrange(0, i as int)),
            count <= i,
            !rar ==> forall|j: int| 0 <= j < i ==> fs[j].contains('/'),
        decreases files.len() - i,
    {
        let has_slash = contains_char(files[i].as_str(), '/');
        proof {
            assert(fs[i as int] == files@[i as int]@);
            assert(fs.subrange(0, i + 1).drop_last() =~= fs.subrange(0, i as int));
            assert(fs.subrange(0, i + 1).last() == fs[i as int]);
        }
        if !has_slash {
            if rar {
                count = count + 1;
            } else {
                return false;
            }
        }
        i = i + 1;
    }
    assert(fs.subrange(0, i as int) =~= fs);
    if rar {
        count <= 1
    } else {
        true
    }
}

/// `s` with the items at `i` and `j` exchanged.
pub open spec fn seq_swap<T>(s: Seq<T>, i: int, j: int) -> Seq<T> {
    s.update(i, s[j]).update(j, s[i])
}

/// The load order after the "move up" control was used on row `idx` with step `amt`.
///
/// A step of 1 exchanges the row with the one above it, a step of -1 moves it to the top,
/// and any other step moves it to position `idx - amt`. Rows below 1 stay where they are.
pub open spec fn spec_move_up<T>(s: Seq<T>, idx: int, amt: int) -> Seq<T> {
    if idx < 1 {
        s
    } else if amt == 1 {
        seq_swap(s, idx, idx - 1)
    } else if amt == -1 {
        s.remove(idx).insert(0, s[idx])
    } else {
        s.remove(idx).insert(idx - amt, s[idx])
    }
}

/// The position that the "move down" control puts row `idx` at after it was taken out of
/// a list that then holds `rest_len` rows: `idx + amt`, but never past the last row; a
/// negative target (which wraps to a huge index) lands on the last row too.
pub open spec fn spec_move_down_target(idx: int, amt: int, rest_len: int) -> int {
    if idx + amt < 0 {
        rest_len - 1
    } else if idx + amt < rest_len - 1 {
        idx + amt
    } else {
        rest_len - 1
    }
}

/// The load order after the "move down" control was used on row `idx` with step `amt`.
///
/// A step of 1 exchanges the row with the one below it, a step of -1 moves it to the
/// bottom, any other step moves it to `spec_move_down_target`. Negative rows and the last
/// row stay where they are.
pub open spec fn spec_move_down<T>(s: Seq<T>, idx: int, amt: int) -> Seq<T> {
    if idx < 0 || idx >= s.len() - 1 {
        s
    } else if amt == 1 {
        seq_swap(s, idx, idx + 1)
    } else if amt == -1 {
        s.remove(idx).push(s[idx])
    } else {
        s.remove(idx).insert(spec_move_down_target(idx, amt, s.len() - 1), s[idx])
    }
}

fn vec_swap_adjacent<T>(v: &mut Vec<T>, lo: usize)
    requires
        lo + 1 < old(v).len(),
    ensures
        final(v)@ == seq_swap(old(v)@, lo as int, lo + 1),
{
    let hi_item = v.remove(lo + 1);
    v.insert(lo, hi_item);
    proof {
        assert(v@ =~= seq_swap(old(v)@, lo as int, lo + 1));
    }
}

/// Moves row `idx` of the load order up by `amt` rows (1: one row, -1: to the top).
///
/// Returns whether the list was touched (and so has to be saved again); rows below 1 are
/// left alone.
pub fn move_mod_up<T>(priority: &mut Vec<T>, idx: i32, amt: i32) -> (moved: bool)
    requires
        idx >= 1 ==> idx < old(priority).len(),
        idx >= 1 && amt != 1 && amt != -1 ==> 0 <= idx - amt < old(priority).len() && idx
            - amt <= i32::MAX,
    ensures
        moved == (idx >= 1),
        final(priority)@ == spec_move_up(old(priority)@, idx as int, amt as int),
{
    if idx < 1 {
        return false;
    }
    let ghost s = priority@;
    let i = idx as usize;
    if amt == 1 {
        vec_swap_adjacent(priority, i - 1);
        proof {
            assert(seq_swap(s, i - 1, i as int) =~= seq_swap(s, i as int, i - 1));
        }
    } else {
        let m = priority.remove(i);
        if amt == -1 {
            priority.insert(0, m);
        } else {
            let target = idx - amt;
            priority.insert(target as usize, m);
        }
    }
    true
}

/// Moves row `idx` of the load order down by `amt` rows (1: one row, -1: to the bottom).
///
/// Returns whether the list was touched; negative rows and the last row are left alone.
pub fn move_mod_down<T>(priority: &mut Vec<T>, idx: i32, amt: i32) -> (moved: bool)
    requires
        idx >= 0 ==> old(priority).len() >= 1,
        old(priority).len() <= i32::MAX,
        0 <= idx < old(priority).len() - 1 && amt != 1 && amt != -1 ==> i32::MIN <= idx + amt
            <= i32::MAX,
    ensures
        moved == (0 <= idx < old(priority).len() - 1),
        final(priority)@ == spec_move_down(old(priority)@, idx as int, amt as int),
{
    if idx < 0 {
        return false;
    }
    let last = (priority.len() - 1) as i32;
    if idx >= last {
        return false;
    }
    let i = idx as usize;
    if amt == 1 {
        vec_swap_adjacent(priority, i);
    } else {
        let m = priority.remove(i);
        if amt == -1 {
            priority.push(m);
        } else {
            let len = priority.len();
            let sum = idx + amt;
            let target: usize = if sum < 0 {
                len - 1
            } else if (sum as usize) < len - 1 {
                sum as usize
            } else {
                len - 1
            };
            priority.insert(target, m);
        }
    }
    true
}


/// Moving a row up never adds, drops or duplicates a mod: the load order after the move
/// holds the same mods as before.
pub proof fn lemma_move_up_keeps_mods<T>(s: Seq<T>, idx: int, amt: int)
    requires
        idx >= 1 ==> idx < s.len(),
        idx >= 1 && amt != 1 && amt != -1 ==> 0 <= idx - amt < s.len(),
    ensures
        spec_move_up(s, idx, amt).to_multiset() == s.to_multiset(),
{
    broadcast use vstd::seq_lib::group_to_multiset_ensures;
    if idx >= 1 {
        if amt == 1 {
            lemma_swap_keeps_items(s, idx, idx - 1);
        } else {
            vstd::seq_lib::to_multiset_remove(s, idx);
            let r = s.remove(idx);
            let t = if amt == -1 { 0 } else { idx - amt };
            vstd::seq_lib::to_multiset_insert(r, t, s[idx]);
            lemma_remove_insert_same(s, idx);
        }
    }
}

/// Moving a row down never adds, drops or duplicates a mod.
pub proof fn lemma_move_down_keeps_mods<T>(s: Seq<T>, idx: int, amt: int)
    ensures
        spec_move_down(s, idx, amt).to_multiset() == s.to_multiset(),
{
    if 0 <= idx < s.len() - 1 {
        if amt == 1 {
            lemma_swap_keeps_items(s, idx, idx + 1);
        } else {
            vstd::seq_lib::to_multiset_remove(s, idx);
            let r = s.remove(idx);
            if amt == -1 {
                vstd::seq_lib::to_multiset_build(r, s[idx]);
            } else {
                vstd::seq_lib::to_multiset_insert(r, spec_move_down_target(idx, amt, s.len() - 1), s[idx]);
            }
            lemma_remove_insert_same(s, idx);
        }
    }
}

/// Moving a row down by `amt` rows and then up by `amt` rows from where it landed gives back
/// the old order, as long as the move down was not cut short at the end of the list.
pub proof fn lemma_move_down_then_up_restores<T>(s: Seq<T>, idx: int, amt: int)
    requires
        1 <= amt,
        0 <= idx,
        amt == 1 ==> idx + 1 < s.len(),
        amt > 1 ==> idx + amt <= s.len() - 2,
    ensures
        spec_move_up(spec_move_down(s, idx, amt), idx + amt, amt) == s,
{
    if amt == 1 {
        assert(spec_move_up(spec_move_down(s, idx, 1), idx + 1, 1) =~= s);
    } else {
        let m = s[idx];
        let r = s.remove(idx);
        assert(spec_move_down_target(idx, amt, s.len() - 1) == idx + amt);
        let d = r.insert(idx + amt, m);
        assert(spec_move_down(s, idx, amt) == d);
        assert(d[idx + amt] == m);
        assert(d.remove(idx + amt) =~= r);
        assert(r.insert(idx, m) =~= s);
    }
}

/// Moving a row other than the last one up by `amt` rows and then down by `amt` rows from
/// where it landed gives back the old order.
pub proof fn lemma_move_up_then_down_restores<T>(s: Seq<T>, idx: int, amt: int)
    requires
        1 < amt,
        0 <= idx - amt,
        idx < s.len() - 1,
    ensures
        spec_move_down(spec_move_up(s, idx, amt), idx - amt, amt) == s,
{
    let m = s[idx];
    let r = s.remove(idx);
    let u = r.insert(idx - amt, m);
    assert(u.len() == s.len());
    assert(u[idx - amt] == m);
    assert(u.remove(idx - amt) =~= r);
    assert(spec_move_down_target(idx - amt, amt, s.len() - 1) == idx);
    assert(r.insert(idx, m) =~= s);
}

/// Sending a row to the top puts it first and keeps the other rows in their old order.
pub proof fn lemma_move_to_top<T>(s: Seq<T>, idx: int)
    requires
        1 <= idx < s.len(),
    ensures
        spec_move_up(s, idx, -1)[0] == s[idx],
        spec_move_up(s, idx, -1).drop_first() == s.remove(idx),
{
    assert(spec_move_up(s, idx, -1).drop_first() =~= s.remove(idx));
}

/// Sending a row to the bottom puts it last and keeps the other rows in their old order.
pub proof fn lemma_move_to_bottom<T>(s: Seq<T>, idx: int)
    requires
        0 <= idx < s.len() - 1,
    ensures
        spec_move_down(s, idx, -1).last() == s[idx],
        spec_move_down(s, idx, -1).drop_last() == s.remove(idx),
{
    assert(spec_move_down(s, idx, -1).drop_last() =~= s.remove(idx));
}

proof fn lemma_swap_keeps_items<T>(s: Seq<T>, i: int, j: int)
    requires
        0 <= i < s.len(),
        0 <= j < s.len(),
    ensures
        seq_swap(s, i, j).to_multiset() == s.to_multiset(),
{
    broadcast use vstd::multiset::group_multiset_axioms;
    vstd::seq_lib::to_multiset_update(s, i, s[j]);
    let t = s.update(i, s[j]);
    vstd::seq_lib::to_multiset_update(t, j, s[i]);
    if i == j {
        assert(seq_swap(s, i, j) =~= s);
    } else {
        vstd::seq_lib::to_multiset_contains(s, s[i]);
        vstd::seq_lib::to_multiset_contains(s, s[j]);
        assert(s.contains(s[i]));
        assert(s.contains(s[j]));
        let m = s.to_multiset();
        assert(m.insert(s[j]).remove(s[i]).insert(s[i]).remove(s[j]) =~= m);
    }
}

proof fn lemma_remove_insert_same<T>(s: Seq<T>, idx: int)
    requires
        0 <= idx < s.len(),
    ensures
        s.to_multiset().remove(s[idx]).insert(s[idx]) == s.to_multiset(),
{
    broadcast use vstd::multiset::group_multiset_axioms;
    vstd::seq_lib::to_multiset_contains(s, s[idx]);
    assert(s.contains(s[idx]));
    assert(s.to_multiset().remove(s[idx]).insert(s[idx]) =~= s.to_multiset());
}

// ---------------------------------------------------------------------------------------
// The mods found on disk and the global load order
// ---------------------------------------------------------------------------------------

/// The contents of each mod of `s`.
pub open spec fn spec_mods_view(s: Seq<DivaMod>) -> Seq<DivaModView> {
    s.map_values(|m: DivaMod| m@)
}

/// The key under which a mod found on disk is kept: the name of the folder that holds its
/// `config.toml`, or its configured name when the path names no such folder.
pub open spec fn spec_mod_key(m: DivaModView) -> Seq<char> {
    match spec_parent_dir_name(m.path) {
        Some(n) => n,
        None => m.config.name,
    }
}

/// The keys of the mods `s`, in order.
pub open spec fn spec_mod_keys(s: Seq<DivaModView>) -> Seq<Seq<char>> {
    s.map_values(|m: DivaModView| spec_mod_key(m))
}

/// The mods `s` by key; of two mods with one key, the later one is kept.
pub open spec fn spec_mod_map(s: Seq<DivaModView>) -> Map<Seq<char>, DivaModView>
    decreases s.len(),
{
    if s.len() == 0 {
        Map::empty()
    } else {
        spec_mod_map(s.drop_last()).insert(spec_mod_key(s.last()), s.last())
    }
}

/// The load order `prio` with each key of `keys` that it does not hold yet added at the end,
/// in the order the keys come.
pub open spec fn spec_merge_priority(prio: Seq<Seq<char>>, keys: Seq<Seq<char>>) -> Seq<
    Seq<char>,
>
    decreases keys.len(),
{
    if keys.len() == 0 {
        prio
    } else {
        let p = spec_merge_priority(prio, keys.drop_last());
        if p.contains(keys.last()) {
            p
        } else {
            p.push(keys.last())
        }
    }
}

/// The mods of `mods` in the order that `prio` lists their keys; keys without a mod are
/// skipped.
pub open spec fn spec_mods_in_order(prio: Seq<Seq<char>>, mods: Map<Seq<char>, DivaModView>) -> Seq<
    DivaModView,
>
    decreases prio.len(),
{
    if prio.len() == 0 {
        Seq::empty()
    } else {
        let r = spec_mods_in_order(prio.drop_last(), mods);
        if mods.contains_key(prio.last()) {
            r.push(mods[prio.last()])
        } else {
            r
        }
    }
}

/// The key under which a mod found on disk is kept (see `spec_mod_key`).
pub fn mod_key(m: &DivaMod) -> (r: String)
    ensures
        r@ == spec_mod_key(m@),
{
    match parent_dir_name(m.path.as_str()) {
        Some(n) => n,
        None => m.config.name.clone(),
    }
}

/// Takes in the mods found by a scan of the mods folder: `mods` becomes exactly these mods
/// by key, and each key that the load order `priority` lacks is added at its end.
///
/// The scanned paths are those of `config.toml` files in folders that the scan just listed,
/// so each mod is keyed by the name of its folder without another look at the disk.
pub fn load_mods(priority: &mut Vec<String>, mods: &mut StrMap<DivaMod>, scanned: Vec<DivaMod>)
    ensures
        final(mods)@ == spec_mod_map(spec_mods_view(scanned@)),
        final(priority).deep_view() == spec_merge_priority(
            old(priority).deep_view(),
            spec_mod_keys(spec_mods_view(scanned@)),
        ),
{
    let ghost views = spec_mods_view(scanned@);
    let ghost keys = spec_mod_keys(views);
    let mut mod_map: StrMap<DivaMod> = StrMap::new();
    let mut i: usize = 0;
    while i < scanned.len()
        invariant
            i <= scanned.len(),
            views == spec_mods_view(scanned@),
            keys == spec_mod_keys(views),
            mod_map@ == spec_mod_map(views.subrange(0, i as int)),
            priority.deep_view() == spec_merge_priority(
                old(priority).deep_view(),
                keys.subrange(0, i as int),
            ),
        decreases scanned.len() - i,
    {
        let m = &scanned[i];
        let key = mod_key(m);
        proof {
            assert(views.subrange(0, i + 1).drop_last() =~= views.subrange(0, i as int));
            assert(keys.subrange(0, i + 1).drop_last() =~= keys.subrange(0, i as int));
            assert(views[i as int] == m@);
            assert(keys[i as int] == key@);
        }
        let present = strings_contain(priority, key.as_str());
        if !present {
            let ghost before = priority.deep_view();
            priority.push(key.clone());
            proof {
                assert(priority.deep_view() =~= before.push(key@));
            }
        }
        mod_map.insert(key, m.duplicate());
        i = i + 1;
    }
    proof {
        assert(views.subrange(0, i as int) =~= views);
        assert(keys.subrange(0, i as int) =~= keys);
    }
    *mods = mod_map;
}

/// The mods of `mods` in the order of the load order `priority` (keys without a mod are
/// skipped).
pub fn get_mods_in_order(priority: &Vec<String>, mods: &StrMap<DivaMod>) -> (r: Vec<DivaMod>)
    ensures
        spec_mods_view(r@) == spec_mods_in_order(priority.deep_view(), mods@),
{
    let ghost prio = priority.deep_view();
    let mut r: Vec<DivaMod> = Vec::new();
    let mut i: usize = 0;
    while i < priority.len()
        invariant
            i <= priority.len(),
            prio == priority.deep_view(),
            spec_mods_view(r@) == spec_mods_in_order(prio.subrange(0, i as int), mods@),
        decreases priority.len() - i,
    {
        proof {
            assert(prio.subrange(0, i + 1).drop_last() =~= prio.subrange(0, i as int));
            assert(prio[i as int] == priority@[i as int]@);
        }
        match mods.get(priority[i].as_str()) {
            Some(m) => {
                let ghost before = spec_mods_view(r@);
                r.push(m.duplicate());
                proof {
                    assert(spec_mods_view(r@) =~= before.push(m@));
                }
            },
            None => {},
        }
        i = i + 1;
    }
    assert(prio.subrange(0, i as int) =~= prio);
    r
}

/// Mod `m` switched the other way (on when it was off, off when it was on).
pub open spec fn spec_flip(m: DivaModView) -> DivaModView {
    DivaModView { config: DivaModConfigView { enabled: !m.config.enabled, ..m.config }, ..m }
}

/// Switches the mod kept under `key` on or off. Hands back the mod as it now is (its
/// `config.toml` is to be saved again), or `None` when no mod is kept under `key`.
pub fn toggle_mod(mods: &mut StrMap<DivaMod>, key: &str) -> (r: Option<DivaMod>)
    ensures
        match r {
            Some(m) => old(mods)@.contains_key(key@) && m@ == spec_flip(old(mods)@[key@])
                && final(mods)@ == old(mods)@.insert(key@, m@),
            None => !old(mods)@.contains_key(key@) && final(mods)@ == old(mods)@,
        },
{
    let mut m = match mods.get(key) {
        Some(m) => m.duplicate(),
        None => return None,
    };
    let now = !m.config.enabled;
    let copy = m.set_enabled(now);
    mods.insert(owned(key), m);
    Some(copy)
}

/// Switching the same mod twice leaves the mods as they were.
pub proof fn lemma_toggle_twice_restores(mods: Map<Seq<char>, DivaModView>, key: Seq<char>)
    requires
        mods.contains_key(key),
    ensures
        ({
            let once = mods.insert(key, spec_flip(mods[key]));
            once.insert(key, spec_flip(once[key])) == mods
        }),
{
    let once = mods.insert(key, spec_flip(mods[key]));
    assert(spec_flip(spec_flip(mods[key])) == mods[key]);
    assert(once.insert(key, spec_flip(once[key])) =~= mods);
}

/// Merging keys into a load order keeps the old load order as it was, in front.
pub proof fn lemma_merge_priority_keeps_order(prio: Seq<Seq<char>>, keys: Seq<Seq<char>>)
    ensures
        spec_merge_priority(prio, keys).len() >= prio.len(),
        spec_merge_priority(prio, keys).subrange(0, prio.len() as int) == prio,
    decreases keys.len(),
{
    if keys.len() > 0 {
        lemma_merge_priority_keeps_order(prio, keys.drop_last());
        let p = spec_merge_priority(prio, keys.drop_last());
        assert(p.push(keys.last()).subrange(0, prio.len() as int) =~= p.subrange(
            0,
            prio.len() as int,
        ));
    }
}

/// After a merge the load order holds every merged key, and nothing that was neither in
/// the load order nor among the keys.
pub proof fn lemma_merge_priority_contents(prio: Seq<Seq<char>>, keys: Seq<Seq<char>>, k: Seq<char>)
    ensures
        keys.contains(k) ==> spec_merge_priority(prio, keys).contains(k),
        prio.contains(k) ==> spec_merge_priority(prio, keys).contains(k),
        spec_merge_priority(prio, keys).contains(k) ==> prio.contains(k) || keys.contains(k),
    decreases keys.len(),
{
    if keys.len() > 0 {
        let ks = keys.drop_last();
        lemma_merge_priority_contents(prio, ks, k);
        let p = spec_merge_priority(prio, ks);
        if keys.contains(k) && k != keys.last() {
            let j = choose|j: int| 0 <= j < keys.len() && keys[j] == k;
            assert(ks[j] == k);
        }
        if ks.contains(k) {
            let j = choose|j: int| 0 <= j < ks.len() && ks[j] == k;
            assert(keys[j] == k);
        }
        if !p.contains(keys.last()) {
            assert(p.push(keys.last())[p.len() as int] == keys.last());
            if p.contains(k) {
                let j = choose|j: int| 0 <= j < p.len() && p[j] == k;
                assert(p.push(keys.last())[j] == k);
            }
            if p.push(keys.last()).contains(k) && k != keys.last() {
                let j = choose|j: int| 0 <= j < p.len() + 1 && p.push(keys.last())[j] == k;
                assert(p[j] == k);
            }
        }
        assert(keys[keys.len() - 1] == keys.last());
    }
}

/// A merge adds no key twice: a load order without repeats stays without repeats.
pub proof fn lemma_merge_priority_no_repeats(prio: Seq<Seq<char>>, keys: Seq<Seq<char>>)
    requires
        prio.no_duplicates(),
    ensures
        spec_merge_priority(prio, keys).no_duplicates(),
    decreases keys.len(),
{
    if keys.len() > 0 {
        lemma_merge_priority_no_repeats(prio, keys.drop_last());
        let p = spec_merge_priority(prio, keys.drop_last());
        if !p.contains(keys.last()) {
            let q = p.push(keys.last());
            assert forall|a: int, b: int| 0 <= a < q.len() && 0 <= b < q.len() && a != b implies q[a]
                != q[b] by {
                if a == p.len() {
                    assert(p[b] == q[b]);
                } else if b == p.len() {
                    assert(p[a] == q[a]);
                }
            }
        }
    }
}

/// The keys of the mods kept by key are exactly the keys of the scanned mods.
pub proof fn lemma_mod_map_keys(s: Seq<DivaModView>, k: Seq<char>)
    ensures
        spec_mod_map(s).contains_key(k) <==> spec_mod_keys(s).contains(k),
    decreases s.len(),
{
    if s.len() > 0 {
        let t = s.drop_last();
        lemma_mod_map_keys(t, k);
        let ks = spec_mod_keys(s);
        assert(spec_mod_keys(t) =~= ks.drop_last());
        assert(ks[ks.len() - 1] == spec_mod_key(s.last()));
        if ks.drop_last().contains(k) {
            let j = choose|j: int| 0 <= j < ks.len() - 1 && ks.drop_last()[j] == k;
            assert(ks[j] == k);
        }
        if ks.contains(k) && k != spec_mod_key(s.last()) {
            let j = choose|j: int| 0 <= j < ks.len() && ks[j] == k;
            assert(ks.drop_last()[j] == k);
        }
    }
}

/// A mod whose key the load order lists is among the mods put in load order.
pub proof fn lemma_mods_in_order_lists(prio: Seq<Seq<char>>, mods: Map<Seq<char>, DivaModView>, k: Seq<
    char,
>)
    requires
        prio.contains(k),
        mods.contains_key(k),
    ensures
        spec_mods_in_order(prio, mods).contains(mods[k]),
    decreases prio.len(),
{
    let r = spec_mods_in_order(prio.drop_last(), mods);
    if prio.last() == k {
        assert(r.push(mods[k])[r.len() as int] == mods[k]);
    } else {
        let j = choose|j: int| 0 <= j < prio.len() && prio[j] == k;
        assert(prio.drop_last()[j] == k);
        lemma_mods_in_order_lists(prio.drop_last(), mods, k);
        if mods.contains_key(prio.last()) {
            let i = choose|i: int| 0 <= i < r.len() && r[i] == mods[k];
            assert(r.push(mods[prio.last()])[i] == mods[k]);
        }
    }
}

/// Every mod put in load order is one of `mods`, under a key that the load order lists.
pub proof fn lemma_mods_in_order_from_mods(prio: Seq<Seq<char>>, mods: Map<Seq<char>, DivaModView>, i: int)
    requires
        0 <= i < spec_mods_in_order(prio, mods).len(),
    ensures
        exists|k: Seq<char>| prio.contains(k) && mods.contains_key(k) && mods[k] == #[trigger] spec_mods_in_order(prio, mods)[i],
    decreases prio.len(),
{
    let r = spec_mods_in_order(prio.drop_last(), mods);
    let last = prio.last();
    assert(prio[prio.len() - 1] == last);
    if i < r.len() {
        lemma_mods_in_order_from_mods(prio.drop_last(), mods, i);
        let k = choose|k: Seq<char>| prio.drop_last().contains(k) && mods.contains_key(k) && mods[k] == #[trigger] r[i];
        let j = choose|j: int| 0 <= j < prio.len() - 1 && prio.drop_last()[j] == k;
        assert(prio[j] == k);
        if mods.contains_key(last) {
            assert(r.push(mods[last])[i] == r[i]);
        }
    } else {
        assert(mods.contains_key(last));
        assert(r.push(mods[last])[i] == mods[last]);
    }
}

/// Every mod that a scan found (under its key) shows up in the mods table: after the scan
/// has been merged into the load order, the mods in load order include each scanned mod
/// that is kept under its key.
pub proof fn lemma_scanned_mods_all_listed(prio: Seq<Seq<char>>, scanned: Seq<DivaModView>, k: Seq<
    char,
>)
    requires
        spec_mod_map(scanned).contains_key(k),
    ensures
        spec_mods_in_order(
            spec_merge_priority(prio, spec_mod_keys(scanned)),
            spec_mod_map(scanned),
        ).contains(spec_mod_map(scanned)[k]),
{
    lemma_mod_map_keys(scanned, k);
    lemma_merge_priority_contents(prio, spec_mod_keys(scanned), k);
    lemma_mods_in_order_lists(
        spec_merge_priority(prio, spec_mod_keys(scanned)),
        spec_mod_map(scanned),
        k,
    );
}

/// The keys of the load order `prio` under which `mods` keeps a mod, in load order (`prio`
/// with every other key left out).
pub open spec fn spec_listed_keys(prio: Seq<Seq<char>>, mods: Map<Seq<char>, DivaModView>) -> Seq<
    Seq<char>,
>
    decreases prio.len(),
{
    if prio.len() == 0 {
        Seq::empty()
    } else {
        let r = spec_listed_keys(prio.drop_last(), mods);
        if mods.contains_key(prio.last()) {
            r.push(prio.last())
        } else {
            r
        }
    }
}

proof fn lemma_listed_keys(prio: Seq<Seq<char>>, mods: Map<Seq<char>, DivaModView>)
    ensures
        spec_mods_in_order(prio, mods).len() == spec_listed_keys(prio, mods).len(),
        forall|i: int|
            0 <= i < spec_listed_keys(prio, mods).len() ==> #[trigger] spec_mods_in_order(prio, mods)[i]
                == mods[spec_listed_keys(prio, mods)[i]],
        forall|k: Seq<char>|
            #[trigger] spec_listed_keys(prio, mods).contains(k) <==> prio.contains(k) && mods.contains_key(k),
        prio.no_duplicates() ==> spec_listed_keys(prio, mods).no_duplicates(),
    decreases prio.len(),
{
    if prio.len() > 0 {
        let t = prio.drop_last();
        let last = prio.last();
        lemma_listed_keys(t, mods);
        let r = spec_listed_keys(t, mods);
        let m = spec_mods_in_order(t, mods);
        assert(prio[prio.len() - 1] == last);
        assert forall|k: Seq<char>|
            #[trigger] spec_listed_keys(prio, mods).contains(k) <==> prio.contains(k) && mods.contains_key(k) by {
            if prio.contains(k) && k != last {
                let j = choose|j: int| 0 <= j < prio.len() && prio[j] == k;
                assert(t[j] == k);
            }
            if t.contains(k) {
                let j = choose|j: int| 0 <= j < t.len() && t[j] == k;
                assert(prio[j] == k);
            }
            if mods.contains_key(last) {
                let q = r.push(last);
                assert(q[r.len() as int] == last);
                if r.contains(k) {
                    let j = choose|j: int| 0 <= j < r.len() && r[j] == k;
                    assert(q[j] == k);
                }
                if q.contains(k) && k != last {
                    let j = choose|j: int| 0 <= j < q.len() && q[j] == k;
                    assert(r[j] == k);
                }
            }
        }
        if prio.no_duplicates() {
            assert(t.no_duplicates()) by {
                assert forall|a: int, b: int| 0 <= a < t.len() && 0 <= b < t.len() && a != b implies t[a]
                    != t[b] by {
                    assert(t[a] == prio[a]);
                    assert(t[b] == prio[b]);
                }
            }
            if mods.contains_key(last) {
                let q = r.push(last);
                assert(!t.contains(last)) by {
                    if t.contains(last) {
                        let j = choose|j: int| 0 <= j < t.len() && t[j] == last;
                        assert(prio[j] == prio[prio.len() - 1]);
                    }
                }
                assert(!r.contains(last));
                assert forall|a: int, b: int| 0 <= a < q.len() && 0 <= b < q.len() && a != b implies q[a]
                    != q[b] by {
                    if a == r.len() {
                        assert(q[b] == r[b]);
                    } else if b == r.len() {
                        assert(q[a] == r[a]);
                    } else {
                        assert(q[a] == r[a]);
                        assert(q[b] == r[b]);
                    }
                }
            }
        }
        if mods.contains_key(last) {
            assert forall|i: int| 0 <= i < spec_listed_keys(prio, mods).len() implies #[trigger] spec_mods_in_order(
                prio,
                mods,
            )[i] == mods[spec_listed_keys(prio, mods)[i]] by {
                if i < r.len() {
                    assert(spec_mods_in_order(prio, mods)[i] == m[i]);
                    assert(spec_listed_keys(prio, mods)[i] == r[i]);
                }
            }
        }
    }
}

/// With a load order that repeats no key and lists every key of `mods`, the mods in load
/// order are the mods of `mods`, each exactly once: the `i`-th is the mod under the `i`-th of
/// the listed keys, and the listed keys (the load order with the keys of no mod left out)
/// repeat nothing and are exactly the keys of `mods`.
pub proof fn lemma_mods_in_order_each_once(prio: Seq<Seq<char>>, mods: Map<Seq<char>, DivaModView>)
    requires
        prio.no_duplicates(),
        forall|k: Seq<char>| #[trigger] mods.contains_key(k) ==> prio.contains(k),
    ensures
        spec_listed_keys(prio, mods).no_duplicates(),
        forall|k: Seq<char>| #[trigger] spec_listed_keys(prio, mods).contains(k) <==> mods.contains_key(k),
        spec_mods_in_order(prio, mods).len() == spec_listed_keys(prio, mods).len(),
        forall|i: int|
            0 <= i < spec_listed_keys(prio, mods).len() ==> #[trigger] spec_mods_in_order(prio, mods)[i]
                == mods[spec_listed_keys(prio, mods)[i]],
{
    lemma_listed_keys(prio, mods);
}

/// After a scan is taken in by `load_mods` into a load order that repeats no key, the mods
/// in load order are the scanned mods (one per key), each exactly once, in the order of
/// the merged load order.
pub proof fn lemma_loaded_mods_each_once(prio: Seq<Seq<char>>, scanned: Seq<DivaModView>)
    requires
        prio.no_duplicates(),
    ensures
        ({
            let order = spec_merge_priority(prio, spec_mod_keys(scanned));
            let mods = spec_mod_map(scanned);
            &&& spec_listed_keys(order, mods).no_duplicates()
            &&& forall|k: Seq<char>| #[trigger] spec_listed_keys(order, mods).contains(k) <==> mods.contains_key(k)
            &&& spec_mods_in_order(order, mods).len() == spec_listed_keys(order, mods).len()
            &&& forall|i: int|
                0 <= i < spec_listed_keys(order, mods).len() ==> #[trigger] spec_mods_in_order(order, mods)[i]
                    == mods[spec_listed_keys(order, mods)[i]]
        }),
{
    let keys = spec_mod_keys(scanned);
    let order = spec_merge_priority(prio, keys);
    let mods = spec_mod_map(scanned);
    lemma_merge_priority_no_repeats(prio, keys);
    assert forall|k: Seq<char>| #[trigger] mods.contains_key(k) implies order.contains(k) by {
        lemma_mod_map_keys(scanned, k);
        lemma_merge_priority_contents(prio, keys, k);
    }
    lemma_mods_in_order_each_once(order, mods);
}

// ---------------------------------------------------------------------------------------
// Installing archives
// ---------------------------------------------------------------------------------------

/// The folder that an archive is unpacked into: the mods folder `mods` of the game folder
/// (`./mods` when no game folder is known), and, for an archive that does not hold a
/// single mod folder, a folder named after the archive file inside it.
pub open spec fn spec_unpack_destination(
    diva_dir: Option<Seq<char>>,
    mods: Seq<char>,
    archive_name: Seq<char>,
    valid: bool,
) -> Seq<char> {
    let base = match diva_dir {
        Some(d) => d,
        None => "./mods"@,
    };
    let dir = spec_join(base, mods);
    if valid {
        dir
    } else {
        spec_join(dir, archive_name)
    }
}

/// The folder that an archive is unpacked into (see `spec_unpack_destination`).
pub fn unpack_destination(diva_dir: Option<String>, mods: &str, archive_name: &str, valid: bool) -> (r: String)
    ensures
        r@ == spec_unpack_destination(diva_dir.deep_view(), mods@, archive_name@, valid),
{
    let base = match diva_dir {
        Some(d) => d,
        None => owned("./mods"),
    };
    let dir = join(base.as_str(), mods);
    if valid {
        dir
    } else {
        join(dir.as_str(), archive_name)
    }
}

// ---------------------------------------------------------------------------------------
// Download progress
// ---------------------------------------------------------------------------------------

/// The bytes of a download received so far and how many of them were reported.
pub struct DownloadProgress {
    received: usize,
    last_sent: usize,
}

impl DownloadProgress {
    #[verifier::type_invariant]
    spec fn inv(self) -> bool {
        self.last_sent <= self.received
    }

    /// The bytes received so far.
    pub closed spec fn spec_received(self) -> nat {
        self.received as nat
    }

    /// The bytes received up to the last report.
    pub closed spec fn spec_last_sent(self) -> nat {
        self.last_sent as nat
    }

    /// A download that has received nothing yet.
    pub fn new() -> (r: Self)
        ensures
            r.spec_received() == 0,
            r.spec_last_sent() == 0,
    {
        DownloadProgress { received: 0, last_sent: 0 }
    }

    /// The bytes received so far.
    pub fn received(&self) -> (r: usize)
        ensures
            r == self.spec_received(),
    {
        self.received
    }

    /// Takes in a chunk of `len` bytes. Returns the bytes to report since the last report
    /// when a report is due: while nothing was reported yet (by the low 32 bits of the
    /// reported count), and once at least 3000 bytes are unreported.
    pub fn on_chunk(&mut self, len: usize) -> (r: Option<usize>)
        requires
            old(self).spec_received() + len <= usize::MAX,
        ensures
            final(self).spec_received() == old(self).spec_received() + len,
            ({
                let pending = final(self).spec_received() - old(self).spec_last_sent();
                if (old(self).spec_last_sent() as i32) == 0 || pending >= 3000 {
                    r == Some(pending as usize) && final(self).spec_last_sent()
                        == final(self).spec_received()
                } else {
                    r is None && final(self).spec_last_sent() == old(self).spec_last_sent()
                }
            }),
            final(self).spec_last_sent() <= final(self).spec_received(),
    {
        proof {
            use_type_invariant(&*self);
        }
        let received = self.received + len;
        let pending = received - self.last_sent;
        let report = (self.last_sent as i32) == 0 || pending >= 3000;
        if report {
            *self = DownloadProgress { received, last_sent: received };
            Some(pending)
        } else {
            let last_sent = self.last_sent;
            *self = DownloadProgress { received, last_sent };
            None
        }
    }
}

/// The reports that chunks of the sizes `chunks` give, from a download that has
/// `received` bytes of which `last_sent` were reported: the total reported and the new
/// reported count.
pub open spec fn spec_feed(received: nat, last_sent: nat, chunks: Seq<nat>) -> (nat, nat, nat)
    decreases chunks.len(),
{
    if chunks.len() == 0 {
        (received, last_sent, 0)
    } else {
        let (rec, sent, total) = spec_feed(received, last_sent, chunks.drop_last());
        let now = rec + chunks.last();
        let pending = now - sent;
        if (sent as i32) == 0 || pending >= 3000 {
            (now, now, total + pending as nat)
        } else {
            (now, sent, total)
        }
    }
}

/// The reports of a download add up: whatever chunks arrive, the bytes reported in total
/// are the bytes received up to the last report, never more than were received.
pub proof fn lemma_reports_add_up(chunks: Seq<nat>)
    ensures
        spec_feed(0, 0, chunks).2 == spec_feed(0, 0, chunks).1,
        spec_feed(0, 0, chunks).1 <= spec_feed(0, 0, chunks).0,
    decreases chunks.len(),
{
    if chunks.len() > 0 {
        lemma_reports_add_up(chunks.drop_last());
    }
}

/// The first chunk of a download is always reported, in full.
pub proof fn lemma_first_chunk_reported(len: nat)
    ensures
        spec_feed(0, 0, seq![len]).2 == len,
{
    assert(seq![len].drop_last() =~= Seq::<nat>::empty());
    assert(spec_feed(0, 0, Seq::<nat>::empty()) == (0nat, 0nat, 0nat));
    assert((0nat as i32) == 0);
}

} // verus!
