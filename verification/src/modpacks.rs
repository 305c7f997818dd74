use vstd::prelude::*;

use crate::modmanagement::{spec_mods_view, DivaMod, DivaModConfigView, DivaModElement, DivaModView};
use crate::strmap::StrMap;
use crate::text::{
    concat, dir_name_given, exists_on_disk, owned, parent_path, spec_dir_name,
    spec_dir_name_on, spec_disk_exists, spec_parent_dir_name, spec_parent_path, str_eq,
};
use vstd::utf8::encode_utf8;
use base64ct::Encoding;
use sha2::Digest;

verus! {

/// A mod as a mod pack (or the global load order) lists it.
///
/// Two entries stand for the same mod when their folder names (their names, where the
/// folder is not on disk) agree, which depends on the disk: that comparison is
/// `same_mod_as`, and the type has no `==`.
#[derive(Debug)]
pub struct ModPackMod {
    pub name: String,
    pub enabled: bool,
    pub path: String,
}

/// The contents of a `ModPackMod`.
pub struct ModPackModView {
    pub name: Seq<char>,
    pub enabled: bool,
    pub path: Seq<char>,
}

impl View for ModPackMod {
    type V = ModPackModView;

    open spec fn view(&self) -> ModPackModView {
        ModPackModView { name: self.name@, enabled: self.enabled, path: self.path@ }
    }
}

/// A named selection of mods, in load order, each switched on or off.
#[derive(Debug)]
pub struct ModPack {
    pub name: String,
    pub mods: Vec<ModPackMod>,
}

/// The contents of a `ModPack`.
pub struct ModPackView {
    pub name: Seq<char>,
    pub mods: Seq<ModPackModView>,
}

impl View for ModPack {
    type V = ModPackView;

    open spec fn view(&self) -> ModPackView {
        ModPackView { name: self.name@, mods: self.mods@.map_values(|m: ModPackMod| m@) }
    }
}

impl ModPackMod {
    /// A copy with the same contents.
    pub fn duplicate(&self) -> (r: Self)
        ensures
            r@ == self@,
    {
        ModPackMod { name: self.name.clone(), enabled: self.enabled, path: self.path.clone() }
    }

    /// The name of the folder that holds the mod, when that folder exists on disk.
    pub fn dir_name(&self) -> (r: Option<String>)
        ensures
            exists|e: bool| r.deep_view() == #[trigger] spec_dir_name(self.path@, e),
            exists|e: bool|
                #![trigger spec_dir_name(self.path@, e)]
                spec_disk_exists(spec_parent_path(self.path@), e) && r.deep_view() == spec_dir_name(
                    self.path@,
                    e,
                ),
    {
        crate::text::dir_name(self.path.as_str())
    }
}

/// Whether `r` is the row of the mods table for the installed mod `m`.
pub open spec fn spec_row_of_mod(r: DivaModElement, m: DivaModView) -> bool {
    &&& r.name@ == m.config.name
    &&& r.author@ == m.config.author
    &&& r.description@ == m.config.description
    &&& r.version@ == m.config.version
    &&& r.enabled == m.config.enabled
    &&& r.path@ == m.path
}

/// The key under which the installed mod of the entry `pm` is looked up, given whether its
/// folder exists: the folder's name, or the empty key.
pub open spec fn spec_entry_key(pm: ModPackModView, exists: bool) -> Seq<char> {
    if exists && spec_parent_dir_name(pm.path) is Some {
        spec_parent_dir_name(pm.path)->0
    } else {
        Seq::empty()
    }
}

/// Whether `r` is the pack editor's row for the entry `pm`, given the installed mods by key
/// and whether the entry's folder exists: the row of the installed mod kept under the
/// entry's folder name, or, when there is none, a row made of the entry's name, state and
/// path alone.
pub open spec fn spec_entry_row(
    r: DivaModElement,
    pm: ModPackModView,
    mods: Map<Seq<char>, DivaModView>,
    exists: bool,
) -> bool {
    let key = spec_entry_key(pm, exists);
    if mods.contains_key(key) {
        spec_row_of_mod(r, mods[key])
    } else {
        &&& r.name@ == pm.name
        &&& r.author@ == Seq::<char>::empty()
        &&& r.description@ == Seq::<char>::empty()
        &&& r.version@ == Seq::<char>::empty()
        &&& r.enabled == pm.enabled
        &&& r.path@ == pm.path
    }
}

impl ModPackMod {
    /// The pack editor's row for this entry, given the installed mods by key and whether
    /// the entry's folder exists (see `spec_entry_row`).
    pub fn to_element_given(&self, mods: &StrMap<DivaMod>, exists: bool) -> (r: DivaModElement)
        ensures
            spec_entry_row(r, self@, mods@, exists),
    {
        let key = match dir_name_given(self.path.as_str(), exists) {
            Some(n) => n,
            None => String::new(),
        };
        match mods.get(key.as_str()) {
            Some(m) => m.to_element(),
            None => DivaModElement {
                name: self.name.clone(),
                author: String::new(),
                description: String::new(),
                version: String::new(),
                enabled: self.enabled,
                path: self.path.clone(),
            },
        }
    }

    /// The pack editor's row for this entry, looking on disk whether its folder exists.
    pub fn to_element(&self, mods: &StrMap<DivaMod>) -> (r: DivaModElement)
        ensures
            exists|e: bool| #[trigger] spec_entry_row(r, self@, mods@, e),
            exists|e: bool|
                #![trigger spec_entry_row(r, self@, mods@, e)]
                spec_disk_exists(spec_parent_path(self.path@), e) && spec_entry_row(r, self@, mods@, e),
    {
        let parent = parent_path(self.path.as_str());
        let exists = exists_on_disk(parent.as_str());
        self.to_element_given(mods, exists)
    }
}

/// While the folders on disk stay the same, the folder name of an installed mod, of its row
/// in the mods table and of its pack entry is one and the same: it depends on the path alone
/// (`to_element` and `to_packmod` keep the path), and a pack entry without a path lies in
/// no named folder.
pub proof fn lemma_dir_names_follow_path(
    m: DivaModView,
    row_path: Seq<char>,
    entry: ModPackModView,
    disk: Set<Seq<char>>,
)
    requires
        row_path == m.path,
        entry.path == m.path,
    ensures
        spec_dir_name_on(row_path, disk) == spec_dir_name_on(m.path, disk),
        spec_dir_name_on(entry.path, disk) == spec_dir_name_on(m.path, disk),
        spec_dir_name_on(Seq::empty(), disk) is None,
{
    crate::text::lemma_empty_path_no_dir_name(disk, false);
}

impl ModPack {
    /// An empty mod pack called `name`.
    pub fn new(name: String) -> (r: Self)
        ensures
            r@ == (ModPackView { name: name@, mods: Seq::empty() }),
    {
        let r = ModPack { name: name.clone(), mods: Vec::new() };
        assert(r@.mods =~= Seq::<ModPackModView>::empty());
        r
    }
}

// ---------------------------------------------------------------------------------------
// Hashing and file names
// ---------------------------------------------------------------------------------------

/// The SHA-256 digest of `data`.
pub uninterp spec fn spec_sha256(data: Seq<u8>) -> Seq<u8>;

/// The SHA-256 digest of `data`.
///
/// Trusted: `sha2::Sha256::digest`; claims the result is the digest of `data` (named, not
/// spelled out) and, as the algorithm fixes, 32 bytes long.
#[verifier::external_body]
fn sha256_digest(data: &[u8]) -> (r: Vec<u8>)
    ensures
        r@ == spec_sha256(data@),
        r@.len() == 32,
{
    sha2::Sha256::digest(data).to_vec()
}

/// The character of the standard Base64 alphabet for the six bits `v`.
pub open spec fn spec_base64_char(v: int) -> char {
    if v < 26 {
        (('A' as int) + v) as char
    } else if v < 52 {
        (('a' as int) + v - 26) as char
    } else if v < 62 {
        (('0' as int) + v - 52) as char
    } else if v == 62 {
        '+'
    } else {
        '/'
    }
}

/// `s` in standard Base64 (RFC 4648) with `=` padding: each three bytes become four
/// characters, and a last group of one or two bytes is padded.
pub open spec fn spec_base64(s: Seq<u8>) -> Seq<char>
    decreases s.len(),
{
    if s.len() == 0 {
        Seq::empty()
    } else {
        let a = s[0] as int;
        let b = if s.len() > 1 { s[1] as int } else { 0 };
        let c = if s.len() > 2 { s[2] as int } else { 0 };
        let first = spec_base64_char(a / 4);
        let second = spec_base64_char((a % 4) * 16 + b / 16);
        if s.len() == 1 {
            seq![first, second, '=', '=']
        } else if s.len() == 2 {
            seq![first, second, spec_base64_char((b % 16) * 4), '=']
        } else {
            seq![first, second, spec_base64_char((b % 16) * 4 + c / 64), spec_base64_char(c % 64)]
                + spec_base64(s.skip(3))
        }
    }
}

/// `data` in standard Base64 with padding.
///
/// Trusted: `base64ct::Base64::encode_string` (the standard alphabet with `=` padding);
/// claims the result is `spec_base64` of `data`. It panics when four times the length does
/// not fit in `usize`, which `requires` leaves out.
#[verifier::external_body]
fn base64_encode(data: &[u8]) -> (r: String)
    requires
        data@.len() <= usize::MAX / 4,
    ensures
        r@ == spec_base64(data@),
{
    base64ct::Base64::encode_string(data)
}

/// What `filenamify` makes of `input`: a name that a file can have.
pub uninterp spec fn spec_filenamify(input: Seq<char>) -> Seq<char>;

/// `input` turned into a name that a file can have.
///
/// Trusted: `filenamify::filenamify`; claims the result is `spec_filenamify` of `input`
/// (named, not spelled out), that it is empty only when `input` is, and that it holds no
/// `/` or `\`: the crate replaces every run of reserved characters, both separators
/// among them, and outer runs of dots by `_`, and may append a `_`.
#[verifier::external_body]
fn filenamify_name(input: &str) -> (r: String)
    ensures
        r@ == spec_filenamify(input@),
        r@.len() == 0 <==> input@.len() == 0,
        !r@.contains('/'),
        !r@.contains('\\'),
{
    filenamify::filenamify(input)
}

/// The length of standard padded Base64 for `n` bytes.
pub proof fn lemma_base64_len(s: Seq<u8>)
    ensures
        spec_base64(s).len() == 4 * ((s.len() + 2) / 3),
    decreases s.len(),
{
    if s.len() >= 3 {
        lemma_base64_len(s.skip(3));
    }
}

/// The name under which the mod packs of the game folder `dir` are kept: the padded
/// Base64 of the SHA-256 of its UTF-8 text.
pub fn hash_dir_name(dir: String) -> (r: String)
    ensures
        r@ == spec_base64(spec_sha256(encode_utf8(dir@))),
        r@.len() == 44,
{
    let digest = sha256_digest(dir.as_str().as_bytes());
    proof {
        lemma_base64_len(digest@);
    }
    base64_encode(digest.as_slice())
}

/// The name of the folder, under the configuration folder, that holds the mod packs of the
/// game folder `diva_dir` (`DefaultPath` when no game folder is known).
pub fn modpacks_dir_name(diva_dir: Option<String>) -> (r: String)
    ensures
        r@ == spec_filenamify(spec_base64(spec_sha256(encode_utf8(match diva_dir {
            Some(d) => d@,
            None => "DefaultPath"@,
        })))),
        r@.len() > 0,
        !r@.contains('/'),
        !r@.contains('\\'),
{
    let dir = match diva_dir {
        Some(d) => d,
        None => owned("DefaultPath"),
    };
    let hashed = hash_dir_name(dir);
    filenamify_name(hashed.as_str())
}

/// The name of the file that holds the mod pack called `pack_name`.
pub fn modpack_file_name(pack_name: &str) -> (r: String)
    ensures
        r@ == spec_filenamify(pack_name@) + ".json"@,
        !r@.contains('/'),
        !r@.contains('\\'),
{
    let base = filenamify_name(pack_name);
    let r = concat(base.as_str(), ".json");
    proof {
        reveal_strlit(".json");
        assert forall|i: int| 0 <= i < r@.len() implies r@[i] != '/' && r@[i] != '\\' by {
            if i < base@.len() {
                assert(r@[i] == base@[i]);
            } else {
                assert(r@[i] == ".json"@[i - base@.len()]);
            }
        }
    }
    r
}

/// Whether every pack of `packs` is kept under its own name.
pub open spec fn spec_packs_keyed_by_name(packs: Map<Seq<char>, ModPackView>) -> bool {
    forall|k: Seq<char>| #[trigger] packs.contains_key(k) ==> packs[k].name == k
}

/// The name that the pack-creation field `input` gives a new pack: its file-name form,
/// unless that is empty or the reserved `All Mods`.
pub open spec fn spec_new_pack_name(input: Seq<char>) -> Option<Seq<char>> {
    let n = spec_filenamify(input);
    if n.len() == 0 || n == "All Mods"@ {
        None
    } else {
        Some(n)
    }
}

/// Creates the empty pack that the pack-creation field `input` asks for, unless its name is
/// refused or a pack of that name exists. Returns the new pack's name when one was added.
pub fn create_new_pack(packs: &mut StrMap<ModPack>, input: &str) -> (r: Option<String>)
    ensures
        match spec_new_pack_name(input@) {
            Some(n) => if old(packs)@.contains_key(n) {
                r is None && final(packs)@ == old(packs)@
            } else {
                r matches Some(s) && s@ == n && final(packs)@ == old(packs)@.insert(
                    n,
                    ModPackView { name: n, mods: Seq::empty() },
                )
            },
            None => r is None && final(packs)@ == old(packs)@,
        },
        spec_packs_keyed_by_name(old(packs)@) ==> spec_packs_keyed_by_name(final(packs)@),
{
    let name = filenamify_name(input);
    let all = owned("All Mods");
    if name.as_str().is_empty() || name == all {
        return None;
    }
    if packs.contains_key(name.as_str()) {
        return None;
    }
    let pack = ModPack::new(name.clone());
    packs.insert(name.clone(), pack);
    Some(name)
}

// ---------------------------------------------------------------------------------------
// Which mod an entry stands for
// ---------------------------------------------------------------------------------------

/// The name by which a mod entry at `path` with configured name `name` is matched, given
/// whether the folder holding `path` exists: that folder's name, else the configured name.
pub open spec fn spec_mod_identity(path: Seq<char>, name: Seq<char>, exists: bool) -> Seq<char> {
    if exists && spec_parent_dir_name(path) is Some {
        spec_parent_dir_name(path)->0
    } else {
        name
    }
}

/// The name by which a mod entry is matched, given whether its folder exists.
pub fn mod_identity_given(path: &str, name: &str, exists: bool) -> (r: String)
    ensures
        r@ == spec_mod_identity(path@, name@, exists),
{
    match dir_name_given(path, exists) {
        Some(n) => n,
        None => owned(name),
    }
}

/// The name by which a mod entry is matched, looking on disk whether its folder exists.
pub fn mod_identity(path: &str, name: &str) -> (r: String)
    ensures
        exists|e: bool| r@ == spec_mod_identity(path@, name@, e),
        exists|e: bool|
            #![trigger spec_mod_identity(path@, name@, e)]
            spec_disk_exists(spec_parent_path(path@), e) && r@ == spec_mod_identity(path@, name@, e),
{
    let parent = parent_path(path);
    let exists = exists_on_disk(parent.as_str());
    mod_identity_given(path, name, exists)
}

/// Whether the answers `a` and `b` of the disk on the folders of the entries at `p1` and
/// `p2` are the disk's, and one answer when the two lie in the same folder.
pub open spec fn spec_pair_answers(p1: Seq<char>, p2: Seq<char>, a: bool, b: bool) -> bool {
    &&& spec_disk_exists(spec_parent_path(p1), a)
    &&& spec_disk_exists(spec_parent_path(p2), b)
    &&& spec_parent_path(p1) == spec_parent_path(p2) ==> a == b
}

/// Whether the entries at `p1` (named `n1`) and at `p2` (named `n2`) stand for the same
/// mod, looking on disk whether their folders exist; a folder is asked about once.
fn same_identity(p1: &str, n1: &str, p2: &str, n2: &str) -> (r: bool)
    ensures
        exists|a: bool, b: bool|
            #![trigger spec_mod_identity(p1@, n1@, a), spec_mod_identity(p2@, n2@, b)]
            spec_pair_answers(p1@, p2@, a, b) && r == (spec_mod_identity(p1@, n1@, a)
                == spec_mod_identity(p2@, n2@, b)),
{
    let parent1 = parent_path(p1);
    let parent2 = parent_path(p2);
    let a = exists_on_disk(parent1.as_str());
    let b = if str_eq(parent1.as_str(), parent2.as_str()) {
        a
    } else {
        exists_on_disk(parent2.as_str())
    };
    let left = mod_identity_given(p1, n1, a);
    let right = mod_identity_given(p2, n2, b);
    left == right
}

/// Two entries at the same path under the same name stand for the same mod, whatever the
/// disk says of their folder, as long as it says the same of both.
pub proof fn lemma_same_entry_same_mod(p1: Seq<char>, n1: Seq<char>, p2: Seq<char>, n2: Seq<char>, a: bool, b: bool)
    requires
        p1 == p2,
        n1 == n2,
        spec_parent_path(p1) == spec_parent_path(p2) ==> a == b,
    ensures
        spec_mod_identity(p1, n1, a) == spec_mod_identity(p2, n2, b),
{
}

impl ModPackMod {
    /// Whether this entry and `other` stand for the same mod: their folder names, or their
    /// configured names where the folder is not on disk, agree.
    pub fn same_mod_as(&self, other: &ModPackMod) -> (r: bool)
        ensures
            exists|a: bool, b: bool| r == (spec_mod_identity(self.path@, self.name@, a)
                == spec_mod_identity(other.path@, other.name@, b)),
            exists|a: bool, b: bool|
                #![trigger spec_mod_identity(self.path@, self.name@, a), spec_mod_identity(other.path@, other.name@, b)]
                spec_pair_answers(self.path@, other.path@, a, b) && r == (spec_mod_identity(
                    self.path@,
                    self.name@,
                    a,
                ) == spec_mod_identity(other.path@, other.name@, b)),
            self.path@ == other.path@ && self.name@ == other.name@ ==> r,
    {
        same_identity(self.path.as_str(), self.name.as_str(), other.path.as_str(), other.name.as_str())
    }

    /// Whether this entry and `other` stand for the same mod, given whether the folder of
    /// each exists: the names by which they are matched agree.
    pub fn same_mod_as_given(&self, other: &ModPackMod, self_exists: bool, other_exists: bool) -> (r: bool)
        ensures
            r == (spec_mod_identity(self.path@, self.name@, self_exists) == spec_mod_identity(
                other.path@,
                other.name@,
                other_exists,
            )),
    {
        let left = mod_identity_given(self.path.as_str(), self.name.as_str(), self_exists);
        let right = mod_identity_given(other.path.as_str(), other.name.as_str(), other_exists);
        left == right
    }

    /// Whether this entry stands for the installed mod `other`.
    pub fn same_mod_as_installed(&self, other: &DivaMod) -> (r: bool)
        ensures
            exists|a: bool, b: bool| r == (spec_mod_identity(self.path@, self.name@, a)
                == spec_mod_identity(other.path@, other.config.name@, b)),
            exists|a: bool, b: bool|
                #![trigger spec_mod_identity(self.path@, self.name@, a), spec_mod_identity(other.path@, other.config.name@, b)]
                spec_pair_answers(self.path@, other.path@, a, b) && r == (spec_mod_identity(
                    self.path@,
                    self.name@,
                    a,
                ) == spec_mod_identity(other.path@, other.config.name@, b)),
            self.path@ == other.path@ && self.name@ == other.config.name@ ==> r,
    {
        same_identity(
            self.path.as_str(),
            self.name.as_str(),
            other.path.as_str(),
            other.config.name.as_str(),
        )
    }
}

/// The name by which the entry `m` is matched while the folders `disk` exist.
pub open spec fn spec_entry_identity(m: ModPackModView, disk: Set<Seq<char>>) -> Seq<char> {
    spec_mod_identity(m.path, m.name, disk.contains(spec_parent_path(m.path)))
}

/// While the folders on disk stay the same, "stands for the same mod" is an equivalence on
/// entries that does not look at whether an entry is switched on, and entries whose folders
/// exist and have the same name stand for the same mod, whatever their names and the
/// folders above.
pub proof fn lemma_same_mod_equivalence(
    a: ModPackModView,
    b: ModPackModView,
    c: ModPackModView,
    disk: Set<Seq<char>>,
)
    ensures
        spec_entry_identity(a, disk) == spec_entry_identity(a, disk),
        spec_entry_identity(a, disk) == spec_entry_identity(b, disk) ==> spec_entry_identity(b, disk)
            == spec_entry_identity(a, disk),
        spec_entry_identity(a, disk) == spec_entry_identity(b, disk) && spec_entry_identity(b, disk)
            == spec_entry_identity(c, disk) ==> spec_entry_identity(a, disk) == spec_entry_identity(
            c,
            disk,
        ),
        spec_entry_identity(ModPackModView { enabled: !a.enabled, ..a }, disk) == spec_entry_identity(
            a,
            disk,
        ),
        disk.contains(spec_parent_path(a.path)) && disk.contains(spec_parent_path(b.path))
            && spec_parent_dir_name(a.path) is Some && spec_parent_dir_name(a.path)
            == spec_parent_dir_name(b.path) ==> spec_entry_identity(a, disk) == spec_entry_identity(
            b,
            disk,
        ),
{
}

// ---------------------------------------------------------------------------------------
// The load order handed to the mod loader
// ---------------------------------------------------------------------------------------

/// The contents of each entry of `s`.
pub open spec fn spec_packmods_view(s: Seq<ModPackMod>) -> Seq<ModPackModView> {
    s.map_values(|m: ModPackMod| m@)
}

/// The names by which the entries `mods` are matched, given for each whether its folder
/// exists.
pub open spec fn spec_pack_load_order(mods: Seq<ModPackModView>, exists: Seq<bool>) -> Seq<
    Seq<char>,
> {
    Seq::new(mods.len(), |i: int| spec_mod_identity(mods[i].path, mods[i].name, exists[i]))
}

/// The folder names of the entries `mods` whose folder exists (`exists` says which).
pub open spec fn spec_existing_dir_names(mods: Seq<ModPackModView>, exists: Seq<bool>) -> Seq<
    Seq<char>,
>
    decreases mods.len(),
{
    if mods.len() == 0 {
        Seq::empty()
    } else {
        let rest = spec_existing_dir_names(mods.drop_last(), exists.drop_last());
        let last = mods.last();
        if exists.last() && spec_parent_dir_name(last.path) is Some {
            rest.push(spec_parent_dir_name(last.path)->0)
        } else {
            rest
        }
    }
}

/// Each name that the global load order gives the mod loader is the name of the folder of
/// one of its entries, and that folder exists.
pub proof fn lemma_existing_dir_names_are_folders(mods: Seq<ModPackModView>, exists: Seq<bool>, k: int)
    requires
        exists.len() == mods.len(),
        0 <= k < spec_existing_dir_names(mods, exists).len(),
    ensures
        exists|j: int|
            0 <= j < mods.len() && exists[j] && spec_parent_dir_name(#[trigger] mods[j].path) == Some(
                spec_existing_dir_names(mods, exists)[k],
            ),
    decreases mods.len(),
{
    let rest = spec_existing_dir_names(mods.drop_last(), exists.drop_last());
    let last = mods.last();
    if k < rest.len() {
        lemma_existing_dir_names_are_folders(mods.drop_last(), exists.drop_last(), k);
        let j = choose|j: int|
            0 <= j < mods.drop_last().len() && exists.drop_last()[j] && spec_parent_dir_name(
                #[trigger] mods.drop_last()[j].path,
            ) == Some(rest[k]);
        assert(mods[j] == mods.drop_last()[j]);
        assert(exists[j] == exists.drop_last()[j]);
    } else {
        let j = mods.len() - 1;
        assert(mods[j] == last);
    }
}

/// The folder names given for the first `n` entries come first among those given for all.
proof fn lemma_existing_dir_names_prefix(mods: Seq<ModPackModView>, exists: Seq<bool>, n: int)
    requires
        exists.len() == mods.len(),
        0 <= n <= mods.len(),
    ensures
        ({
            let p = spec_existing_dir_names(mods.take(n), exists.take(n));
            let full = spec_existing_dir_names(mods, exists);
            p.len() <= full.len() && full.take(p.len() as int) == p
        }),
    decreases mods.len(),
{
    let p = spec_existing_dir_names(mods.take(n), exists.take(n));
    let full = spec_existing_dir_names(mods, exists);
    if n == mods.len() {
        assert(mods.take(n) =~= mods);
        assert(exists.take(n) =~= exists);
        assert(full.take(full.len() as int) =~= full);
    } else {
        lemma_existing_dir_names_prefix(mods.drop_last(), exists.drop_last(), n);
        assert(mods.drop_last().take(n) =~= mods.take(n));
        assert(exists.drop_last().take(n) =~= exists.take(n));
        let rest = spec_existing_dir_names(mods.drop_last(), exists.drop_last());
        assert(full.take(p.len() as int) =~= rest.take(p.len() as int));
    }
}

/// The folder name of an entry whose folder exists is given for the mod loader, right after
/// those of the earlier entries whose folders exist.
pub proof fn lemma_existing_folder_listed(mods: Seq<ModPackModView>, exists: Seq<bool>, i: int)
    requires
        exists.len() == mods.len(),
        0 <= i < mods.len(),
        exists[i],
        spec_parent_dir_name(mods[i].path) is Some,
    ensures
        ({
            let k = spec_existing_dir_names(mods.take(i), exists.take(i)).len();
            let full = spec_existing_dir_names(mods, exists);
            &&& k < full.len()
            &&& full[k as int] == spec_parent_dir_name(mods[i].path)->0
            &&& spec_existing_dir_names(mods.take(i + 1), exists.take(i + 1)).len() == k + 1
        }),
{
    lemma_existing_dir_names_prefix(mods, exists, i + 1);
    assert(mods.take(i + 1).drop_last() =~= mods.take(i));
    assert(exists.take(i + 1).drop_last() =~= exists.take(i));
    assert(mods.take(i + 1).last() == mods[i]);
    assert(exists.take(i + 1).last() == exists[i]);
    let before = spec_existing_dir_names(mods.take(i), exists.take(i));
    let upto = spec_existing_dir_names(mods.take(i + 1), exists.take(i + 1));
    let full = spec_existing_dir_names(mods, exists);
    assert(upto == before.push(spec_parent_dir_name(mods[i].path)->0));
    assert(full.take(upto.len() as int)[before.len() as int] == upto[before.len() as int]);
}

/// Of two entries whose folders exist, the earlier one's folder name is given for the mod
/// loader first.
pub proof fn lemma_existing_folders_in_order(mods: Seq<ModPackModView>, exists: Seq<bool>, i: int, j: int)
    requires
        exists.len() == mods.len(),
        0 <= i < j < mods.len(),
        exists[i],
        exists[j],
        spec_parent_dir_name(mods[i].path) is Some,
        spec_parent_dir_name(mods[j].path) is Some,
    ensures
        exists|ki: int, kj: int|
            0 <= ki < kj < spec_existing_dir_names(mods, exists).len()
                && #[trigger] spec_existing_dir_names(mods, exists)[ki] == spec_parent_dir_name(
                mods[i].path,
            )->0 && #[trigger] spec_existing_dir_names(mods, exists)[kj] == spec_parent_dir_name(
                mods[j].path,
            )->0,
{
    lemma_existing_folder_listed(mods, exists, i);
    lemma_existing_folder_listed(mods, exists, j);
    lemma_existing_dir_names_prefix(mods.take(j), exists.take(j), i + 1);
    assert(mods.take(j).take(i + 1) =~= mods.take(i + 1));
    assert(exists.take(j).take(i + 1) =~= exists.take(i + 1));
    let ki = spec_existing_dir_names(mods.take(i), exists.take(i)).len() as int;
    let kj = spec_existing_dir_names(mods.take(j), exists.take(j)).len() as int;
    assert(spec_existing_dir_names(mods, exists)[ki] == spec_parent_dir_name(mods[i].path)->0);
    assert(spec_existing_dir_names(mods, exists)[kj] == spec_parent_dir_name(mods[j].path)->0);
}

/// The load order written for the mod loader: with a pack applied, the names of that pack's
/// entries (none when there is no such pack); with none applied, the folder names of the
/// global load order whose folders exist. `exists` tells, for the list used, which folders
/// exist.
pub open spec fn spec_dml_load_order(
    applied_pack: Seq<char>,
    packs: Map<Seq<char>, ModPackView>,
    priority: Seq<ModPackModView>,
    exists: Seq<bool>,
) -> Seq<Seq<char>> {
    if applied_pack.len() != 0 {
        if packs.contains_key(applied_pack) {
            spec_pack_load_order(packs[applied_pack].mods, exists)
        } else {
            Seq::empty()
        }
    } else {
        spec_existing_dir_names(priority, exists)
    }
}

/// Whether `exists` holds, for each entry of `mods`, the disk's answer on whether the
/// entry's folder exists.
pub open spec fn spec_folder_answers(mods: Seq<ModPackModView>, exists: Seq<bool>) -> bool {
    &&& exists.len() == mods.len()
    &&& forall|i: int|
        0 <= i < mods.len() ==> #[trigger] spec_disk_exists(spec_parent_path(mods[i].path), exists[i])
}

/// For each entry of `mods`, whether its folder exists on disk.
fn folder_flags(mods: &Vec<ModPackMod>) -> (r: Vec<bool>)
    ensures
        r@.len() == mods@.len(),
        spec_folder_answers(spec_packmods_view(mods@), r@),
{
    let ghost views = spec_packmods_view(mods@);
    let mut r: Vec<bool> = Vec::new();
    let mut i: usize = 0;
    while i < mods.len()
        invariant
            i <= mods.len(),
            r@.len() == i,
            views == spec_packmods_view(mods@),
            forall|j: int|
                0 <= j < i ==> #[trigger] spec_disk_exists(spec_parent_path(views[j].path), r@[j]),
        decreases mods.len() - i,
    {
        let parent = parent_path(mods[i].path.as_str());
        let e = exists_on_disk(parent.as_str());
        proof {
            assert(views[i as int] == mods@[i as int]@);
        }
        r.push(e);
        i = i + 1;
    }
    r
}

/// The names by which the entries `mods` are matched, given which folders exist.
pub fn pack_load_order_given(mods: &Vec<ModPackMod>, exists: &Vec<bool>) -> (r: Vec<String>)
    requires
        exists@.len() == mods@.len(),
    ensures
        r.deep_view() == spec_pack_load_order(spec_packmods_view(mods@), exists@),
{
    let ghost views = spec_packmods_view(mods@);
    let mut r: Vec<String> = Vec::new();
    let mut i: usize = 0;
    while i < mods.len()
        invariant
            i <= mods.len(),
            exists@.len() == mods@.len(),
            views == spec_packmods_view(mods@),
            r.deep_view() == spec_pack_load_order(views, exists@).subrange(0, i as int),
        decreases mods.len() - i,
    {
        let m = &mods[i];
        let n = mod_identity_given(m.path.as_str(), m.name.as_str(), exists[i]);
        let ghost before = r.deep_view();
        r.push(n);
        proof {
            assert(views[i as int] == m@);
            assert(r.deep_view() =~= before.push(n@));
            assert(spec_pack_load_order(views, exists@)[i as int] == n@);
            assert(r.deep_view() =~= spec_pack_load_order(views, exists@).subrange(0, i + 1));
        }
        i = i + 1;
    }
    assert(spec_pack_load_order(views, exists@).subrange(0, i as int) =~= spec_pack_load_order(views, exists@));
    r
}

/// The folder names of the entries `mods` whose folder exists, given which do.
pub fn existing_dir_names_given(mods: &Vec<ModPackMod>, exists: &Vec<bool>) -> (r: Vec<String>)
    requires
        exists@.len() == mods@.len(),
    ensures
        r.deep_view() == spec_existing_dir_names(spec_packmods_view(mods@), exists@),
{
    let ghost views = spec_packmods_view(mods@);
    let mut r: Vec<String> = Vec::new();
    let mut i: usize = 0;
    while i < mods.len()
        invariant
            i <= mods.len(),
            exists@.len() == mods@.len(),
            views == spec_packmods_view(mods@),
            r.deep_view() == spec_existing_dir_names(views.subrange(0, i as int), exists@.subrange(0, i as int)),
        decreases mods.len() - i,
    {
        let m = &mods[i];
        proof {
            assert(views.subrange(0, i + 1).drop_last() =~= views.subrange(0, i as int));
            assert(exists@.subrange(0, i + 1).drop_last() =~= exists@.subrange(0, i as int));
            assert(views[i as int] == m@);
        }
        match dir_name_given(m.path.as_str(), exists[i]) {
            Some(n) => {
                let ghost before = r.deep_view();
                r.push(n);
                proof {
                    assert(r.deep_view() =~= before.push(n@));
                }
            },
            None => {},
        }
        i = i + 1;
    }
    assert(views.subrange(0, i as int) =~= views);
    assert(exists@.subrange(0, i as int) =~= exists@);
    r
}

/// The load order for the mod loader, given which folders of the list used exist.
pub fn dml_load_order_given(
    applied_pack: &str,
    packs: &StrMap<ModPack>,
    priority: &Vec<ModPackMod>,
    exists: &Vec<bool>,
) -> (r: Option<Vec<String>>)
    ensures
        match r {
            Some(v) => v.deep_view() == spec_dml_load_order(
                applied_pack@,
                packs@,
                spec_packmods_view(priority@),
                exists@,
            ),
            None => spec_dml_list_len(applied_pack@, packs@, spec_packmods_view(priority@))
                != exists@.len(),
        },
{
    if !applied_pack.is_empty() {
        match packs.get(applied_pack) {
            Some(pack) => {
                if exists.len() != pack.mods.len() {
                    return None;
                }
                let r = pack_load_order_given(&pack.mods, exists);
                Some(r)
            },
            None => {
                let r: Vec<String> = Vec::new();
                assert(r.deep_view() =~= Seq::<Seq<char>>::empty());
                Some(r)
            },
        }
    } else {
        if exists.len() != priority.len() {
            return None;
        }
        Some(existing_dir_names_given(priority, exists))
    }
}

/// With no pack applied, the mod loader is given the folder name of every entry of the
/// global load order whose folder exists.
pub proof fn lemma_dml_lists_existing_folder(
    packs: Map<Seq<char>, ModPackView>,
    priority: Seq<ModPackModView>,
    exists: Seq<bool>,
    i: int,
)
    requires
        exists.len() == priority.len(),
        0 <= i < priority.len(),
        exists[i],
        spec_parent_dir_name(priority[i].path) is Some,
    ensures
        spec_dml_load_order(Seq::empty(), packs, priority, exists).contains(
            spec_parent_dir_name(priority[i].path)->0,
        ),
{
    lemma_existing_folder_listed(priority, exists, i);
    let k = spec_existing_dir_names(priority.take(i), exists.take(i)).len() as int;
    assert(spec_dml_load_order(Seq::empty(), packs, priority, exists)[k] == spec_parent_dir_name(
        priority[i].path,
    )->0);
}

/// With no pack applied, the mod loader is given the folder names of the entries of the
/// global load order whose folders exist in the global load order's order, and nothing
/// but such names.
pub proof fn lemma_dml_keeps_global_order(
    packs: Map<Seq<char>, ModPackView>,
    priority: Seq<ModPackModView>,
    exists: Seq<bool>,
    i: int,
    j: int,
)
    requires
        exists.len() == priority.len(),
        0 <= i < j < priority.len(),
        exists[i],
        exists[j],
        spec_parent_dir_name(priority[i].path) is Some,
        spec_parent_dir_name(priority[j].path) is Some,
    ensures
        exists|ki: int, kj: int|
            0 <= ki < kj < spec_dml_load_order(Seq::empty(), packs, priority, exists).len()
                && #[trigger] spec_dml_load_order(Seq::empty(), packs, priority, exists)[ki]
                == spec_parent_dir_name(priority[i].path)->0 && #[trigger] spec_dml_load_order(
                Seq::empty(),
                packs,
                priority,
                exists,
            )[kj] == spec_parent_dir_name(priority[j].path)->0,
        forall|k: int|
            #![trigger spec_dml_load_order(Seq::empty(), packs, priority, exists)[k]]
            0 <= k < spec_dml_load_order(Seq::empty(), packs, priority, exists).len() ==> exists|m: int|
                0 <= m < priority.len() && exists[m] && spec_parent_dir_name(#[trigger] priority[m].path)
                    == Some(spec_dml_load_order(Seq::empty(), packs, priority, exists)[k]),
{
    lemma_existing_folders_in_order(priority, exists, i, j);
    assert forall|k: int|
        #![trigger spec_dml_load_order(Seq::empty(), packs, priority, exists)[k]]
        0 <= k < spec_dml_load_order(Seq::empty(), packs, priority, exists).len() implies exists|m: int|
        0 <= m < priority.len() && exists[m] && spec_parent_dir_name(#[trigger] priority[m].path)
            == Some(spec_dml_load_order(Seq::empty(), packs, priority, exists)[k]) by {
        lemma_existing_dir_names_are_folders(priority, exists, k);
    }
}

/// How many entries the list used for the mod loader's load order has.
pub open spec fn spec_dml_list_len(
    applied_pack: Seq<char>,
    packs: Map<Seq<char>, ModPackView>,
    priority: Seq<ModPackModView>,
) -> nat {
    if applied_pack.len() != 0 {
        if packs.contains_key(applied_pack) {
            packs[applied_pack].mods.len()
        } else {
            0
        }
    } else {
        priority.len()
    }
}

/// The list whose entries give the mod loader's load order: the applied pack's entries (none
/// when there is no such pack), or the global load order when no pack is applied.
pub open spec fn spec_dml_list(
    applied_pack: Seq<char>,
    packs: Map<Seq<char>, ModPackView>,
    priority: Seq<ModPackModView>,
) -> Seq<ModPackModView> {
    if applied_pack.len() != 0 {
        if packs.contains_key(applied_pack) {
            packs[applied_pack].mods
        } else {
            Seq::empty()
        }
    } else {
        priority
    }
}

/// The load order to write into the mod loader's configuration: that of the applied pack, or
/// the global one when no pack is applied; folders are looked for on disk, and whether each
/// exists is the disk's answer for that entry's folder.
pub fn dml_load_order(applied_pack: &str, packs: &StrMap<ModPack>, priority: &Vec<ModPackMod>) -> (r: Vec<String>)
    ensures
        exists|flags: Seq<bool>| r.deep_view() == spec_dml_load_order(
            applied_pack@,
            packs@,
            spec_packmods_view(priority@),
            flags,
        ),
        exists|flags: Seq<bool>|
            #![trigger spec_dml_load_order(applied_pack@, packs@, spec_packmods_view(priority@), flags)]
            spec_folder_answers(spec_dml_list(applied_pack@, packs@, spec_packmods_view(priority@)), flags)
                && r.deep_view() == spec_dml_load_order(
                applied_pack@,
                packs@,
                spec_packmods_view(priority@),
                flags,
            ),
{
    let flags = if !applied_pack.is_empty() {
        match packs.get(applied_pack) {
            Some(pack) => {
                assert(pack@.mods == spec_packmods_view(pack.mods@));
                folder_flags(&pack.mods)
            },
            None => {
                let v: Vec<bool> = Vec::new();
                assert(spec_folder_answers(Seq::empty(), v@));
                v
            },
        }
    } else {
        folder_flags(priority)
    };
    assert(spec_folder_answers(spec_dml_list(applied_pack@, packs@, spec_packmods_view(priority@)), flags@));
    match dml_load_order_given(applied_pack, packs, priority, &flags) {
        Some(v) => v,
        None => {
            proof {
                assert(false);
            }
            Vec::new()
        },
    }
}

// ---------------------------------------------------------------------------------------
// Switching to a mod pack
// ---------------------------------------------------------------------------------------

/// The pack entry for an installed mod: its configured name, enabled, its path.
pub open spec fn spec_packmod_of(m: DivaModView) -> ModPackModView {
    ModPackModView { name: m.config.name, enabled: true, path: m.path }
}

/// The first entry of `ms` for the mod at `path`.
pub open spec fn spec_find_by_path(ms: Seq<ModPackModView>, path: Seq<char>) -> Option<
    ModPackModView,
>
    decreases ms.len(),
{
    if ms.len() == 0 {
        None
    } else if ms[0].path == path {
        Some(ms[0])
    } else {
        spec_find_by_path(ms.drop_first(), path)
    }
}

/// Whether switching to pack `name` rebuilds that pack from the installed mods: it exists
/// and lists a different number of mods than are installed.
pub open spec fn spec_pack_rebuilt(
    name: Seq<char>,
    packs: Map<Seq<char>, ModPackView>,
    mods: Seq<DivaModView>,
) -> bool {
    packs.contains_key(name) && packs[name].mods.len() != mods.len()
}

/// The pack that switching to `name` uses: the stored pack (rebuilt from the installed
/// mods, all enabled, when its size differs), or, when there is no such pack, one called
/// `All Mods` holding the global load order.
pub open spec fn spec_chosen_pack(
    name: Seq<char>,
    packs: Map<Seq<char>, ModPackView>,
    global: Seq<ModPackModView>,
    mods: Seq<DivaModView>,
) -> ModPackView {
    if packs.contains_key(name) {
        if spec_pack_rebuilt(name, packs, mods) {
            ModPackView {
                name: packs[name].name,
                mods: mods.map_values(|m: DivaModView| spec_packmod_of(m)),
            }
        } else {
            packs[name]
        }
    } else {
        ModPackView { name: "All Mods"@, mods: global }
    }
}

/// Mod `m` after pack entries `pack` were applied: switched as the first entry for its
/// path says, or left alone when the pack has none.
pub open spec fn spec_apply_entry(m: DivaModView, pack: Seq<ModPackModView>) -> DivaModView {
    match spec_find_by_path(pack, m.path) {
        Some(pm) => DivaModView { config: DivaModConfigView { enabled: pm.enabled, ..m.config }, ..m },
        None => m,
    }
}

/// The mods `mods` after pack entries `pack` were applied to each.
pub open spec fn spec_apply_pack(mods: Seq<DivaModView>, pack: Seq<ModPackModView>) -> Seq<
    DivaModView,
> {
    mods.map_values(|m: DivaModView| spec_apply_entry(m, pack))
}

/// Whether applying `pack` switches mod `m` on or off.
pub open spec fn spec_toggles(m: DivaModView, pack: Seq<ModPackModView>) -> bool {
    spec_find_by_path(pack, m.path) matches Some(pm) && pm.enabled != m.config.enabled
}

/// The positions of the mods of `mods` that applying `pack` switches, in increasing order.
pub open spec fn spec_toggled(mods: Seq<DivaModView>, pack: Seq<ModPackModView>) -> Seq<int>
    decreases mods.len(),
{
    if mods.len() == 0 {
        Seq::empty()
    } else {
        let rest = spec_toggled(mods.drop_last(), pack);
        if spec_toggles(mods.last(), pack) {
            rest.push(mods.len() - 1)
        } else {
            rest
        }
    }
}

/// What switching to a mod pack did.
pub struct ModpackChange {
    /// The pack now applied.
    pub pack: ModPack,
    /// Whether the stored pack was rebuilt (and so has to be saved again).
    pub pack_rebuilt: bool,
    /// The positions of the installed mods that were switched on or off (and whose
    /// `config.toml` has to be saved again), in increasing order.
    pub toggled: Vec<usize>,
}

fn find_by_path(ms: &Vec<ModPackMod>, path: &String) -> (r: Option<usize>)
    ensures
        match r {
            Some(i) => i < ms@.len() && spec_find_by_path(spec_packmods_view(ms@), path@) == Some(
                ms@[i as int]@,
            ),
            None => spec_find_by_path(spec_packmods_view(ms@), path@) is None,
        },
{
    let ghost v = spec_packmods_view(ms@);
    assert(v.subrange(0, v.len() as int) =~= v);
    let mut i: usize = 0;
    while i < ms.len()
        invariant
            i <= ms.len(),
            v == spec_packmods_view(ms@),
            spec_find_by_path(v, path@) == spec_find_by_path(v.subrange(i as int, v.len() as int), path@),
        decreases ms.len() - i,
    {
        let ghost rest = v.subrange(i as int, v.len() as int);
        assert(rest[0] == ms@[i as int]@);
        if ms[i].path == *path {
            return Some(i);
        }
        assert(rest.drop_first() =~= v.subrange(i + 1, v.len() as int));
        i = i + 1;
    }
    assert(v.subrange(i as int, v.len() as int) =~= Seq::<ModPackModView>::empty());
    None
}

fn copy_packmods(ms: &Vec<ModPackMod>) -> (r: Vec<ModPackMod>)
    ensures
        spec_packmods_view(r@) == spec_packmods_view(ms@),
{
    let mut r: Vec<ModPackMod> = Vec::new();
    let mut i: usize = 0;
    while i < ms.len()
        invariant
            i <= ms.len(),
            spec_packmods_view(r@) == spec_packmods_view(ms@).subrange(0, i as int),
        decreases ms.len() - i,
    {
        let ghost before = spec_packmods_view(r@);
        r.push(ms[i].duplicate());
        assert(spec_packmods_view(r@) =~= before.push(ms@[i as int]@));
        assert(spec_packmods_view(r@) =~= spec_packmods_view(ms@).subrange(0, i + 1));
        i = i + 1;
    }
    assert(spec_packmods_view(ms@).subrange(0, i as int) =~= spec_packmods_view(ms@));
    r
}

impl ModPack {
    /// A copy with the same contents.
    pub fn duplicate(&self) -> (r: Self)
        ensures
            r@ == self@,
    {
        let mods = copy_packmods(&self.mods);
        ModPack { name: self.name.clone(), mods }
    }
}

/// Switches to the mod pack called `pack_name`: picks the pack (see `spec_chosen_pack`),
/// stores it again when it was rebuilt, and switches each installed mod of `mods` on or off
/// as the pack's first entry for its path says.
pub fn change_modpack(
    pack_name: &str,
    packs: &mut StrMap<ModPack>,
    global_priority: &Vec<ModPackMod>,
    mods: &mut Vec<DivaMod>,
) -> (r: ModpackChange)
    ensures
        r.pack@ == spec_chosen_pack(
            pack_name@,
            old(packs)@,
            spec_packmods_view(global_priority@),
            spec_mods_view(old(mods)@),
        ),
        r.pack_rebuilt == spec_pack_rebuilt(pack_name@, old(packs)@, spec_mods_view(old(mods)@)),
        final(packs)@ == if r.pack_rebuilt {
            old(packs)@.insert(pack_name@, r.pack@)
        } else {
            old(packs)@
        },
        spec_mods_view(final(mods)@) == spec_apply_pack(spec_mods_view(old(mods)@), r.pack@.mods),
        r.toggled@.map_values(|i: usize| i as int) == spec_toggled(
            spec_mods_view(old(mods)@),
            r.pack@.mods,
        ),
        spec_packs_keyed_by_name(old(packs)@) ==> spec_packs_keyed_by_name(final(packs)@),
{
    let ghost mv = spec_mods_view(mods@);
    let mut rebuilt = false;
    let pack: ModPack = match packs.get(pack_name) {
        Some(p) => {
            if p.mods.len() != mods.len() {
                let mut entries: Vec<ModPackMod> = Vec::new();
                let mut i: usize = 0;
                while i < mods.len()
                    invariant
                        i <= mods.len(),
                        mv == spec_mods_view(mods@),
                        spec_packmods_view(entries@) == mv.subrange(0, i as int).map_values(
                            |m: DivaModView| spec_packmod_of(m),
                        ),
                    decreases mods.len() - i,
                {
                    let ghost before = spec_packmods_view(entries@);
                    entries.push(mods[i].to_packmod());
                    proof {
                        assert(mv[i as int] == mods@[i as int]@);
                        assert(spec_packmods_view(entries@) =~= before.push(spec_packmod_of(mv[i as int])));
                        assert(spec_packmods_view(entries@) =~= mv.subrange(0, i + 1).map_values(
                            |m: DivaModView| spec_packmod_of(m),
                        ));
                    }
                    i = i + 1;
                }
                assert(mv.subrange(0, i as int) =~= mv);
                rebuilt = true;
                let np = ModPack { name: p.name.clone(), mods: entries };
                assert(np@.mods =~= mv.map_values(|m: DivaModView| spec_packmod_of(m)));
                np
            } else {
                p.duplicate()
            }
        },
        None => {
            let np = ModPack { name: owned("All Mods"), mods: copy_packmods(global_priority) };
            np
        },
    };
    if rebuilt {
        packs.insert(owned(pack_name), pack.duplicate());
    }
    let ghost pv = pack@.mods;
    let mut toggled: Vec<usize> = Vec::new();
    let mut i: usize = 0;
    while i < mods.len()
        invariant
            i <= mods.len(),
            mods@.len() == mv.len(),
            pv == pack@.mods,
            forall|j: int| 0 <= j < i ==> #[trigger] mods@[j]@ == spec_apply_entry(mv[j], pv),
            forall|j: int| i <= j < mv.len() ==> #[trigger] mods@[j]@ == mv[j],
            toggled@.map_values(|t: usize| t as int) == spec_toggled(mv.subrange(0, i as int), pv),
        decreases mods.len() - i,
    {
        proof {
            assert(mv.subrange(0, i + 1).drop_last() =~= mv.subrange(0, i as int));
            assert(mods@[i as int]@ == mv[i as int]);
        }
        match find_by_path(&pack.mods, &mods[i].path) {
            Some(k) => {
                let want = pack.mods[k].enabled;
                if mods[i].config.enabled != want {
                    let ghost before = toggled@.map_values(|t: usize| t as int);
                    toggled.push(i);
                    proof {
                        assert(toggled@.map_values(|t: usize| t as int) =~= before.push(i as int));
                    }
                    let mut m = mods.remove(i);
                    m.config.enabled = want;
                    mods.insert(i, m);
                }
            },
            None => {},
        }
        i = i + 1;
    }
    proof {
        assert(mv.subrange(0, i as int) =~= mv);
        assert(spec_mods_view(mods@) =~= spec_apply_pack(mv, pv));
    }
    ModpackChange { pack, pack_rebuilt: rebuilt, toggled }
}

/// After switching to a pack, each installed mod that the pack lists is on or off as the
/// pack's (first) entry for it says.
pub proof fn lemma_pack_entry_wins(m: DivaModView, pack: Seq<ModPackModView>, pm: ModPackModView)
    requires
        spec_find_by_path(pack, m.path) == Some(pm),
    ensures
        spec_apply_entry(m, pack).config.enabled == pm.enabled,
        spec_apply_entry(m, pack).path == m.path,
        spec_apply_entry(m, pack).config.name == m.config.name,
{
}

/// Switching to a pack leaves alone the mods that the pack does not list.
pub proof fn lemma_unlisted_mod_unchanged(m: DivaModView, pack: Seq<ModPackModView>)
    requires
        spec_find_by_path(pack, m.path) is None,
    ensures
        spec_apply_entry(m, pack) == m,
{
}

/// Switching to the same pack a second time changes nothing more.
pub proof fn lemma_apply_pack_twice(m: DivaModView, pack: Seq<ModPackModView>)
    ensures
        spec_apply_entry(spec_apply_entry(m, pack), pack) == spec_apply_entry(m, pack),
        !spec_toggles(spec_apply_entry(m, pack), pack),
{
}

/// Whatever pack is applied, the same mods stay installed at the same paths.
pub proof fn lemma_apply_pack_keeps_mods(mods: Seq<DivaModView>, pack: Seq<ModPackModView>)
    ensures
        spec_apply_pack(mods, pack).len() == mods.len(),
        forall|i: int| 0 <= i < mods.len() ==> #[trigger] spec_apply_pack(mods, pack)[i].path
            == mods[i].path,
{
}

// ---------------------------------------------------------------------------------------
// Applying the rows of the pack editor
// ---------------------------------------------------------------------------------------

/// What applying the pack editor's rows gives: the load order for the mod loader and the
/// name of the pack now applied. The folder names of the rows whose folders exist are the
/// load order, under the active pack; when there are none, the global load order's existing
/// folders are, and no pack is applied (empty name).
pub open spec fn spec_apply_rows(
    rows: Seq<ModPackModView>,
    row_exists: Seq<bool>,
    active_pack: Seq<char>,
    priority: Seq<ModPackModView>,
    prio_exists: Seq<bool>,
) -> (Seq<Seq<char>>, Seq<char>) {
    let from_rows = spec_existing_dir_names(rows, row_exists);
    if from_rows.len() == 0 {
        (spec_existing_dir_names(priority, prio_exists), Seq::empty())
    } else {
        (from_rows, active_pack)
    }
}

/// Applying the pack editor's rows keeps the active pack applied and gives the mod loader
/// the folder names of the rows whose folders exist, when the folder of some row exists;
/// when none does, it gives the global load order's existing folders and leaves no pack
/// applied.
pub proof fn lemma_apply_rows_outcome(
    rows: Seq<ModPackModView>,
    row_exists: Seq<bool>,
    active_pack: Seq<char>,
    priority: Seq<ModPackModView>,
    prio_exists: Seq<bool>,
)
    requires
        row_exists.len() == rows.len(),
    ensures
        (exists|i: int|
            0 <= i < rows.len() && row_exists[i] && spec_parent_dir_name(#[trigger] rows[i].path) is Some)
            ==> spec_apply_rows(rows, row_exists, active_pack, priority, prio_exists) == (
            spec_existing_dir_names(rows, row_exists),
            active_pack,
        ),
        !(exists|i: int|
            0 <= i < rows.len() && row_exists[i] && spec_parent_dir_name(#[trigger] rows[i].path) is Some)
            ==> spec_apply_rows(rows, row_exists, active_pack, priority, prio_exists) == (
            spec_existing_dir_names(priority, prio_exists),
            Seq::<char>::empty(),
        ),
        forall|i: int|
            0 <= i < rows.len() && row_exists[i] && spec_parent_dir_name(#[trigger] rows[i].path) is Some
                ==> spec_apply_rows(rows, row_exists, active_pack, priority, prio_exists).0.contains(
                spec_parent_dir_name(rows[i].path)->0,
            ),
{
    let from_rows = spec_existing_dir_names(rows, row_exists);
    assert forall|i: int|
        0 <= i < rows.len() && row_exists[i] && spec_parent_dir_name(
            #[trigger] rows[i].path,
        ) is Some implies from_rows.len() > 0 && spec_apply_rows(
        rows,
        row_exists,
        active_pack,
        priority,
        prio_exists,
    ).0.contains(spec_parent_dir_name(rows[i].path)->0) by {
        lemma_existing_folder_listed(rows, row_exists, i);
        let k = spec_existing_dir_names(rows.take(i), row_exists.take(i)).len() as int;
        assert(from_rows[k] == spec_parent_dir_name(rows[i].path)->0);
    }
    if from_rows.len() > 0 {
        lemma_existing_dir_names_are_folders(rows, row_exists, 0);
    }
}

/// The entries that the rows `rows` of the pack editor stand for.
pub open spec fn spec_rows_view(rows: Seq<DivaModElement>) -> Seq<ModPackModView> {
    rows.map_values(
        |e: DivaModElement| ModPackModView { name: e.name@, enabled: e.enabled, path: e.path@ },
    )
}

/// The entries for the rows of the pack editor.
pub fn rows_to_packmods(rows: &Vec<DivaModElement>) -> (r: Vec<ModPackMod>)
    ensures
        spec_packmods_view(r@) == spec_rows_view(rows@),
{
    let ghost target = rows@.map_values(
        |e: DivaModElement| ModPackModView { name: e.name@, enabled: e.enabled, path: e.path@ },
    );
    let mut r: Vec<ModPackMod> = Vec::new();
    let mut i: usize = 0;
    while i < rows.len()
        invariant
            i <= rows.len(),
            target == spec_rows_view(rows@),
            spec_packmods_view(r@) == target.subrange(0, i as int),
        decreases rows.len() - i,
    {
        let ghost before = spec_packmods_view(r@);
        r.push(rows[i].to_packmod());
        assert(spec_packmods_view(r@) =~= before.push(target[i as int]));
        assert(spec_packmods_view(r@) =~= target.subrange(0, i + 1));
        i = i + 1;
    }
    assert(target.subrange(0, i as int) =~= target);
    r
}

/// Applies the rows of the pack editor, given which of their folders and which folders of
/// the global load order exist: returns the load order for the mod loader and the name of
/// the pack now applied (see `spec_apply_rows`).
pub fn apply_modpack_rows_given(
    rows: &Vec<ModPackMod>,
    row_exists: &Vec<bool>,
    active_pack: &str,
    priority: &Vec<ModPackMod>,
    prio_exists: &Vec<bool>,
) -> (r: (Vec<String>, String))
    requires
        row_exists@.len() == rows@.len(),
        prio_exists@.len() == priority@.len(),
    ensures
        (r.0.deep_view(), r.1@) == spec_apply_rows(
            spec_packmods_view(rows@),
            row_exists@,
            active_pack@,
            spec_packmods_view(priority@),
            prio_exists@,
        ),
{
    let from_rows = existing_dir_names_given(rows, row_exists);
    if from_rows.len() == 0 {
        (existing_dir_names_given(priority, prio_exists), String::new())
    } else {
        (from_rows, owned(active_pack))
    }
}

/// Applies the rows of the pack editor, looking on disk for the folders: returns the load
/// order for the mod loader and the name of the pack now applied.
pub fn apply_modpack_rows(rows: &Vec<DivaModElement>, active_pack: &str, priority: &Vec<ModPackMod>) -> (r: (Vec<String>, String))
    ensures
        exists|a: Seq<bool>, b: Seq<bool>|
            #![trigger spec_apply_rows(spec_rows_view(rows@), a, active_pack@, spec_packmods_view(priority@), b)]
            a.len() == rows@.len() && b.len() == priority@.len() && (r.0.deep_view(), r.1@)
                == spec_apply_rows(
                spec_rows_view(rows@),
                a,
                active_pack@,
                spec_packmods_view(priority@),
                b,
            ),
        exists|a: Seq<bool>, b: Seq<bool>|
            #![trigger spec_apply_rows(spec_rows_view(rows@), a, active_pack@, spec_packmods_view(priority@), b)]
            spec_folder_answers(spec_rows_view(rows@), a) && spec_folder_answers(
                spec_packmods_view(priority@),
                b,
            ) && (r.0.deep_view(), r.1@) == spec_apply_rows(
                spec_rows_view(rows@),
                a,
                active_pack@,
                spec_packmods_view(priority@),
                b,
            ),
{
    let entries = rows_to_packmods(rows);
    let a = folder_flags(&entries);
    let b = folder_flags(priority);
    apply_modpack_rows_given(&entries, &a, active_pack, priority, &b)
}

// ---------------------------------------------------------------------------------------
// The pack editor
// ---------------------------------------------------------------------------------------

impl DivaModElement {
    /// Whether this row and `other` stand for the same mod: their folder names, or their
    /// names where the folder is not on disk, agree.
    pub fn is_same_as(&self, other: &DivaModElement) -> (r: bool)
        ensures
            exists|a: bool, b: bool| r == (spec_mod_identity(self.path@, self.name@, a)
                == spec_mod_identity(other.path@, other.name@, b)),
            exists|a: bool, b: bool|
                #![trigger spec_mod_identity(self.path@, self.name@, a), spec_mod_identity(other.path@, other.name@, b)]
                spec_pair_answers(self.path@, other.path@, a, b) && r == (spec_mod_identity(
                    self.path@,
                    self.name@,
                    a,
                ) == spec_mod_identity(other.path@, other.name@, b)),
            self.path@ == other.path@ && self.name@ == other.name@ ==> r,
    {
        same_identity(self.path.as_str(), self.name.as_str(), other.path.as_str(), other.name.as_str())
    }
}

/// The names by which the rows `rows` are matched, given for each whether its folder exists.
pub open spec fn spec_row_ids(rows: Seq<DivaModElement>, exists: Seq<bool>) -> Seq<Seq<char>> {
    Seq::new(rows.len(), |i: int| spec_mod_identity(rows[i].path@, rows[i].name@, exists[i]))
}

/// The rows of `rows` whose name (among `ids`) is not `id`, in order.
pub open spec fn spec_rows_without(rows: Seq<DivaModElement>, ids: Seq<Seq<char>>, id: Seq<char>) -> Seq<
    DivaModElement,
>
    decreases rows.len(),
{
    if rows.len() == 0 {
        Seq::empty()
    } else {
        let rest = spec_rows_without(rows.drop_last(), ids.drop_last(), id);
        if ids.last() == id {
            rest
        } else {
            rest.push(rows.last())
        }
    }
}

/// Whether `exists` holds, for each row of `rows`, the disk's answer on whether the folder
/// of its mod exists.
pub open spec fn spec_row_answers(rows: Seq<DivaModElement>, exists: Seq<bool>) -> bool {
    &&& exists.len() == rows.len()
    &&& forall|i: int|
        0 <= i < rows.len() ==> #[trigger] spec_disk_exists(spec_parent_path(rows[i].path@), exists[i])
}

/// Whether every row of `rows` whose mod lies in the folder `folder` is judged on the one
/// answer `answer` on whether that folder exists.
pub open spec fn spec_answers_agree(
    rows: Seq<DivaModElement>,
    exists: Seq<bool>,
    folder: Seq<char>,
    answer: bool,
) -> bool {
    forall|i: int|
        0 <= i < rows.len() && spec_parent_path(#[trigger] rows[i].path@) == folder ==> exists[i]
            == answer
}

/// For each row of `rows`, whether the folder of its mod exists on disk; the folder `known`,
/// already asked about with the answer `known_exists`, is not asked about again.
fn row_folder_flags(rows: &Vec<DivaModElement>, known: &str, known_exists: bool) -> (r: Vec<bool>)
    requires
        spec_disk_exists(known@, known_exists),
    ensures
        r@.len() == rows@.len(),
        spec_row_answers(rows@, r@),
        spec_answers_agree(rows@, r@, known@, known_exists),
{
    let mut r: Vec<bool> = Vec::new();
    let mut i: usize = 0;
    while i < rows.len()
        invariant
            i <= rows.len(),
            r@.len() == i,
            spec_disk_exists(known@, known_exists),
            forall|j: int|
                0 <= j < i ==> #[trigger] spec_disk_exists(spec_parent_path(rows@[j].path@), r@[j]),
            forall|j: int|
                0 <= j < i && spec_parent_path(#[trigger] rows@[j].path@) == known@ ==> r@[j]
                    == known_exists,
        decreases rows.len() - i,
    {
        let parent = parent_path(rows[i].path.as_str());
        let e = if str_eq(parent.as_str(), known) {
            known_exists
        } else {
            exists_on_disk(parent.as_str())
        };
        r.push(e);
        i = i + 1;
    }
    r
}

/// Adds the row `to_add` to the pack editor's rows unless a row for the same mod is there,
/// given which folders of the rows and of the new row exist. Returns whether it was added.
pub fn add_pack_row_given(
    rows: &mut Vec<DivaModElement>,
    row_exists: &Vec<bool>,
    to_add: DivaModElement,
    add_exists: bool,
) -> (added: bool)
    requires
        row_exists@.len() == old(rows)@.len(),
    ensures
        added == !spec_row_ids(old(rows)@, row_exists@).contains(
            spec_mod_identity(to_add.path@, to_add.name@, add_exists),
        ),
        final(rows)@ == if added {
            old(rows)@.push(to_add)
        } else {
            old(rows)@
        },
{
    let ghost ids = spec_row_ids(rows@, row_exists@);
    let id = mod_identity_given(to_add.path.as_str(), to_add.name.as_str(), add_exists);
    let mut i: usize = 0;
    while i < rows.len()
        invariant
            i <= rows@.len(),
            row_exists@.len() == rows@.len(),
            ids == spec_row_ids(rows@, row_exists@),
            id@ == spec_mod_identity(to_add.path@, to_add.name@, add_exists),
            forall|j: int| 0 <= j < i ==> ids[j] != id@,
        decreases rows@.len() - i,
    {
        let rid = mod_identity_given(rows[i].path.as_str(), rows[i].name.as_str(), row_exists[i]);
        if rid == id {
            assert(ids[i as int] == id@);
            return false;
        }
        i = i + 1;
    }
    rows.push(to_add);
    true
}

/// Adds the row `to_add` to the pack editor's rows unless a row for the same mod is there,
/// looking on disk for the folders. Returns whether it was added.
pub fn add_pack_row(rows: &mut Vec<DivaModElement>, to_add: DivaModElement) -> (added: bool)
    ensures
        exists|e: Seq<bool>, f: bool|
            #![trigger spec_row_ids(old(rows)@, e), spec_mod_identity(to_add.path@, to_add.name@, f)]
            e.len() == old(rows)@.len() && added == !spec_row_ids(old(rows)@, e).contains(
                spec_mod_identity(to_add.path@, to_add.name@, f),
            ) && final(rows)@ == if added {
                old(rows)@.push(to_add)
            } else {
                old(rows)@
            },
        exists|e: Seq<bool>, f: bool|
            #![trigger spec_row_ids(old(rows)@, e), spec_mod_identity(to_add.path@, to_add.name@, f)]
            spec_row_answers(old(rows)@, e) && spec_disk_exists(spec_parent_path(to_add.path@), f)
                && spec_answers_agree(old(rows)@, e, spec_parent_path(to_add.path@), f) && added
                == !spec_row_ids(old(rows)@, e).contains(
                spec_mod_identity(to_add.path@, to_add.name@, f),
            ) && final(rows)@ == if added {
                old(rows)@.push(to_add)
            } else {
                old(rows)@
            },
        forall|i: int|
            0 <= i < old(rows)@.len() && old(rows)@[i].path@ == to_add.path@ && old(rows)@[i].name@
                == to_add.name@ ==> !added && final(rows)@ == old(rows)@,
{
    let parent = parent_path(to_add.path.as_str());
    let f = exists_on_disk(parent.as_str());
    let flags = row_folder_flags(rows, parent.as_str(), f);
    proof {
        lemma_same_row_found(old(rows)@, flags@, to_add, f);
    }
    add_pack_row_given(rows, &flags, to_add, f)
}

/// A row for the mod at the same path, under the same name, as a row to add is always
/// found among the rows, when the rows in that folder are judged on the same answer on
/// whether it exists as the row to add.
pub proof fn lemma_same_row_found(
    rows: Seq<DivaModElement>,
    exists: Seq<bool>,
    to_add: DivaModElement,
    answer: bool,
)
    requires
        exists.len() == rows.len(),
        spec_answers_agree(rows, exists, spec_parent_path(to_add.path@), answer),
    ensures
        forall|i: int|
            0 <= i < rows.len() && rows[i].path@ == to_add.path@ && rows[i].name@ == to_add.name@
                ==> spec_row_ids(rows, exists).contains(
                spec_mod_identity(to_add.path@, to_add.name@, answer),
            ),
{
    assert forall|i: int|
        0 <= i < rows.len() && rows[i].path@ == to_add.path@ && rows[i].name@
            == to_add.name@ implies spec_row_ids(rows, exists).contains(
        spec_mod_identity(to_add.path@, to_add.name@, answer),
    ) by {
        assert(exists[i] == answer);
        assert(spec_row_ids(rows, exists)[i] == spec_mod_identity(to_add.path@, to_add.name@, answer));
    }
}

/// The pack editor's rows without those for the same mod as `to_remove`, given which
/// folders of the rows and of `to_remove` exist.
pub fn remove_pack_rows_given(
    rows: Vec<DivaModElement>,
    row_exists: &Vec<bool>,
    to_remove: &DivaModElement,
    remove_exists: bool,
) -> (r: Vec<DivaModElement>)
    requires
        row_exists@.len() == rows@.len(),
    ensures
        r@ == spec_rows_without(
            rows@,
            spec_row_ids(rows@, row_exists@),
            spec_mod_identity(to_remove.path@, to_remove.name@, remove_exists),
        ),
{
    let ghost orig = rows@;
    let ghost ids = spec_row_ids(rows@, row_exists@);
    let id = mod_identity_given(to_remove.path.as_str(), to_remove.name.as_str(), remove_exists);
    let n = rows.len();
    let mut rest = rows;
    let mut out: Vec<DivaModElement> = Vec::new();
    let mut taken: usize = 0;
    while rest.len() > 0
        invariant
            taken + rest@.len() == n,
            n == orig.len(),
            row_exists@.len() == n,
            ids == spec_row_ids(orig, row_exists@),
            id@ == spec_mod_identity(to_remove.path@, to_remove.name@, remove_exists),
            rest@ == orig.subrange(taken as int, n as int),
            out@ == spec_rows_without(orig.subrange(0, taken as int), ids.subrange(0, taken as int), id@),
        decreases rest.len(),
    {
        let row = rest.remove(0);
        proof {
            assert(row == orig[taken as int]);
            assert(orig.subrange(0, taken + 1).drop_last() =~= orig.subrange(0, taken as int));
            assert(ids.subrange(0, taken + 1).drop_last() =~= ids.subrange(0, taken as int));
            assert(orig.subrange(0, taken + 1).last() == orig[taken as int]);
            assert(ids.subrange(0, taken + 1).last() == ids[taken as int]);
        }
        let rid = mod_identity_given(row.path.as_str(), row.name.as_str(), row_exists[taken]);
        assert(rid@ == ids[taken as int]);
        if rid != id {
            out.push(row);
        }
        taken = taken + 1;
        assert(rest@ =~= orig.subrange(taken as int, n as int));
    }
    proof {
        assert(orig.subrange(0, taken as int) =~= orig);
        assert(ids.subrange(0, taken as int) =~= ids);
    }
    out
}

/// The pack editor's rows without those for the same mod as `to_remove`, looking on disk
/// for the folders.
pub fn remove_pack_rows(rows: Vec<DivaModElement>, to_remove: &DivaModElement) -> (r: Vec<DivaModElement>)
    ensures
        exists|e: Seq<bool>, f: bool|
            #![trigger spec_row_ids(rows@, e), spec_mod_identity(to_remove.path@, to_remove.name@, f)]
            e.len() == rows@.len() && r@ == spec_rows_without(
                rows@,
                spec_row_ids(rows@, e),
                spec_mod_identity(to_remove.path@, to_remove.name@, f),
            ),
        exists|e: Seq<bool>, f: bool|
            #![trigger spec_row_ids(rows@, e), spec_mod_identity(to_remove.path@, to_remove.name@, f)]
            spec_row_answers(rows@, e) && spec_disk_exists(spec_parent_path(to_remove.path@), f)
                && spec_answers_agree(rows@, e, spec_parent_path(to_remove.path@), f) && r@
                == spec_rows_without(
                rows@,
                spec_row_ids(rows@, e),
                spec_mod_identity(to_remove.path@, to_remove.name@, f),
            ),
        forall|k: int|
            0 <= k < r@.len() ==> !(r@[k].path@ == to_remove.path@ && r@[k].name@
                == to_remove.name@),
        forall|k: int| 0 <= k < r@.len() ==> rows@.contains(#[trigger] r@[k]),
{
    let ghost orig = rows@;
    let parent = parent_path(to_remove.path.as_str());
    let f = exists_on_disk(parent.as_str());
    let flags = row_folder_flags(&rows, parent.as_str(), f);
    let r = remove_pack_rows_given(rows, &flags, to_remove, f);
    proof {
        lemma_removed_row_gone(orig, flags@, *to_remove, f);
    }
    r
}

/// The rows kept when those for one mod are removed are rows of the original, none of them
/// for that mod.
pub proof fn lemma_rows_without_kept(rows: Seq<DivaModElement>, ids: Seq<Seq<char>>, id: Seq<char>, k: int)
    requires
        ids.len() == rows.len(),
        0 <= k < spec_rows_without(rows, ids, id).len(),
    ensures
        exists|j: int|
            0 <= j < rows.len() && rows[j] == spec_rows_without(rows, ids, id)[k] && #[trigger] ids[j]
                != id,
    decreases rows.len(),
{
    let rest = spec_rows_without(rows.drop_last(), ids.drop_last(), id);
    if k < rest.len() {
        lemma_rows_without_kept(rows.drop_last(), ids.drop_last(), id, k);
        let j = choose|j: int|
            0 <= j < rows.drop_last().len() && rows.drop_last()[j] == rest[k] && #[trigger] ids.drop_last()[j]
                != id;
        assert(rows[j] == rows.drop_last()[j]);
        assert(ids[j] == ids.drop_last()[j]);
    } else {
        let j = rows.len() - 1;
        assert(ids[j] == ids.last());
    }
}

/// Removing the rows for the same mod as a row removes that row itself and every row for
/// the mod at the same path under the same name, and keeps only rows that were there, when
/// the rows in its folder are judged on the same answer on whether it exists.
pub proof fn lemma_removed_row_gone(
    rows: Seq<DivaModElement>,
    exists: Seq<bool>,
    to_remove: DivaModElement,
    answer: bool,
)
    requires
        exists.len() == rows.len(),
        spec_answers_agree(rows, exists, spec_parent_path(to_remove.path@), answer),
    ensures
        ({
            let kept = spec_rows_without(
                rows,
                spec_row_ids(rows, exists),
                spec_mod_identity(to_remove.path@, to_remove.name@, answer),
            );
            &&& forall|k: int|
                0 <= k < kept.len() ==> !(kept[k].path@ == to_remove.path@ && kept[k].name@
                    == to_remove.name@)
            &&& forall|k: int| 0 <= k < kept.len() ==> rows.contains(#[trigger] kept[k])
        }),
{
    let ids = spec_row_ids(rows, exists);
    let id = spec_mod_identity(to_remove.path@, to_remove.name@, answer);
    let kept = spec_rows_without(rows, ids, id);
    assert forall|k: int| 0 <= k < kept.len() implies !(kept[k].path@ == to_remove.path@
        && kept[k].name@ == to_remove.name@) && rows.contains(kept[k]) by {
        lemma_rows_without_kept(rows, ids, id, k);
        let j = choose|j: int| 0 <= j < rows.len() && rows[j] == kept[k] && #[trigger] ids[j] != id;
        if kept[k].path@ == to_remove.path@ && kept[k].name@ == to_remove.name@ {
            assert(exists[j] == answer);
            assert(ids[j] == id);
        }
    }
}

/// Stores the pack editor's rows `rows` as the entries of the pack `pack_name`, when that
/// pack exists. Returns whether it did.
pub fn save_pack_rows(packs: &mut StrMap<ModPack>, pack_name: &str, rows: &Vec<DivaModElement>) -> (saved: bool)
    ensures
        saved == old(packs)@.contains_key(pack_name@),
        saved ==> final(packs)@ == old(packs)@.insert(
            pack_name@,
            ModPackView { name: old(packs)@[pack_name@].name, mods: spec_rows_view(rows@) },
        ),
        !saved ==> final(packs)@ == old(packs)@,
        spec_packs_keyed_by_name(old(packs)@) ==> spec_packs_keyed_by_name(final(packs)@),
{
    let name = match packs.get(pack_name) {
        Some(p) => p.name.clone(),
        None => return false,
    };
    let mods = rows_to_packmods(rows);
    let pack = ModPack { name, mods };
    packs.insert(owned(pack_name), pack);
    true
}

// ---------------------------------------------------------------------------------------
// The pack menu
// ---------------------------------------------------------------------------------------

/// The lowercase form of `s` as `str::to_lowercase` makes it.
pub uninterp spec fn spec_lowercase(s: Seq<char>) -> Seq<char>;

/// The lowercase form of `s`.
///
/// Trusted: `str::to_lowercase`; claims only that the result is `spec_lowercase` of `s`
/// (named, not spelled out: Unicode case mapping).
#[verifier::external_body]
fn to_lowercase(s: &str) -> (r: String)
    ensures
        r@ == spec_lowercase(s@),
{
    s.to_lowercase()
}

/// `a` comes before `b` or equals it, character by character (the order of `String`).
pub open spec fn spec_lex_le(a: Seq<char>, b: Seq<char>) -> bool
    decreases a.len(),
{
    if a.len() == 0 {
        true
    } else if b.len() == 0 {
        false
    } else if (a[0] as u32) < (b[0] as u32) {
        true
    } else if (a[0] as u32) > (b[0] as u32) {
        false
    } else {
        spec_lex_le(a.drop_first(), b.drop_first())
    }
}

/// Of two strings, one comes before or equals the other.
pub proof fn lemma_lex_total(a: Seq<char>, b: Seq<char>)
    ensures
        spec_lex_le(a, b) || spec_lex_le(b, a),
    decreases a.len(),
{
    if a.len() > 0 && b.len() > 0 {
        vstd::utf8::char_u32_cast(a[0], a[0] as u32);
        vstd::utf8::char_u32_cast(b[0], b[0] as u32);
        if a[0] == b[0] {
            lemma_lex_total(a.drop_first(), b.drop_first());
        }
    }
}

/// The order of strings is transitive.
pub proof fn lemma_lex_trans(a: Seq<char>, b: Seq<char>, c: Seq<char>)
    requires
        spec_lex_le(a, b),
        spec_lex_le(b, c),
    ensures
        spec_lex_le(a, c),
    decreases a.len(),
{
    if a.len() > 0 && b.len() > 0 && c.len() > 0 {
        vstd::utf8::char_u32_cast(a[0], a[0] as u32);
        vstd::utf8::char_u32_cast(b[0], b[0] as u32);
        vstd::utf8::char_u32_cast(c[0], c[0] as u32);
        if a[0] == b[0] && b[0] == c[0] {
            lemma_lex_trans(a.drop_first(), b.drop_first(), c.drop_first());
        }
    }
}

fn lex_le(a: &Vec<char>, b: &Vec<char>) -> (r: bool)
    ensures
        r == spec_lex_le(a@, b@),
{
    let mut i: usize = 0;
    assert(a@.skip(0) =~= a@);
    assert(b@.skip(0) =~= b@);
    while i < a.len() && i < b.len() && a[i] == b[i]
        invariant
            i <= a@.len(),
            i <= b@.len(),
            spec_lex_le(a@, b@) == spec_lex_le(a@.skip(i as int), b@.skip(i as int)),
        decreases a@.len() - i,
    {
        assert(a@.skip(i as int).drop_first() =~= a@.skip(i + 1));
        assert(b@.skip(i as int).drop_first() =~= b@.skip(i + 1));
        i = i + 1;
    }
    if i == a.len() {
        return true;
    }
    if i == b.len() {
        return false;
    }
    let x = a[i];
    let y = b[i];
    assert(a@.skip(i as int)[0] == x);
    assert(b@.skip(i as int)[0] == y);
    proof {
        vstd::utf8::char_u32_cast(x, x as u32);
        vstd::utf8::char_u32_cast(y, y as u32);
    }
    (x as u32) < (y as u32)
}

/// Whether the names `names` come in the order of their lowercase forms.
pub open spec fn spec_sorted_by_lowercase(names: Seq<Seq<char>>) -> bool {
    forall|i: int, j: int|
        0 <= i < j < names.len() ==> spec_lex_le(
            spec_lowercase(#[trigger] names[i]),
            spec_lowercase(#[trigger] names[j]),
        )
}

/// Whether `sorted` is `names` rearranged as `perm` says (the `k`-th of `sorted` is the
/// `perm[k]`-th of `names`, each taken once), with names of equal lowercase form kept in
/// the order they had.
pub open spec fn spec_stable_arrangement(names: Seq<Seq<char>>, sorted: Seq<Seq<char>>, perm: Seq<int>) -> bool {
    &&& perm.len() == sorted.len()
    &&& sorted.len() == names.len()
    &&& forall|k: int|
        0 <= k < perm.len() ==> 0 <= #[trigger] perm[k] < names.len() && sorted[k] == names[perm[k]]
    &&& forall|a: int, b: int| 0 <= a < b < perm.len() ==> #[trigger] perm[a] != #[trigger] perm[b]
    &&& forall|a: int, b: int|
        0 <= a < b < perm.len() && spec_lowercase(#[trigger] sorted[a]) == spec_lowercase(
            #[trigger] sorted[b],
        ) ==> perm[a] < perm[b]
}

/// Every string comes before or equals itself.
pub proof fn lemma_lex_refl(a: Seq<char>)
    ensures
        spec_lex_le(a, a),
    decreases a.len(),
{
    if a.len() > 0 {
        lemma_lex_refl(a.drop_first());
    }
}

/// The entries of the pack menu: `All Mods` first, then the packs `names` in the order of
/// their lowercase forms, packs whose lowercase forms are equal in the order they came.
pub fn pack_menu(names: &Vec<String>) -> (r: Vec<String>)
    ensures
        r@.len() == names@.len() + 1,
        r@[0]@ == "All Mods"@,
        spec_sorted_by_lowercase(r.deep_view().drop_first()),
        exists|perm: Seq<int>| spec_stable_arrangement(names.deep_view(), r.deep_view().drop_first(), perm),
        r.deep_view().drop_first().to_multiset() == names.deep_view().to_multiset(),
{
    broadcast use vstd::seq_lib::group_to_multiset_ensures;

    let mut sorted: Vec<String> = Vec::new();
    let mut keys: Vec<Vec<char>> = Vec::new();
    let ghost mut perm: Seq<int> = Seq::empty();
    let ghost nv = names.deep_view();
    let mut i: usize = 0;
    while i < names.len()
        invariant
            i <= names@.len(),
            nv == names.deep_view(),
            sorted@.len() == i,
            sorted@.len() == keys@.len(),
            perm.len() == i,
            forall|j: int| 0 <= j < keys@.len() ==> #[trigger] keys@[j]@ == spec_lowercase(sorted@[j]@),
            spec_sorted_by_lowercase(sorted.deep_view()),
            sorted.deep_view().to_multiset() == nv.subrange(0, i as int).to_multiset(),
            forall|k: int|
                0 <= k < perm.len() ==> 0 <= #[trigger] perm[k] < i && sorted.deep_view()[k] == nv[perm[k]],
            forall|a: int, b: int| 0 <= a < b < perm.len() ==> #[trigger] perm[a] != #[trigger] perm[b],
            forall|a: int, b: int|
                0 <= a < b < perm.len() && spec_lowercase(#[trigger] sorted.deep_view()[a])
                    == spec_lowercase(#[trigger] sorted.deep_view()[b]) ==> perm[a] < perm[b],
        decreases names@.len() - i,
    {
        let name = names[i].clone();
        let low = to_lowercase(name.as_str());
        let key = crate::text::chars_of(low.as_str());
        let mut p: usize = 0;
        while p < keys.len() && lex_le(&keys[p], &key)
            invariant
                p <= keys@.len(),
                forall|j: int| 0 <= j < p ==> spec_lex_le(#[trigger] keys@[j]@, key@),
            decreases keys@.len() - p,
        {
            p = p + 1;
        }
        let ghost old_sorted = sorted.deep_view();
        let ghost old_keys = keys@;
        let ghost old_perm = perm;
        proof {
            assert(name@ == nv[i as int]);
            assert forall|j: int| p <= j < keys@.len() implies spec_lex_le(key@, #[trigger] keys@[j]@) by {
                if p < keys@.len() {
                    assert(!spec_lex_le(keys@[p as int]@, key@));
                    lemma_lex_total(keys@[p as int]@, key@);
                    if j > p {
                        assert(spec_lex_le(spec_lowercase(sorted@[p as int]@), spec_lowercase(sorted@[j]@)) ) by {
                            assert(sorted.deep_view()[p as int] == sorted@[p as int]@);
                            assert(sorted.deep_view()[j] == sorted@[j]@);
                        }
                        lemma_lex_trans(key@, keys@[p as int]@, keys@[j]@);
                    }
                }
            }
            assert forall|j: int| p <= j < keys@.len() implies keys@[j]@ != key@ by {
                assert(!spec_lex_le(keys@[p as int]@, key@));
                if keys@[j]@ == key@ {
                    if j == p {
                        lemma_lex_refl(key@);
                    } else {
                        assert(spec_lex_le(spec_lowercase(sorted@[p as int]@), spec_lowercase(sorted@[j]@)) ) by {
                            assert(sorted.deep_view()[p as int] == sorted@[p as int]@);
                            assert(sorted.deep_view()[j] == sorted@[j]@);
                        }
                    }
                }
            }
        }
        sorted.insert(p, name);
        keys.insert(p, key);
        proof {
            perm = old_perm.insert(p as int, i as int);
            assert(sorted.deep_view() =~= old_sorted.insert(p as int, nv[i as int]));
            vstd::seq_lib::to_multiset_insert(old_sorted, p as int, nv[i as int]);
            let pre = nv.subrange(0, i as int);
            assert(nv.subrange(0, i + 1) =~= pre.push(nv[i as int]));
            vstd::seq_lib::to_multiset_build(pre, nv[i as int]);
            assert forall|j: int| 0 <= j < keys@.len() implies #[trigger] keys@[j]@ == spec_lowercase(sorted@[j]@) by {
                if j < p {
                    assert(keys@[j] == old_keys[j]);
                } else if j > p {
                    assert(keys@[j] == old_keys[j - 1]);
                }
            }
            assert forall|a: int, b: int| 0 <= a < b < sorted.deep_view().len() implies spec_lex_le(
                spec_lowercase(#[trigger] sorted.deep_view()[a]),
                spec_lowercase(#[trigger] sorted.deep_view()[b]),
            ) by {
                assert(sorted.deep_view()[a] == sorted@[a]@);
                assert(sorted.deep_view()[b] == sorted@[b]@);
                assert(keys@[a]@ == spec_lowercase(sorted@[a]@));
                assert(keys@[b]@ == spec_lowercase(sorted@[b]@));
                if a < p && b < p {
                    assert(old_sorted[a] == sorted.deep_view()[a]);
                    assert(old_sorted[b] == sorted.deep_view()[b]);
                } else if a < p && b == p {
                } else if a < p && b > p {
                    assert(spec_lex_le(old_keys[a]@, key@));
                    assert(spec_lex_le(key@, old_keys[b - 1]@));
                    lemma_lex_trans(old_keys[a]@, key@, old_keys[b - 1]@);
                } else if a == p {
                    assert(spec_lex_le(key@, old_keys[b - 1]@));
                } else {
                    assert(old_sorted[a - 1] == sorted.deep_view()[a]);
                    assert(old_sorted[b - 1] == sorted.deep_view()[b]);
                }
            }
            assert forall|k: int| 0 <= k < perm.len() implies 0 <= #[trigger] perm[k] < i + 1
                && sorted.deep_view()[k] == nv[perm[k]] by {
                if k < p {
                    assert(perm[k] == old_perm[k]);
                    assert(sorted.deep_view()[k] == old_sorted[k]);
                } else if k > p {
                    assert(perm[k] == old_perm[k - 1]);
                    assert(sorted.deep_view()[k] == old_sorted[k - 1]);
                }
            }
            assert forall|a: int, b: int| 0 <= a < b < perm.len() implies #[trigger] perm[a] != #[trigger] perm[b] by {
                let oa = if a < p { a } else { a - 1 };
                let ob = if b < p { b } else { b - 1 };
                if a != p && b != p {
                    assert(perm[a] == old_perm[oa]);
                    assert(perm[b] == old_perm[ob]);
                } else if a == p {
                    assert(perm[b] == old_perm[ob]);
                } else {
                    assert(perm[a] == old_perm[oa]);
                }
            }
            assert forall|a: int, b: int|
                0 <= a < b < perm.len() && spec_lowercase(#[trigger] sorted.deep_view()[a])
                    == spec_lowercase(#[trigger] sorted.deep_view()[b]) implies perm[a] < perm[b] by {
                assert(sorted.deep_view()[a] == sorted@[a]@);
                assert(sorted.deep_view()[b] == sorted@[b]@);
                assert(keys@[a]@ == spec_lowercase(sorted@[a]@));
                assert(keys@[b]@ == spec_lowercase(sorted@[b]@));
                if a < p && b < p {
                    assert(old_sorted[a] == sorted.deep_view()[a]);
                    assert(old_sorted[b] == sorted.deep_view()[b]);
                    assert(perm[a] == old_perm[a]);
                    assert(perm[b] == old_perm[b]);
                } else if a < p && b == p {
                    assert(perm[a] == old_perm[a]);
                } else if a < p && b > p {
                    assert(old_sorted[a] == sorted.deep_view()[a]);
                    assert(old_sorted[b - 1] == sorted.deep_view()[b]);
                    assert(perm[a] == old_perm[a]);
                    assert(perm[b] == old_perm[b - 1]);
                } else if a == p {
                    assert(keys@[b] == old_keys[b - 1]);
                    assert(old_keys[b - 1]@ != key@);
                } else {
                    assert(old_sorted[a - 1] == sorted.deep_view()[a]);
                    assert(old_sorted[b - 1] == sorted.deep_view()[b]);
                    assert(perm[a] == old_perm[a - 1]);
                    assert(perm[b] == old_perm[b - 1]);
                }
            }
        }
        i = i + 1;
    }
    assert(nv.subrange(0, i as int) =~= nv);
    let ghost body = sorted.deep_view();
    let mut r = sorted;
    r.insert(0, owned("All Mods"));
    assert(r.deep_view().drop_first() =~= body);
    assert(spec_stable_arrangement(nv, body, perm));
    r
}

/// Where the applied pack `applied` stands in the pack menu `menu`: nowhere when no pack
/// is applied (empty or `All Mods`), else at its first entry, if it has one.
pub fn pack_menu_index(menu: &Vec<String>, applied: &str) -> (r: Option<usize>)
    ensures
        (applied@.len() == 0 || applied@ == "All Mods"@) ==> r is None,
        r matches Some(k) ==> k < menu@.len() && menu@[k as int]@ == applied@ && forall|j: int|
            0 <= j < k ==> menu@[j]@ != applied@,
        !(applied@.len() == 0 || applied@ == "All Mods"@) && r is None ==> forall|j: int|
            0 <= j < menu@.len() ==> menu@[j]@ != applied@,
{
    if applied.is_empty() || str_eq(applied, "All Mods") {
        return None;
    }
    assert(applied@ != "All Mods"@ && applied@.len() != 0);
    let a = owned(applied);
    let mut k: usize = 0;
    while k < menu.len()
        invariant
            k <= menu@.len(),
            a@ == applied@,
            applied@ != "All Mods"@ && applied@.len() != 0,
            forall|j: int| 0 <= j < k ==> menu@[j]@ != applied@,
        decreases menu@.len() - k,
    {
        if menu[k] == a {
            return Some(k);
        }
        k = k + 1;
    }
    None
}

} // verus!
