use rust4diva::modmanagement::{DivaMod, DivaModConfig, DivaModElement};
use rust4diva::modpacks::{
    add_pack_row, add_pack_row_given, remove_pack_rows, remove_pack_rows_given, save_pack_rows,
    apply_modpack_rows, apply_modpack_rows_given, change_modpack, create_new_pack,
    dml_load_order, dml_load_order_given, existing_dir_names_given, hash_dir_name, mod_identity,
    mod_identity_given, modpack_file_name, modpacks_dir_name, pack_load_order_given, pack_menu,
    pack_menu_index, rows_to_packmods, ModPack, ModPackMod,
};
use rust4diva::strmap::StrMap;

fn fields(ms: &[ModPackMod]) -> Vec<(String, bool, String)> {
    ms.iter().map(|m| (m.name.clone(), m.enabled, m.path.clone())).collect()
}

fn entry(name: &str, enabled: bool, path: &str) -> ModPackMod {
    ModPackMod { name: name.to_string(), enabled, path: path.to_string() }
}

fn installed(folder: &str, enabled: bool) -> DivaMod {
    DivaMod {
        config: DivaModConfig {
            enabled,
            include_paths: vec![],
            dll: vec![],
            name: folder.to_uppercase(),
            description: String::new(),
            version: String::new(),
            date: String::new(),
            author: String::new(),
        },
        path: format!("/nonexistent-r4d/mods/{}/config.toml", folder),
    }
}

#[test]
fn hash_dir_name_is_base64_of_sha256() {
    assert_eq!(hash_dir_name(String::new()), "47DEQpj8HBSa+/TImW+5JCeuQeRkm5NMpJWZG3hSuFU=");
    assert_eq!(hash_dir_name("abc".to_string()), "ungWv48Bz+pBQUDeXa4iI7ADYaOWF3qctBD/YfIAFa0=");
    assert_eq!(hash_dir_name("/games/diva".to_string()).len(), 44);
    assert_ne!(hash_dir_name("a".to_string()), hash_dir_name("b".to_string()));
}

#[test]
fn modpacks_dir_name_is_a_file_name() {
    assert_eq!(modpacks_dir_name(Some("abc".to_string())), "ungWv48Bz+pBQUDeXa4iI7ADYaOWF3qctBD_YfIAFa0=");
    assert_eq!(modpacks_dir_name(Some("".to_string())), "47DEQpj8HBSa+_TImW+5JCeuQeRkm5NMpJWZG3hSuFU=");
    let default = modpacks_dir_name(None);
    assert_eq!(default, modpacks_dir_name(Some("DefaultPath".to_string())));
    assert!(!default.contains('/'));
}

#[test]
fn modpack_file_name_replaces_separators() {
    assert_eq!(modpack_file_name("My Pack"), "My Pack.json");
    assert_eq!(modpack_file_name("a/b"), "a_b.json");
    assert_eq!(modpack_file_name("con"), "con_.json");
}

#[test]
fn create_new_pack_refuses_reserved_and_existing_names() {
    let mut packs: StrMap<ModPack> = StrMap::new();
    assert_eq!(create_new_pack(&mut packs, ""), None);
    assert_eq!(create_new_pack(&mut packs, "All Mods"), None);
    assert_eq!(create_new_pack(&mut packs, "x/y"), Some("x_y".to_string()));
    assert_eq!(packs.len(), 1);
    assert_eq!(packs.get("x_y").map(|p| (p.name.clone(), p.mods.len())), Some(("x_y".to_string(), 0)));
    assert_eq!(create_new_pack(&mut packs, "x\\y"), None);
    assert_eq!(packs.len(), 1);
}

#[test]
fn mod_identity_prefers_existing_folder_name() {
    assert_eq!(mod_identity_given("/g/mods/cool/config.toml", "Cool", true), "cool");
    assert_eq!(mod_identity_given("/g/mods/cool/config.toml", "Cool", false), "Cool");
    assert_eq!(mod_identity_given("config.toml", "Cool", true), "Cool");
    assert_eq!(mod_identity("/nonexistent-r4d/cool/config.toml", "Cool"), "Cool");
    assert_eq!(mod_identity("/tmp/config.toml", "Cool"), "tmp");
}

#[test]
fn same_mod_compares_identities() {
    let a = entry("Cool", true, "/nonexistent-r4d/a/config.toml");
    let b = entry("Cool", false, "/nonexistent-r4d/b/config.toml");
    let c = entry("Other", true, "/nonexistent-r4d/a/config.toml");
    assert!(a.same_mod_as(&b));
    assert!(!a.same_mod_as(&c));
    let m = installed("cool", true);
    assert!(entry("COOL", true, "x").same_mod_as_installed(&m));
}

#[test]
fn pack_load_order_uses_identities() {
    let mods = vec![entry("A", true, "/g/mods/a/config.toml"), entry("B", true, "/g/mods/b/config.toml")];
    assert_eq!(pack_load_order_given(&mods, &vec![true, false]), vec!["a", "B"]);
    assert_eq!(existing_dir_names_given(&mods, &vec![true, false]), vec!["a"]);
}

#[test]
fn dml_load_order_with_and_without_pack() {
    let mut packs: StrMap<ModPack> = StrMap::new();
    let mut pack = ModPack::new("P".to_string());
    pack.mods.push(entry("X", true, "/g/mods/x/config.toml"));
    packs.insert("P".to_string(), pack);
    let prio = vec![entry("A", true, "/g/mods/a/config.toml"), entry("B", true, "/g/mods/b/config.toml")];
    assert_eq!(dml_load_order_given("P", &packs, &prio, &vec![true]), Some(vec!["x".to_string()]));
    assert_eq!(dml_load_order_given("P", &packs, &prio, &vec![true, true]), None);
    assert_eq!(dml_load_order_given("Q", &packs, &prio, &vec![]), Some(vec![]));
    assert_eq!(dml_load_order_given("", &packs, &prio, &vec![false, true]), Some(vec!["b".to_string()]));
    assert_eq!(dml_load_order("", &packs, &prio), Vec::<String>::new());
    assert_eq!(dml_load_order("P", &packs, &prio), vec!["X"]);
}

#[test]
fn change_modpack_applies_pack_entries() {
    let mut packs: StrMap<ModPack> = StrMap::new();
    let mut pack = ModPack::new("P".to_string());
    pack.mods.push(entry("A", false, &installed("a", true).path));
    pack.mods.push(entry("B", true, &installed("b", false).path));
    packs.insert("P".to_string(), pack);
    let mut mods = vec![installed("a", true), installed("b", false)];
    let change = change_modpack("P", &mut packs, &vec![], &mut mods);
    assert!(!change.pack_rebuilt);
    assert_eq!(change.pack.name, "P");
    assert_eq!(change.toggled, vec![0, 1]);
    assert!(!mods[0].config.enabled);
    assert!(mods[1].config.enabled);
    let again = change_modpack("P", &mut packs, &vec![], &mut mods);
    assert!(again.toggled.is_empty());
}

#[test]
fn change_modpack_rebuilds_pack_of_other_size() {
    let mut packs: StrMap<ModPack> = StrMap::new();
    packs.insert("P".to_string(), ModPack::new("P".to_string()));
    let mut mods = vec![installed("a", false)];
    let change = change_modpack("P", &mut packs, &vec![], &mut mods);
    assert!(change.pack_rebuilt);
    assert_eq!(change.pack.mods.len(), 1);
    assert!(change.pack.mods[0].enabled);
    assert_eq!(packs.get("P").map(|p| p.mods.len()), Some(1));
    assert!(mods[0].config.enabled);
    assert_eq!(change.toggled, vec![0]);
}

#[test]
fn change_to_unknown_pack_uses_global_order() {
    let mut packs: StrMap<ModPack> = StrMap::new();
    let global = vec![entry("A", false, &installed("a", true).path)];
    let mut mods = vec![installed("a", true), installed("b", true)];
    let change = change_modpack("All Mods", &mut packs, &global, &mut mods);
    assert_eq!(change.pack.name, "All Mods");
    assert_eq!(fields(&change.pack.mods), fields(&global));
    assert!(!change.pack_rebuilt);
    assert!(!mods[0].config.enabled);
    assert!(mods[1].config.enabled);
    assert_eq!(packs.len(), 0);
}

#[test]
fn apply_rows_falls_back_to_global_order() {
    let rows = vec![entry("A", true, "/g/mods/a/config.toml")];
    let prio = vec![entry("B", true, "/g/mods/b/config.toml")];
    assert_eq!(
        apply_modpack_rows_given(&rows, &vec![true], "Pack", &prio, &vec![true]),
        (vec!["a".to_string()], "Pack".to_string())
    );
    assert_eq!(
        apply_modpack_rows_given(&rows, &vec![false], "Pack", &prio, &vec![true]),
        (vec!["b".to_string()], String::new())
    );
    let elems = vec![DivaModElement {
        name: "A".to_string(),
        author: String::new(),
        description: String::new(),
        version: String::new(),
        enabled: false,
        path: "/nonexistent-r4d/a/config.toml".to_string(),
    }];
    assert_eq!(fields(&rows_to_packmods(&elems)), fields(&[entry("A", false, "/nonexistent-r4d/a/config.toml")]));
    assert_eq!(apply_modpack_rows(&elems, "Pack", &vec![]), (vec![], String::new()));
}

#[test]
fn pack_menu_sorts_case_insensitively() {
    let names = vec!["beta".to_string(), "Alpha".to_string(), "alpha".to_string(), "Gamma".to_string()];
    let menu = pack_menu(&names);
    assert_eq!(menu, vec!["All Mods", "Alpha", "alpha", "beta", "Gamma"]);
    assert_eq!(pack_menu(&vec![]), vec!["All Mods"]);
}

#[test]
fn pack_menu_index_finds_applied_pack() {
    let menu = pack_menu(&vec!["b".to_string(), "a".to_string()]);
    assert_eq!(pack_menu_index(&menu, "b"), Some(2));
    assert_eq!(pack_menu_index(&menu, "All Mods"), None);
    assert_eq!(pack_menu_index(&menu, ""), None);
    assert_eq!(pack_menu_index(&menu, "c"), None);
}

fn row(name: &str, path: &str) -> DivaModElement {
    DivaModElement {
        name: name.to_string(),
        author: String::new(),
        description: String::new(),
        version: String::new(),
        enabled: true,
        path: path.to_string(),
    }
}

#[test]
fn pack_editor_adds_each_mod_once() {
    let mut rows = vec![row("A", "/g/mods/a/config.toml")];
    assert!(!add_pack_row_given(&mut rows, &vec![true], row("Other", "/h/a/config.toml"), true));
    assert_eq!(rows.len(), 1);
    assert!(add_pack_row_given(&mut rows, &vec![true], row("B", "/g/mods/b/config.toml"), true));
    assert_eq!(rows.len(), 2);
    assert_eq!(rows[1].name, "B");
    assert!(add_pack_row_given(&mut rows, &vec![false, true], row("A", "/x/config.toml"), false) == false);
    let mut disk = vec![row("A", "/nonexistent-r4d/a/config.toml")];
    assert!(!add_pack_row(&mut disk, row("A", "/nonexistent-r4d/b/config.toml")));
    assert!(add_pack_row(&mut disk, row("B", "/nonexistent-r4d/b/config.toml")));
}

#[test]
fn pack_editor_removes_rows_of_the_mod() {
    let rows = vec![row("A", "/g/a/config.toml"), row("B", "/g/b/config.toml"), row("A2", "/g/a/config.toml")];
    let kept = remove_pack_rows_given(rows, &vec![true, true, true], &row("x", "/h/a/config.toml"), true);
    assert_eq!(kept, vec![row("B", "/g/b/config.toml")]);
    let disk = vec![row("A", "/nonexistent-r4d/a/config.toml"), row("B", "/nonexistent-r4d/b/config.toml")];
    let kept = remove_pack_rows(disk, &row("B", "/elsewhere/config.toml"));
    assert_eq!(kept, vec![row("A", "/nonexistent-r4d/a/config.toml")]);
}

#[test]
fn rows_identify_mods() {
    assert!(row("A", "/nonexistent-r4d/a/config.toml").is_same_as(&row("A", "/other/config.toml")));
    assert!(!row("A", "/nonexistent-r4d/a/config.toml").is_same_as(&row("B", "/nonexistent-r4d/a/config.toml")));
}

#[test]
fn save_pack_rows_only_into_existing_pack() {
    let mut packs: StrMap<ModPack> = StrMap::new();
    packs.insert("P".to_string(), ModPack::new("P".to_string()));
    let rows = vec![row("A", "/g/a/config.toml")];
    assert!(save_pack_rows(&mut packs, "P", &rows));
    assert_eq!(fields(&packs.get("P").unwrap().mods), fields(&[entry("A", true, "/g/a/config.toml")]));
    assert_eq!(packs.get("P").unwrap().name, "P");
    assert!(!save_pack_rows(&mut packs, "Q", &rows));
    assert_eq!(packs.len(), 1);
}

#[test]
fn pack_entry_rows_show_the_installed_mod() {
    let mut mods: StrMap<DivaMod> = StrMap::new();
    let mut m = installed("a", true);
    m.config.author = "Rin".to_string();
    mods.insert("a".to_string(), m);
    let e = entry("Old name", false, "/g/mods/a/config.toml");
    let shown = e.to_element_given(&mods, true);
    assert_eq!(shown.name, "A");
    assert_eq!(shown.author, "Rin");
    assert!(shown.enabled);
    assert_eq!(shown.path, installed("a", true).path);
    let alone = e.to_element_given(&mods, false);
    assert_eq!(alone, row_of("Old name", false, "/g/mods/a/config.toml"));
    let disk = entry("X", true, "/nonexistent-r4d/a/config.toml").to_element(&mods);
    assert_eq!(disk, row_of("X", true, "/nonexistent-r4d/a/config.toml"));
}

fn row_of(name: &str, enabled: bool, path: &str) -> DivaModElement {
    DivaModElement {
        name: name.to_string(),
        author: String::new(),
        description: String::new(),
        version: String::new(),
        enabled,
        path: path.to_string(),
    }
}

#[test]
fn same_mod_given_ignores_state_and_compares_identities() {
    let a = entry("A", true, "/g/mods/cool/config.toml");
    let b = entry("B", false, "/h/other/cool/config.toml");
    assert!(a.same_mod_as_given(&b, true, true));
    assert!(!a.same_mod_as_given(&b, true, false));
    assert!(a.same_mod_as_given(&entry("A", false, "/x/y/config.toml"), false, false));
    assert!(!a.same_mod_as_given(&entry("B", true, "/g/mods/cool/config.toml"), false, false));
}

#[test]
fn dir_names_follow_the_path() {
    let m = DivaMod { path: "/tmp/config.toml".to_string(), ..installed("a", true) };
    assert_eq!(m.dir_name(), Some("tmp".to_string()));
    assert_eq!(m.to_element().dir_name(), m.dir_name());
    assert_eq!(m.to_packmod().dir_name(), m.dir_name());
    assert_eq!(m.to_element().to_packmod().dir_name(), m.dir_name());
    assert_eq!(entry("A", true, "").dir_name(), None);
    assert_eq!(installed("a", true).dir_name(), None);
}
