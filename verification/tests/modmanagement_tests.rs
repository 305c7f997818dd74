use rust4diva::modmanagement::{
    archive_structure_valid, get_mods_in_order, load_mods, mod_from_config, mod_key, move_mod_down,
    move_mod_up, toggle_mod, unpack_destination, DivaMod, DivaModConfig, DivaModLoader, DownloadProgress,
};
use rust4diva::strmap::StrMap;

fn config(name: &str, enabled: bool) -> DivaModConfig {
    DivaModConfig {
        enabled,
        include_paths: vec![".".to_string()],
        dll: vec![],
        name: name.to_string(),
        description: "A mod".to_string(),
        version: "1.0".to_string(),
        date: "2024".to_string(),
        author: "someone".to_string(),
    }
}

fn installed(folder: &str, name: &str) -> DivaMod {
    DivaMod { config: config(name, true), path: format!("/games/diva/mods/{}/config.toml", folder) }
}

fn names(mods: &[DivaMod]) -> Vec<String> {
    mods.iter().map(|m| m.config.name.clone()).collect()
}

#[test]
fn mod_from_config_escapes_the_description() {
    let mut c = config("Cool", true);
    c.description = "line one\nline \"two\"".to_string();
    let m = mod_from_config(c, "/m/cool/config.toml".to_string());
    assert_eq!(m.config.description, "line one\\nline \\\"two\\\"");
    assert_eq!(m.config.name, "Cool");
    assert_eq!(m.path, "/m/cool/config.toml");
}

#[test]
fn set_enabled_changes_only_the_flag() {
    let mut m = installed("cool", "Cool");
    let copy = m.set_enabled(false);
    assert!(!m.config.enabled);
    assert_eq!(copy, m);
    assert_eq!(m.config.name, "Cool");
    let row = m.to_element();
    assert!(!row.enabled);
    assert_eq!(row.path, m.path);
    let entry = m.to_packmod();
    assert!(entry.enabled);
    assert_eq!(entry.name, "Cool");
}

#[test]
fn loader_default() {
    let l = DivaModLoader::new();
    assert!(!l.enabled);
    assert!(!l.console);
    assert_eq!(l.mods, "mods");
    assert_eq!(l.version, "");
    assert!(l.priority.is_empty());
}

#[test]
fn archive_with_one_folder_is_valid() {
    let files = vec!["Cool/".to_string(), "Cool/config.toml".to_string()];
    assert!(archive_structure_valid("cool.zip", &files));
    let loose = vec!["config.toml".to_string(), "rom/x.farc".to_string()];
    assert!(!archive_structure_valid("cool.zip", &loose));
    assert!(archive_structure_valid("cool.zip", &vec![]));
}

#[test]
fn rar_archive_may_list_one_folder_without_slash() {
    let files = vec!["Cool".to_string(), "Cool/config.toml".to_string()];
    assert!(archive_structure_valid("cool.rar", &files));
    let two = vec!["Cool".to_string(), "Other".to_string(), "Cool/config.toml".to_string()];
    assert!(!archive_structure_valid("cool.rar", &two));
}

#[test]
fn move_up_by_one_swaps_with_the_row_above() {
    let mut v = vec!["a", "b", "c", "d"];
    assert!(move_mod_up(&mut v, 2, 1));
    assert_eq!(v, vec!["a", "c", "b", "d"]);
}

#[test]
fn move_up_to_top_and_by_steps() {
    let mut v = vec!["a", "b", "c", "d"];
    assert!(move_mod_up(&mut v, 3, -1));
    assert_eq!(v, vec!["d", "a", "b", "c"]);
    let mut w = vec!["a", "b", "c", "d"];
    assert!(move_mod_up(&mut w, 3, 2));
    assert_eq!(w, vec!["a", "d", "b", "c"]);
    let mut x = vec!["a", "b"];
    assert!(!move_mod_up(&mut x, 0, 1));
    assert_eq!(x, vec!["a", "b"]);
}

#[test]
fn move_down_by_one_swaps_with_the_row_below() {
    let mut v = vec!["a", "b", "c", "d"];
    assert!(move_mod_down(&mut v, 1, 1));
    assert_eq!(v, vec!["a", "c", "b", "d"]);
}

#[test]
fn move_down_to_bottom_and_clamped() {
    let mut v = vec!["a", "b", "c", "d"];
    assert!(move_mod_down(&mut v, 0, -1));
    assert_eq!(v, vec!["b", "c", "d", "a"]);
    let mut w = vec!["a", "b", "c", "d"];
    assert!(move_mod_down(&mut w, 1, 10));
    assert_eq!(w, vec!["a", "c", "b", "d"]);
    let mut x = vec!["a", "b", "c"];
    assert!(!move_mod_down(&mut x, 2, 1));
    assert_eq!(x, vec!["a", "b", "c"]);
    let mut y = vec!["a", "b", "c"];
    assert!(!move_mod_down(&mut y, -1, 1));
    assert_eq!(y, vec!["a", "b", "c"]);
}

#[test]
fn move_down_then_up_restores() {
    let orig = vec!["a", "b", "c", "d", "e"];
    let mut v = orig.clone();
    assert!(move_mod_down(&mut v, 1, 2));
    assert_eq!(v, vec!["a", "c", "d", "b", "e"]);
    assert!(move_mod_up(&mut v, 3, 2));
    assert_eq!(v, orig);
}

#[test]
fn move_up_then_down_restores() {
    let orig = vec!["a", "b", "c", "d", "e"];
    let mut v = orig.clone();
    assert!(move_mod_up(&mut v, 3, 2));
    assert!(move_mod_down(&mut v, 1, 2));
    assert_eq!(v, orig);
}

#[test]
fn mod_key_is_the_folder_name() {
    assert_eq!(mod_key(&installed("cool_folder", "Cool")), "cool_folder");
    let bare = DivaMod { config: config("Bare", true), path: "config.toml".to_string() };
    assert_eq!(mod_key(&bare), "Bare");
}

#[test]
fn load_mods_merges_new_mods_into_the_load_order() {
    let mut priority = vec!["b".to_string(), "gone".to_string()];
    let mut mods: StrMap<DivaMod> = StrMap::new();
    let scanned = vec![installed("a", "A"), installed("b", "B"), installed("c", "C")];
    load_mods(&mut priority, &mut mods, scanned);
    assert_eq!(priority, vec!["b", "gone", "a", "c"]);
    assert_eq!(mods.len(), 3);
    assert_eq!(mods.get("c").map(|m| m.config.name.clone()), Some("C".to_string()));
    let ordered = get_mods_in_order(&priority, &mods);
    assert_eq!(names(&ordered), vec!["B", "A", "C"]);
}

#[test]
fn load_mods_twice_keeps_the_order() {
    let mut priority: Vec<String> = vec![];
    let mut mods: StrMap<DivaMod> = StrMap::new();
    load_mods(&mut priority, &mut mods, vec![installed("x", "X"), installed("y", "Y")]);
    let first = priority.clone();
    load_mods(&mut priority, &mut mods, vec![installed("y", "Y"), installed("x", "X")]);
    assert_eq!(priority, first);
    load_mods(&mut priority, &mut mods, vec![installed("y", "Y")]);
    assert_eq!(mods.len(), 1);
    assert_eq!(names(&get_mods_in_order(&priority, &mods)), vec!["Y"]);
}

#[test]
fn unpack_destination_by_archive_shape() {
    assert_eq!(unpack_destination(Some("/g".to_string()), "mods", "cool.zip", true), "/g/mods");
    assert_eq!(unpack_destination(Some("/g".to_string()), "mods", "cool.zip", false), "/g/mods/cool.zip");
    assert_eq!(unpack_destination(None, "mods", "x", true), "./mods/mods");
}

#[test]
fn download_progress_reports() {
    let mut p = DownloadProgress::new();
    assert_eq!(p.received(), 0);
    assert_eq!(p.on_chunk(100), Some(100));
    assert_eq!(p.on_chunk(1000), None);
    assert_eq!(p.on_chunk(1999), None);
    assert_eq!(p.on_chunk(1), Some(3000));
    assert_eq!(p.received(), 3100);
    assert_eq!(p.on_chunk(5000), Some(5000));
}

#[test]
fn download_reports_add_up_to_reported_bytes() {
    let mut p = DownloadProgress::new();
    let mut total = 0usize;
    let mut last_report_at = 0usize;
    for len in [10usize, 2000, 999, 1, 4000, 7, 7, 3500] {
        if let Some(n) = p.on_chunk(len) {
            total += n;
            last_report_at = p.received();
        }
    }
    assert_eq!(total, last_report_at);
    assert!(total <= p.received());
}

#[test]
fn empty_first_chunk_keeps_reporting() {
    let mut p = DownloadProgress::new();
    assert_eq!(p.on_chunk(0), Some(0));
    assert_eq!(p.on_chunk(5), Some(5));
    assert_eq!(p.on_chunk(5), None);
}

#[test]
fn toggle_mod_flips_and_twice_restores() {
    let mut mods: StrMap<DivaMod> = StrMap::new();
    mods.insert("cool".to_string(), installed("cool", "Cool"));
    let once = toggle_mod(&mut mods, "cool").unwrap();
    assert!(!once.config.enabled);
    assert_eq!(mods.get("cool"), Some(&once));
    let twice = toggle_mod(&mut mods, "cool").unwrap();
    assert_eq!(twice, installed("cool", "Cool"));
    assert_eq!(toggle_mod(&mut mods, "missing"), None);
    assert_eq!(mods.len(), 1);
}
