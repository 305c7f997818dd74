use rust4diva::firstlaunch::{
    check_setup_dir, check_setup_dir_given, dmm_import, dmm_import_given, DmmConfig, DmmImport,
    DmmLoadoutMod, DmmPDMMConfig, SetupError,
};
use rust4diva::strmap::StrMap;

fn dmm_config(mods_folder: Option<&str>) -> DmmConfig {
    let mut loadouts: StrMap<Vec<DmmLoadoutMod>> = StrMap::new();
    loadouts.insert("Default".to_string(), vec![DmmLoadoutMod { name: "a".to_string(), enabled: true }]);
    loadouts.insert("Songs".to_string(), vec![]);
    let mut configs: StrMap<DmmPDMMConfig> = StrMap::new();
    configs.insert(
        "Project DIVA Mega Mix+".to_string(),
        DmmPDMMConfig {
            launcher: None,
            game_path: None,
            mods_folder: mods_folder.map(|m| m.to_string()),
            loadouts,
        },
    );
    DmmConfig { current_game: "Project DIVA Mega Mix+".to_string(), configs }
}

#[test]
fn dmm_import_takes_game_folder_and_loadouts() {
    let imp = dmm_import_given(&dmm_config(Some("/games/diva/mods")), true);
    assert_eq!(
        imp,
        Some(DmmImport {
            diva_dir: Some("/games/diva".to_string()),
            loadouts: vec!["Default".to_string(), "Songs".to_string()],
        })
    );
    let missing = dmm_import_given(&dmm_config(Some("/games/diva/mods")), false).unwrap();
    assert_eq!(missing.diva_dir, None);
    let none = dmm_import_given(&dmm_config(None), true).unwrap();
    assert_eq!(none.diva_dir, None);
    assert_eq!(none.loadouts.len(), 2);
}

#[test]
fn dmm_import_without_mega_mix_entry() {
    let cfg = DmmConfig { current_game: String::new(), configs: StrMap::new() };
    assert_eq!(dmm_import_given(&cfg, true), None);
    assert_eq!(dmm_import(&cfg), None);
}

#[test]
fn dmm_import_on_disk() {
    let imp = dmm_import(&dmm_config(Some("/tmp/mods"))).unwrap();
    assert_eq!(imp.diva_dir, Some("/tmp".to_string()));
    let gone = dmm_import(&dmm_config(Some("/nonexistent-r4d/mods"))).unwrap();
    assert_eq!(gone.diva_dir, None);
}

#[test]
fn setup_dir_checks() {
    assert_eq!(check_setup_dir_given(false, true), Err(SetupError::NotADirectory));
    assert_eq!(check_setup_dir_given(true, false), Err(SetupError::MissingExecutable));
    assert_eq!(check_setup_dir_given(true, true), Ok(()));
    assert_eq!(check_setup_dir("/nonexistent-r4d"), Err(SetupError::NotADirectory));
    assert_eq!(check_setup_dir("/tmp"), Err(SetupError::MissingExecutable));
    assert_eq!(SetupError::NotADirectory.message(), "Selected Project Diva directory does not exist or is a file");
    assert_eq!(SetupError::MissingExecutable.message(), "Selected Directory does not contain DivaMegaMix.exe");
}
