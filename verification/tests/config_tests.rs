use rust4diva::config::{
    color_scheme, dml_config_target, settings_dirs, ColorScheme, DivaConfig, OldDivaConfig,
    Settings, SettingsError, SCALE_ONE_BITS,
};
use rust4diva::modpacks::ModPackMod;

type Fields = (
    (Vec<(String, bool, String)>, String, String, String, String, bool),
    (bool, bool, u32, bool, bool, String, Vec<String>),
);

fn fields(c: &DivaConfig) -> Fields {
    (
        (
            c.priority.iter().map(|m| (m.name.clone(), m.enabled, m.path.clone())).collect(),
            c.diva_dir.clone(),
            c.steam_dir.clone(),
            c.aft_dir.clone(),
            c.applied_pack.clone(),
            c.aft_mode,
        ),
        (
            c.use_system_theme,
            c.use_system_scaling,
            c.scale_bits,
            c.dark_mode,
            c.first_run,
            c.dml_version.clone(),
            c.diva_dirs.clone(),
        ),
    )
}

fn old_config() -> OldDivaConfig {
    let mut old = OldDivaConfig::new();
    old.priority = vec!["a".to_string(), "b".to_string(), "c".to_string()];
    old.diva_dir = "/games/diva".to_string();
    old.steam_dir = "/steam".to_string();
    old.applied_pack = "Pack".to_string();
    old.dark_mode = false;
    old.first_run = false;
    old.dml_version = "1.0".to_string();
    old.diva_dirs = vec!["/games/diva".to_string()];
    old
}

#[test]
fn scale_one_is_the_bits_of_one() {
    assert_eq!(f32::from_bits(SCALE_ONE_BITS), 1.0f32);
}

#[test]
fn first_run_configurations() {
    let old = OldDivaConfig::new();
    assert!(old.first_run && old.dark_mode && !old.aft_mode);
    assert!(old.priority.is_empty() && old.diva_dirs.is_empty());
    let cfg = DivaConfig::new();
    assert!(cfg.first_run && cfg.dark_mode && cfg.use_system_theme && cfg.use_system_scaling);
    assert_eq!(cfg.scale_bits, SCALE_ONE_BITS);
    assert_eq!(cfg.diva_dir, "");
}

#[test]
fn from_old_given_keeps_existing_folders() {
    let cfg = DivaConfig::from_old_given(old_config(), &vec![true, false, true]);
    let expected = [
        ModPackMod { name: String::new(), enabled: true, path: "/games/diva/a".to_string() },
        ModPackMod { name: String::new(), enabled: true, path: "/games/diva/c".to_string() },
    ];
    assert_eq!(
        fields(&cfg).0 .0,
        expected.iter().map(|m| (m.name.clone(), m.enabled, m.path.clone())).collect::<Vec<_>>()
    );
    assert_eq!(cfg.diva_dir, "/games/diva");
    assert_eq!(cfg.steam_dir, "/steam");
    assert_eq!(cfg.applied_pack, "Pack");
    assert!(!cfg.dark_mode);
    assert!(!cfg.first_run);
    assert_eq!(cfg.dml_version, "1.0");
    assert_eq!(cfg.diva_dirs, vec!["/games/diva"]);
    assert!(cfg.use_system_theme && cfg.use_system_scaling);
    assert_eq!(cfg.scale_bits, SCALE_ONE_BITS);
}

#[test]
fn from_old_drops_missing_folders() {
    let mut old = old_config();
    old.diva_dir = "/nonexistent-r4d/diva".to_string();
    let cfg = DivaConfig::from_old(old);
    assert!(cfg.priority.is_empty());
    assert_eq!(cfg.diva_dir, "/nonexistent-r4d/diva");
}

#[test]
fn fill_diva_dirs_uses_the_game_folder() {
    let mut cfg = DivaConfig::new();
    cfg.fill_diva_dirs();
    assert!(cfg.diva_dirs.is_empty());
    cfg.diva_dir = "/g".to_string();
    cfg.fill_diva_dirs();
    assert_eq!(cfg.diva_dirs, vec!["/g"]);
    cfg.diva_dir = "/h".to_string();
    cfg.fill_diva_dirs();
    assert_eq!(cfg.diva_dirs, vec!["/g"]);
}

#[test]
fn color_scheme_follows_settings() {
    assert_eq!(color_scheme(true, true), ColorScheme::Unknown);
    assert_eq!(color_scheme(false, true), ColorScheme::Dark);
    assert_eq!(color_scheme(false, false), ColorScheme::Light);
}

#[test]
fn dml_config_target_in_game_folder() {
    assert_eq!(dml_config_target(Some("/g".to_string())), Some("/g/config.toml".to_string()));
    assert_eq!(dml_config_target(Some(String::new())), None);
    assert_eq!(dml_config_target(None), None);
}

#[test]
fn settings_dirs_placeholder() {
    let mut cfg = DivaConfig::new();
    assert_eq!(settings_dirs(&cfg), vec!["/path/to/pdx"]);
    cfg.diva_dirs = vec!["/a".to_string(), "/b".to_string()];
    assert_eq!(settings_dirs(&cfg), vec!["/a", "/b"]);
}

fn settings() -> Settings {
    Settings {
        diva_dirs: vec!["/a".to_string(), "/b".to_string()],
        steam_dir: "/new-steam".to_string(),
        diva_dir: "/a".to_string(),
        aft_mode: true,
        dark_mode: false,
        system_scale: false,
        system_theme: false,
    }
}

#[test]
fn apply_settings_refuses_folder_without_game() {
    let mut cfg = DivaConfig::new();
    let before = DivaConfig::new();
    assert_eq!(
        cfg.apply_settings_given(&settings(), &vec![true, false], true),
        Err(SettingsError::InvalidDivaDirectory)
    );
    assert_eq!(fields(&cfg), fields(&before));
    assert_eq!(SettingsError::InvalidDivaDirectory.message(), "Invalid Project Diva Directory");
}

#[test]
fn apply_settings_takes_the_settings() {
    let mut cfg = DivaConfig::new();
    cfg.steam_dir = "/old-steam".to_string();
    assert_eq!(cfg.apply_settings_given(&settings(), &vec![true, true], false), Ok(()));
    assert_eq!(cfg.steam_dir, "/old-steam");
    assert_eq!(cfg.diva_dir, "/a");
    assert_eq!(cfg.diva_dirs, vec!["/a", "/b"]);
    assert!(cfg.aft_mode && !cfg.dark_mode && !cfg.use_system_scaling && !cfg.use_system_theme);
    assert_eq!(cfg.apply_settings_given(&settings(), &vec![true, true], true), Ok(()));
    assert_eq!(cfg.steam_dir, "/new-steam");
}

#[test]
fn apply_settings_on_disk_refuses_missing_game() {
    let mut cfg = DivaConfig::new();
    let mut s = settings();
    s.diva_dirs = vec!["/nonexistent-r4d".to_string()];
    assert_eq!(cfg.apply_settings(&s), Err(SettingsError::InvalidDivaDirectory));
    assert_eq!(fields(&cfg), fields(&DivaConfig::new()));
    s.diva_dirs = vec![];
    assert_eq!(cfg.apply_settings(&s), Ok(()));
    assert_eq!(cfg.steam_dir, "");
    assert!(cfg.diva_dirs.is_empty());
}

#[test]
fn fill_diva_dirs_keeps_other_settings() {
    let mut cfg = DivaConfig::new();
    cfg.diva_dir = "/g".to_string();
    cfg.dark_mode = false;
    cfg.applied_pack = "P".to_string();
    let mut expected = fields(&cfg);
    expected.1 .6 = vec!["/g".to_string()];
    cfg.fill_diva_dirs();
    assert_eq!(fields(&cfg), expected);
}
