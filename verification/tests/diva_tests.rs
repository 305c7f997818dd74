use rust4diva::diva::{
    configured_diva_folder, configured_diva_folder_given, configured_steam_folder,
    diva_folder_from_vdf, diva_folder_in_library, get_diva_folder, libraries_file, read_libraries,
    select_diva_library, steam_folder, steam_folder_given, temp_folder_for, SteamLibrary,
};
use rust4diva::message::Message;

fn lib(path: Option<&str>, apps: Option<Vec<&str>>) -> SteamLibrary {
    SteamLibrary {
        path: path.map(|p| p.to_string()),
        apps: apps.map(|a| a.into_iter().map(|s| s.to_string()).collect()),
    }
}

#[test]
fn stored_folder_wins_over_search() {
    let mut searched = false;
    let r = get_diva_folder(Some("/stored".to_string()), || {
        searched = true;
        Some("/found".to_string())
    });
    assert_eq!(r, Some("/stored".to_string()));
    assert!(!searched);
    assert_eq!(get_diva_folder(None, || Some("/found".to_string())), Some("/found".to_string()));
    assert_eq!(get_diva_folder(None, || None), None);
}

#[test]
fn configured_folder_needs_the_game() {
    let d = "/g".to_string();
    assert_eq!(configured_diva_folder_given(&d, true, true), Some("/g".to_string()));
    assert_eq!(configured_diva_folder_given(&d, true, false), None);
    assert_eq!(configured_diva_folder_given(&d, false, true), None);
    assert_eq!(configured_diva_folder_given(&String::new(), true, true), None);
    assert_eq!(configured_diva_folder(&"/nonexistent-r4d".to_string()), None);
    assert_eq!(configured_diva_folder(&String::new()), None);
}

#[test]
fn configured_steam_folder_must_exist() {
    assert_eq!(configured_steam_folder(&"/tmp".to_string()), Some("/tmp".to_string()));
    assert_eq!(configured_steam_folder(&"/nonexistent-r4d".to_string()), None);
    assert_eq!(configured_steam_folder(&String::new()), None);
}

#[test]
fn temp_folder_by_os() {
    assert_eq!(temp_folder_for("linux", None), Some("/tmp/rust4diva".to_string()));
    assert_eq!(temp_folder_for("macos", Some("x".to_string())), Some("/tmp/rust4diva".to_string()));
    assert_eq!(temp_folder_for("windows", Some("C:\\Temp".to_string())), Some("C:\\Temp".to_string()));
    assert_eq!(temp_folder_for("freebsd", Some("x".to_string())), None);
}

#[test]
fn library_with_mega_mix_is_selected() {
    let libs = vec![
        lib(Some("\"/first\""), Some(vec!["228980"])),
        lib(None, Some(vec!["1761390"])),
        lib(Some("\"/second\""), Some(vec!["1761390", "7"])),
        lib(Some("\"/third\""), Some(vec!["1761390"])),
    ];
    assert_eq!(select_diva_library(&libs), "/second");
    assert_eq!(select_diva_library(&vec![lib(Some("\"/a\""), None)]), "");
    assert_eq!(select_diva_library(&vec![]), "");
}

#[test]
fn game_folder_inside_library() {
    assert_eq!(
        diva_folder_in_library("/steam"),
        "/steam/steamapps/common/Hatsune Miku Project DIVA Mega Mix Plus"
    );
}

#[test]
fn messages_compare() {
    assert_eq!(Message::LaunchUrl("a".to_string()), Message::LaunchUrl("a".to_string()));
    assert_ne!(Message::OpenRepositoryUrl, Message::SubscriptionChannel);
}

const LIBRARIES: &str = "\"libraryfolders\"\n{\n\t\"0\"\n\t{\n\t\t\"path\"\t\t\"/home/u/.local/share/Steam\"\n\t\t\"apps\"\n\t\t{\n\t\t\t\"228980\"\t\t\"123\"\n\t\t}\n\t}\n\t\"1\"\n\t{\n\t\t\"path\"\t\t\"/mnt/games\"\n\t\t\"apps\"\n\t\t{\n\t\t\t\"1761390\"\t\t\"456\"\n\t\t\t\"7\"\t\t\"1\"\n\t\t}\n\t}\n}\n";

#[test]
fn libraries_are_read_from_the_vdf_text() {
    let libs = read_libraries(LIBRARIES).unwrap();
    assert_eq!(
        libs,
        vec![
            lib(Some("\"/home/u/.local/share/Steam\""), Some(vec!["228980"])),
            lib(Some("\"/mnt/games\""), Some(vec!["1761390", "7"])),
        ]
    );
    assert_eq!(
        diva_folder_from_vdf(LIBRARIES),
        Some("/mnt/games/steamapps/common/Hatsune Miku Project DIVA Mega Mix Plus".to_string())
    );
}

#[test]
fn library_paths_keep_their_escapes() {
    let text = "\"libraryfolders\" { \"0\" { \"path\" \"C:\\\\Games\" \"apps\" { \"1761390\" \"1\" } } }";
    let libs = read_libraries(text).unwrap();
    assert_eq!(libs, vec![lib(Some("\"C:\\\\Games\""), Some(vec!["1761390"]))]);
}

#[test]
fn vdf_without_the_game_or_unreadable() {
    let text = "\"libraryfolders\" { \"0\" { \"path\" \"/a\" } \"1\" { \"apps\" { \"1761390\" \"1\" } } }";
    assert_eq!(read_libraries(text).unwrap(), vec![lib(Some("\"/a\""), None), lib(None, Some(vec!["1761390"]))]);
    assert_eq!(diva_folder_from_vdf(text), Some(String::new()));
    assert_eq!(read_libraries("\"key\" \"value\""), None);
    assert_eq!(read_libraries("{ not vdf"), None);
    assert_eq!(diva_folder_from_vdf("{ not vdf"), None);
    assert_eq!(libraries_file("/steam"), "/steam/config/libraryfolders.vdf");
}

#[test]
fn steam_folder_choices() {
    let home = Some("/home/u".to_string());
    assert_eq!(
        steam_folder_given(Some("/cfg".to_string()), "linux", None, false, false, None),
        Some("/cfg".to_string())
    );
    assert_eq!(
        steam_folder_given(None, "linux", home.clone(), true, true, None),
        Some("/home/u/.local/share/Steam".to_string())
    );
    assert_eq!(
        steam_folder_given(None, "linux", home.clone(), false, true, None),
        Some("/home/u/.var/app/com.valvesoftware.Steam/data/Steam".to_string())
    );
    assert_eq!(steam_folder_given(None, "linux", home.clone(), false, false, None), None);
    assert_eq!(
        steam_folder_given(None, "macos", home.clone(), false, false, None),
        Some("/home/u/Library/Application Support/Steam".to_string())
    );
    assert_eq!(steam_folder_given(None, "windows", None, false, false, None), None);
    assert_eq!(
        steam_folder_given(None, "windows", None, false, false, Some(None)),
        Some("C:\\Program Files (x86)\\Steam".to_string())
    );
    assert_eq!(
        steam_folder_given(None, "windows", None, true, false, Some(Some("D:\\Steam".to_string()))),
        Some("D:\\Steam".to_string())
    );
    assert_eq!(
        steam_folder_given(None, "windows", None, false, false, Some(Some("D:\\Steam".to_string()))),
        Some("C:\\Program Files (x86)\\Steam".to_string())
    );
    assert_eq!(steam_folder_given(None, "freebsd", home.clone(), true, true, None), None);
    assert_eq!(
        steam_folder(&"/nonexistent-r4d".to_string(), "linux", Some("/nonexistent-r4d".to_string()), None),
        None
    );
    assert_eq!(steam_folder(&"/tmp".to_string(), "linux", Some("/x".to_string()), None), Some("/tmp".to_string()));
}
