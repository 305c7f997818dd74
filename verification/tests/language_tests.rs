use rust4diva::language::{localize, merge_translations, parse_lang, Langs};
use rust4diva::strmap::StrMap;

#[test]
fn strmap_insert_overwrites_and_keeps_order() {
    let mut m: StrMap<String> = StrMap::new();
    assert_eq!(m.len(), 0);
    m.insert("b".to_string(), "1".to_string());
    m.insert("a".to_string(), "2".to_string());
    m.insert("b".to_string(), "3".to_string());
    assert_eq!(m.len(), 2);
    assert!(m.contains_key("a"));
    assert!(!m.contains_key("c"));
    assert_eq!(m.get("b"), Some(&"3".to_string()));
    assert_eq!(m.get("c"), None);
    let (k0, v0) = m.entry_at(0);
    assert_eq!((k0.as_str(), v0.as_str()), ("b", "3"));
    let (k1, _) = m.entry_at(1);
    assert_eq!(k1, "a");
}

#[test]
fn parse_lang_reads_key_value_lines() {
    let m = parse_lang("hello=Hola\nbye=Adios=Chao\nno separator\r\nhello=Buenas\r\n".to_string());
    assert_eq!(m.len(), 2);
    assert_eq!(m.get("hello"), Some(&"Buenas".to_string()));
    assert_eq!(m.get("bye"), Some(&"Adios=Chao".to_string()));
    assert_eq!(m.get("no separator"), None);
}

#[test]
fn parse_lang_of_empty_text_is_empty() {
    assert_eq!(parse_lang(String::new()).len(), 0);
}

#[test]
fn user_translation_wins_over_builtin() {
    let defaults = parse_lang("title=Mods\nsave=Save".to_string());
    let user = parse_lang("title=My Mods\nextra=More".to_string());
    let dict = merge_translations(defaults, &user);
    assert_eq!(dict.get("title"), Some(&"My Mods".to_string()));
    assert_eq!(dict.get("save"), Some(&"Save".to_string()));
    assert_eq!(dict.get("extra"), Some(&"More".to_string()));
    assert_eq!(dict.len(), 3);
}

#[test]
fn localize_falls_back_to_english_then_key() {
    let dict = parse_lang("a=ja-a".to_string());
    let english = parse_lang("a=en-a\nb=en-b".to_string());
    assert_eq!(localize(&dict, &english, "a"), "ja-a");
    assert_eq!(localize(&dict, &english, "b"), "en-b");
    assert_eq!(localize(&dict, &english, "c"), "c");
}

#[test]
fn langs_codes_names_and_numbers() {
    assert_eq!(Langs::iter(), vec![Langs::EnUS, Langs::EnLT, Langs::JaJP, Langs::EsPR, Langs::ZhCN]);
    assert_eq!(Langs::JaJP.as_code(), "jaJP");
    assert_eq!(Langs::EsPR.to_string(), "español");
    assert_eq!(Langs::ZhCN.to_string(), "简体中文");
    assert_eq!(Langs::JaJP.to_string(), "日本語");
    assert_eq!(Langs::EnLT.to_string(), "1337");
    assert_eq!(Langs::EnUS.to_string(), "English");
    assert_eq!(Langs::from(1), Langs::JaJP);
    assert_eq!(Langs::from(2), Langs::EsPR);
    assert_eq!(Langs::from(3), Langs::ZhCN);
    assert_eq!(Langs::from(1337), Langs::EnLT);
    assert_eq!(Langs::from(0), Langs::EnUS);
    assert_eq!(Langs::from(-4), Langs::EnUS);
    assert_eq!(Langs::from_code("zhCN"), Some(Langs::ZhCN));
    assert_eq!(Langs::from_code("frFR"), None);
    for l in Langs::iter() {
        assert_eq!(Langs::from_code(&l.as_code()), Some(l));
    }
}

#[test]
fn strmap_remove_keeps_other_keys_in_order() {
    let mut m: StrMap<String> = StrMap::new();
    m.insert("a".to_string(), "1".to_string());
    m.insert("b".to_string(), "2".to_string());
    m.insert("c".to_string(), "3".to_string());
    assert_eq!(m.remove("b"), Some("2".to_string()));
    assert_eq!(m.len(), 2);
    assert_eq!(m.entry_at(0).0, "a");
    assert_eq!(m.entry_at(1).0, "c");
    assert_eq!(m.remove("b"), None);
    assert_eq!(m.len(), 2);
    assert!(!m.contains_key("b"));
    assert_eq!(m.get("c"), Some(&"3".to_string()));
}
