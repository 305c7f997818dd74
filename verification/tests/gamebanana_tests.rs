use rust4diva::gamebanana::{
    checked_parse_dmm_url, details_description, details_files, get_mod_url, mod_info_url,
    oneclick_downloads, parse_dmm_url, search_query, search_url, DmmUrlError, GBSearch,
    GbDmmItem, GbModDownload, GbPreview, GbPreviewImage, GbSearchSort, GbSubmitter,
};
use rust4diva::gamebanana_async;
use rust4diva::search::{Download, SearchModAuthor, SearchPreviewData, SearchProvider};

fn gb_file(id: i32, name: &str) -> GbModDownload {
    GbModDownload {
        id,
        file: name.to_string(),
        filesize: 1234,
        description: String::new(),
        date_added: 0,
        download_count: 0,
        download_url: format!("https://gamebanana.com/dl/{}", id),
        md5_checksum: String::new(),
        clam_av_result: String::new(),
        avast_av_result: String::new(),
        analysis_state: String::new(),
        analysis_result: String::new(),
        analysis_result_code: String::new(),
        contains_exe: false,
    }
}

fn submitter() -> GbSubmitter {
    GbSubmitter {
        id: 1,
        name: "Miku".to_string(),
        is_online: false,
        has_ripe: false,
        profile_url: String::new(),
        avatar_url: "https://img/miku.png".to_string(),
        upic_url: String::new(),
    }
}

fn search_result(date_added: i64, date_updated: i64) -> GBSearch {
    GBSearch {
        id: 512345,
        model_name: "Mod".to_string(),
        title: String::new(),
        icon_classes: String::new(),
        name: "Cool Mod".to_string(),
        profile_url: String::new(),
        date_added,
        has_files: true,
        submitter: submitter(),
        date_updated,
        is_nsfw: false,
        initial_visibility: String::new(),
        like_count: 0,
        post_count: 0,
        was_featured: false,
        view_count: 0,
        is_owned_by_accessor: false,
        preview_media: GbPreview {
            images: vec![GbPreviewImage {
                img_type: "screenshot".to_string(),
                base_url: "https://images.gamebanana.com/img/ss/mods".to_string(),
                file: "pic.jpg".to_string(),
            }],
        },
        files: vec![],
    }
}

#[test]
fn parse_dmm_url_reads_a_oneclick_link() {
    let item = parse_dmm_url("divamodmanager:https://gamebanana.com/mmdl/1234567,Mod,512345".to_string());
    assert_eq!(item, Some(GbDmmItem { item_id: 512345, itemtype: "Mod".to_string(), file_id: 1234567 }));
}

#[test]
fn parse_dmm_url_refuses_other_links() {
    assert_eq!(parse_dmm_url("https://gamebanana.com/mmdl/1,Mod,2".to_string()), None);
    assert_eq!(parse_dmm_url("divamodmanager:https://gamebanana.com/mmdl/garbage".to_string()), None);
    assert_eq!(parse_dmm_url("divamodmanager:dma/15".to_string()), None);
}

#[test]
fn checked_parse_dmm_url_refuses_ids_out_of_range() {
    assert_eq!(
        checked_parse_dmm_url("divamodmanager:https://gamebanana.com/mmdl/99999999999,Mod,1".to_string()),
        Err(DmmUrlError::IdOutOfRange)
    );
    assert_eq!(
        checked_parse_dmm_url("divamodmanager:https://gamebanana.com/mmdl/7,Mod,8".to_string()),
        Ok(Some(GbDmmItem { item_id: 8, itemtype: "Mod".to_string(), file_id: 7 }))
    );
    assert_eq!(checked_parse_dmm_url("nonsense".to_string()), Ok(None));
}

#[test]
fn old_parse_dmm_url_keeps_text_ids() {
    let item = gamebanana_async::parse_dmm_url("divamodmanager:https://gamebanana.com/mmdl/1234567,Mod,512345".to_string());
    assert_eq!(
        item,
        Some(gamebanana_async::GbDmmItem {
            item_id: "1234567,Mod,512345".to_string(),
            itemtype: "1234567".to_string(),
            file_id: "Mod".to_string(),
        })
    );
    assert_eq!(gamebanana_async::parse_dmm_url("https://example.com".to_string()), None);
    assert_eq!(gamebanana_async::mod_data_url(""), None);
    assert_eq!(
        gamebanana_async::mod_data_url("512345"),
        Some("https://api.gamebanana.com/Core/Item/Data?itemid=512345&itemtype=Mod&fields=name,Files().aFiles()".to_string())
    );
}

#[test]
fn request_addresses() {
    assert_eq!(get_mod_url(512345), "https://gamebanana.com/apiv11/Mod/512345/ProfilePage");
    assert_eq!(get_mod_url(-3), "https://gamebanana.com/apiv11/Mod/-3/ProfilePage");
    assert_eq!(mod_info_url(7), "https://gamebanana.com/apiv11/Mod/7?_csvProperties=_aFiles,_sText,_idRow,_sName,_aSubmitter");
    assert_eq!(search_url(), "https://gamebanana.com/apiv11/Util/Search/Results");
}

#[test]
fn search_query_fields() {
    let q = search_query("miku".to_string(), 2, 1);
    let expected: Vec<(String, String)> = [
        ("_sSearchString", "miku"),
        ("_nPage", "2"),
        ("_nPerpage", "30"),
        ("_sOrder", "popularity"),
        ("_idGameRow", "16522"),
        ("_sModelName", "Mod"),
    ]
    .iter()
    .map(|(a, b)| (a.to_string(), b.to_string()))
    .collect();
    assert_eq!(q, expected);
}

#[test]
fn sort_orders() {
    assert_eq!(GbSearchSort::from_index(1), GbSearchSort::Popularity("popularity".to_string()));
    assert_eq!(GbSearchSort::from_index(2).into_string(), "date");
    assert_eq!(GbSearchSort::from_index(3).into_string(), "udate");
    assert_eq!(GbSearchSort::from_index(0).into_string(), "best_match");
    assert_eq!(GbSearchSort::from_index(99), GbSearchSort::default());
}

#[test]
fn download_from_gb_file() {
    let d = Download::from_gb_file(gb_file(42, "cool.zip"));
    assert_eq!(
        d,
        Download {
            failed: false,
            id: "42".to_string(),
            inprogress: false,
            name: "cool.zip".to_string(),
            progress: 0,
            size: 1234,
            url: "https://gamebanana.com/dl/42".to_string(),
            provider: SearchProvider::GameBanana,
        }
    );
    let a = SearchModAuthor::from_submitter(submitter());
    assert_eq!(a.name, "Miku");
    assert_eq!(a.avatar_url, "https://img/miku.png");
}

#[test]
fn preview_from_search_result() {
    let p = SearchPreviewData::from_search(search_result(1700000000, 0));
    assert_eq!(p.image_url, "https://images.gamebanana.com/img/ss/mods/pic.jpg");
    assert_eq!(p.submitted, "14/11/2023 22:13");
    assert_eq!(p.updated, "Never");
    assert_eq!(p.id, 512345);
    assert_eq!(p.name, "Cool Mod");
    assert_eq!(p.item_type, "Mod");
    assert_eq!(p.author.name, "Miku");
    assert!(p.files.is_empty());
    assert_eq!(p.description, "");
    assert_eq!(p.provider, SearchProvider::GameBanana);
}

#[test]
fn checked_preview_refuses_dates_out_of_range() {
    assert!(SearchPreviewData::checked_from_search(search_result(i64::MAX, 0)).is_none());
    let p = SearchPreviewData::checked_from_search(search_result(0, 86400)).unwrap();
    assert_eq!(p.submitted, "Never");
    assert_eq!(p.updated, "02/01/1970 00:00");
}

#[test]
fn details_show_text_and_files() {
    assert_eq!(details_description(Some("a<br>b".to_string())), "a\nb");
    assert_eq!(details_description(None), "");
    let files = details_files(Some(vec![gb_file(1, "a.zip"), gb_file(2, "b.zip")]));
    assert_eq!(files.len(), 2);
    assert_eq!(files[1].id, "2");
    assert!(files.iter().all(|f| !f.inprogress));
    assert!(details_files(None).is_empty());
}

#[test]
fn oneclick_marks_the_requested_file() {
    let (files, pos) = oneclick_downloads(vec![gb_file(1, "a.zip"), gb_file(2, "b.zip"), gb_file(2, "c.zip")], 2);
    assert_eq!(pos, Some(1));
    assert_eq!(files.iter().map(|f| f.inprogress).collect::<Vec<_>>(), vec![false, true, true]);
    let (_, none) = oneclick_downloads(vec![gb_file(1, "a.zip")], 9);
    assert_eq!(none, None);
}

#[test]
fn old_search_query_and_download_check() {
    assert_eq!(
        gamebanana_async::search_query("miku".to_string()),
        vec![
            ("_idGameRow".to_string(), "16522".to_string()),
            ("_sName".to_string(), "miku".to_string()),
            ("_nPerpage".to_string(), "50".to_string()),
        ]
    );
    assert!(gamebanana_async::download_complete(true, 100, 100));
    assert!(gamebanana_async::download_complete(true, 101, 100));
    assert!(!gamebanana_async::download_complete(true, 99, 100));
    assert!(!gamebanana_async::download_complete(false, 100, 100));
}
