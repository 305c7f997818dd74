use rust4diva::divamodarchive::{
    oneclick_id_from_captures, parse_oneclick_url, post_url, search_query, search_url, Post, PostType, User,
};
use rust4diva::search::{SearchModAuthor, SearchPreviewData, SearchProvider};

fn user(name: &str) -> User {
    User { id: 1, name: name.to_lowercase(), avatar: format!("https://avatars/{}.png", name), display_name: name.to_string() }
}

fn post(authors: Vec<User>) -> Post {
    Post {
        id: 77,
        name: "Cool Song".to_string(),
        text: "Text".to_string(),
        images: vec!["https://img/1.png".to_string(), "https://img/2.png".to_string()],
        files: vec!["https://dl/a.7z".to_string(), "https://dl/b.7z".to_string(), "https://dl/c.7z".to_string()],
        time: "2024-01-01".to_string(),
        post_type: PostType::Song,
        download_count: 3,
        like_count: 4,
        authors,
        dependencies: None,
        file_names: vec!["a.7z".to_string(), "b.7z".to_string()],
    }
}

#[test]
fn post_types_from_numbers() {
    assert_eq!(PostType::from(0), PostType::Plugin);
    assert_eq!(PostType::from(1), PostType::Module);
    assert_eq!(PostType::from(2), PostType::Song);
    assert_eq!(PostType::from(3), PostType::Cover);
    assert_eq!(PostType::from(4), PostType::Ui);
    assert_eq!(PostType::from(5), PostType::Other);
    assert_eq!(PostType::from(-1), PostType::Other);
    assert_eq!(PostType::Song.to_string(), "Song");
    assert_eq!(PostType::Ui.to_string(), "UI");
}

#[test]
fn preview_from_post() {
    let p = SearchPreviewData::from_post(post(vec![user("Rin"), user("Len")]));
    assert_eq!(p.author, SearchModAuthor { name: "Rin".to_string(), avatar_url: "https://avatars/Rin.png".to_string() });
    assert_eq!(p.image_url, "https://img/1.png");
    assert_eq!(p.files.len(), 2);
    assert_eq!(p.files[0].id, "77");
    assert_eq!(p.files[1].id, (77i64 | (1i64 << 32)).to_string());
    assert_eq!(p.files[1].name, "b.7z");
    assert_eq!(p.files[1].url, "https://dl/b.7z");
    assert_eq!(p.files[1].provider, SearchProvider::DivaModArchive);
    assert_eq!(p.item_type, "Song");
    assert_eq!(p.submitted, "2024-01-01");
    assert_eq!(p.updated, "2024-01-01");
    assert_eq!(p.description, "Text");
    assert_eq!(p.id, 77);
}

#[test]
fn preview_of_post_without_authors() {
    let mut raw = post(vec![]);
    raw.images = vec![];
    let p = SearchPreviewData::from_post(raw);
    assert_eq!(p.author.name, "Unknown");
    assert_eq!(p.author.avatar_url, "sadjim.png");
    assert_eq!(p.image_url, "");
}

#[test]
fn file_ids_of_one_post_differ() {
    let p = SearchPreviewData::from_post(post(vec![]));
    assert_ne!(p.files[0].id, p.files[1].id);
}

#[test]
fn oneclick_url_gives_post_id() {
    assert_eq!(parse_oneclick_url("divamodmanager:dma/1234".to_string()), Some("1234".to_string()));
    assert_eq!(parse_oneclick_url("divamodmanager:dma/".to_string()), None);
    assert_eq!(parse_oneclick_url("https://example.com".to_string()), None);
}

#[test]
fn archive_addresses() {
    assert_eq!(search_url(), "https://divamodarchive.com/api/v1/posts");
    assert_eq!(post_url("15"), "https://divamodarchive.com/api/v1/posts/15");
    assert_eq!(
        search_query("miku".to_string()),
        vec![("query".to_string(), "miku".to_string()), ("limit".to_string(), "2000".to_string())]
    );
}

#[test]
fn oneclick_id_is_group_one() {
    let caps = Some(vec![Some("divamodmanager:dma/15".to_string()), Some("15".to_string())]);
    assert_eq!(oneclick_id_from_captures(&caps), Some("15".to_string()));
    assert_eq!(oneclick_id_from_captures(&Some(vec![Some("x".to_string()), None])), None);
    assert_eq!(oneclick_id_from_captures(&Some(vec![Some("x".to_string())])), None);
    assert_eq!(oneclick_id_from_captures(&None), None);
}
