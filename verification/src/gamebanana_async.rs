use vstd::prelude::*;

use crate::pattern::{regex_captures, spec_regex_captures};
use crate::text::{concat, owned, spec_starts_with, starts_with};

verus! {

/// A file of a GameBanana mod, as the older item-data interface gives it.
#[derive(Debug, PartialEq)]
pub struct GbModDownload {
    pub id: u32,
    pub file: String,
    pub filesize: u32,
    pub description: String,
    pub date_added: u32,
    pub download_count: u32,
    pub md5_checksum: String,
    pub download_url: String,
    pub clam_av_result: String,
    pub avast_av_result: String,
    pub analysis_state: String,
    pub analysis_result: String,
    pub analysis_result_code: String,
    pub contains_exe: bool,
}

/// A GameBanana mod as the older item-data interface gives it: name, files and text.
#[derive(Debug, PartialEq)]
pub struct GBMod {
    pub name: String,
    pub files: Vec<GbModDownload>,
    pub text: String,
}

/// The submitter of a GameBanana mod (older search interface).
#[derive(Debug, PartialEq)]
pub struct GbSubmitter {
    pub id: u64,
    pub name: String,
    pub is_online: bool,
    pub has_ripe: bool,
    pub profile_url: String,
    pub avatar_rl: String,
    pub upic_url: String,
}

/// A preview picture (older search interface).
#[derive(Debug, PartialEq)]
pub struct GbPreviewImage {
    pub img_type: String,
    pub base_url: String,
    pub file: String,
}

/// The preview pictures of a mod (older search interface).
#[derive(Debug, PartialEq)]
pub struct GbPreview {
    pub images: Vec<GbPreviewImage>,
}

/// A search result of the older search interface.
#[derive(Debug, PartialEq)]
pub struct GBSearch {
    pub id: u64,
    pub model_name: String,
    pub title: String,
    pub icon_classes: String,
    pub name: String,
    pub profile_url: String,
    pub date_added: u64,
    pub has_files: bool,
    pub submitter: GbSubmitter,
    pub date_updated: u64,
    pub is_nsfw: bool,
    pub initial_visibility: String,
    pub like_count: i32,
    pub post_count: i32,
    pub was_featured: bool,
    pub view_count: i32,
    pub is_owned_by_accessor: bool,
    pub preview_media: GbPreview,
}

/// What a one-click link names, as the older reader takes it apart (all as text).
#[derive(Debug, PartialEq)]
pub struct GbDmmItem {
    pub item_id: String,
    pub itemtype: String,
    pub file_id: String,
}

/// What the older reader makes of a one-click link: none unless it is a GameBanana link
/// and the pattern matches; then the item id is the whole match, the item type is the first
/// group and the file id the second (as the older reader numbered them).
pub open spec fn spec_parse_dmm_url(url: Seq<char>) -> Option<(Seq<char>, Seq<char>, Seq<char>)> {
    if !spec_starts_with(url, "divamodmanager:https://gamebanana.com/mmdl/"@) {
        None
    } else {
        match spec_regex_captures("([0-9]+),(.+),([0-9]+)"@, url) {
            Some(g) => if g.len() >= 3 && g[0] is Some && g[1] is Some && g[2] is Some {
                Some((g[0]->0, g[1]->0, g[2]->0))
            } else {
                None
            },
            None => None,
        }
    }
}

/// Takes a one-click link apart the older way.
pub fn parse_dmm_url(dmm_url: String) -> (r: Option<GbDmmItem>)
    ensures
        match r {
            Some(item) => spec_parse_dmm_url(dmm_url@) == Some(
                (item.item_id@, item.itemtype@, item.file_id@),
            ),
            None => spec_parse_dmm_url(dmm_url@) is None,
        },
{
    if !starts_with(dmm_url.as_str(), "divamodmanager:https://gamebanana.com/mmdl/") {
        return None;
    }
    let caps = regex_captures("([0-9]+),(.+),([0-9]+)", dmm_url.as_str());
    match caps {
        Some(g) => {
            if g.len() < 3 {
                return None;
            }
            proof {
                assert(g.deep_view()[0] == g@[0].deep_view());
                assert(g.deep_view()[1] == g@[1].deep_view());
                assert(g.deep_view()[2] == g@[2].deep_view());
            }
            match (&g[0], &g[1], &g[2]) {
                (Some(a), Some(b), Some(c)) => Some(
                    GbDmmItem { item_id: a.clone(), itemtype: b.clone(), file_id: c.clone() },
                ),
                _ => None,
            }
        },
        None => None,
    }
}

/// The address of the older item-data interface for mod `mod_id`: its name and files.
pub fn mod_data_url(mod_id: &str) -> (r: Option<String>)
    ensures
        mod_id@.len() == 0 ==> r is None,
        mod_id@.len() != 0 ==> (r matches Some(u) && u@
            == "https://api.gamebanana.com/Core/Item/Data?itemid="@ + mod_id@
            + "&itemtype=Mod&fields=name,Files().aFiles()"@),
{
    if mod_id.is_empty() {
        return None;
    }
    let a = concat("https://api.gamebanana.com/Core/Item/Data?itemid=", mod_id);
    Some(concat(a.as_str(), "&itemtype=Mod&fields=name,Files().aFiles()"))
}

/// The query of the older search for `search`: fifty mods of Project DIVA Mega Mix+ whose
/// name matches.
pub fn search_query(search: String) -> (r: Vec<(String, String)>)
    ensures
        r@.len() == 3,
        r@[0].0@ == "_idGameRow"@ && r@[0].1@ == "16522"@,
        r@[1].0@ == "_sName"@ && r@[1].1@ == search@,
        r@[2].0@ == "_nPerpage"@ && r@[2].1@ == "50"@,
{
    let mut r: Vec<(String, String)> = Vec::new();
    r.push((owned("_idGameRow"), owned("16522")));
    r.push((owned("_sName"), search));
    r.push((owned("_nPerpage"), owned("50")));
    r
}

/// Whether a download of a file of `filesize` bytes went through: every chunk arrived and
/// was written (`all_good`), and at least `filesize` bytes came in.
pub fn download_complete(all_good: bool, downloaded: u64, filesize: u32) -> (r: bool)
    ensures
        r == (all_good && downloaded >= filesize),
{
    all_good && downloaded >= filesize as u64
}

} // verus!
