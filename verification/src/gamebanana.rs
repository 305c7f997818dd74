use vstd::prelude::*;

use std::fmt::Write;

use crate::pattern::{regex_captures, spec_regex_captures};
use crate::search::{Download, SearchModAuthor, SearchPreviewData, SearchProvider};
use crate::text::{
    concat, i64_to_string, owned, parse_i32, replace, spec_int_string, spec_parse_i32,
    spec_replace, spec_starts_with, starts_with,
};

verus! {

/// A file of a GameBanana mod.
#[derive(Debug, PartialEq)]
pub struct GbModDownload {
    pub id: i32,
    pub file: String,
    pub filesize: u32,
    pub description: String,
    pub date_added: u32,
    pub download_count: u32,
    pub md5_checksum: String,
    pub download_url: String,
    pub clam_av_result: String,
    pub avast_av_result: String,
    pub analysis_state: String,
    pub analysis_result: String,
    pub analysis_result_code: String,
    pub contains_exe: bool,
}

/// The submitter of a GameBanana mod.
#[derive(Debug, PartialEq)]
pub struct GbSubmitter {
    pub id: u64,
    pub name: String,
    pub is_online: bool,
    pub has_ripe: bool,
    pub profile_url: String,
    pub avatar_url: String,
    pub upic_url: String,
}

/// A GameBanana mod's details.
#[derive(Debug, PartialEq)]
pub struct GbMod {
    pub name: String,
    pub files: Option<Vec<GbModDownload>>,
    pub text: Option<String>,
    pub submitter: Option<GbSubmitter>,
}

/// A preview picture of a GameBanana mod.
#[derive(Debug, PartialEq)]
pub struct GbPreviewImage {
    pub img_type: String,
    pub base_url: String,
    pub file: String,
}

/// The preview pictures of a GameBanana mod.
#[derive(Debug, PartialEq)]
pub struct GbPreview {
    pub images: Vec<GbPreviewImage>,
}

/// A GameBanana search result.
#[derive(Debug, PartialEq)]
pub struct GBSearch {
    pub id: u64,
    pub model_name: String,
    pub title: String,
    pub icon_classes: String,
    pub name: String,
    pub profile_url: String,
    pub date_added: i64,
    pub has_files: bool,
    pub submitter: GbSubmitter,
    pub date_updated: i64,
    pub is_nsfw: bool,
    pub initial_visibility: String,
    pub like_count: i32,
    pub post_count: i32,
    pub was_featured: bool,
    pub view_count: i32,
    pub is_owned_by_accessor: bool,
    pub preview_media: GbPreview,
    pub files: Vec<GbModDownload>,
}

/// The counts that come with GameBanana search results.
#[derive(Debug, PartialEq)]
pub struct GbMetadata {
    pub record_count: i32,
    pub perpage: i32,
    pub is_complete: bool,
}

/// A page of GameBanana search results.
#[derive(Debug, PartialEq)]
pub struct GbSearchResults {
    pub metadata: GbMetadata,
    pub records: Vec<GBSearch>,
}

/// What a one-click install link names: the file to install, and the mod it belongs to.
#[derive(Debug, PartialEq)]
pub struct GbDmmItem {
    pub item_id: i32,
    pub itemtype: String,
    pub file_id: i32,
}

/// The order of GameBanana search results, with the value the search request sends.
#[derive(Debug, PartialEq)]
pub enum GbSearchSort {
    Relevance(String),
    Popularity(String),
    Newest(String),
    Updated(String),
}

/// The order value that the sort menu's entry `value` sends: 1 popularity, 2 newest,
/// 3 last updated, anything else best match.
pub open spec fn spec_sort_order(value: i32) -> Seq<char> {
    if value == 1 {
        "popularity"@
    } else if value == 2 {
        "date"@
    } else if value == 3 {
        "udate"@
    } else {
        "best_match"@
    }
}

impl Default for GbSearchSort {
    fn default() -> (r: Self)
        ensures
            r matches GbSearchSort::Relevance(s) && s@ == "best_match"@,
    {
        GbSearchSort::Relevance(owned("best_match"))
    }
}

impl GbSearchSort {
    /// The sort order for the sort menu's entry `value`.
    pub fn from_index(value: i32) -> (r: Self)
        ensures
            r.spec_order() == spec_sort_order(value),
            value == 1 ==> r is Popularity,
            value == 2 ==> r is Newest,
            value == 3 ==> r is Updated,
            value != 1 && value != 2 && value != 3 ==> r is Relevance,
    {
        if value == 1 {
            GbSearchSort::Popularity(owned("popularity"))
        } else if value == 2 {
            GbSearchSort::Newest(owned("date"))
        } else if value == 3 {
            GbSearchSort::Updated(owned("udate"))
        } else {
            GbSearchSort::default()
        }
    }

    /// The value that the search request sends for this order.
    pub open spec fn spec_order(&self) -> Seq<char> {
        match self {
            GbSearchSort::Relevance(s) => s@,
            GbSearchSort::Popularity(s) => s@,
            GbSearchSort::Newest(s) => s@,
            GbSearchSort::Updated(s) => s@,
        }
    }

    /// The value that the search request sends for this order.
    pub fn into_string(self) -> (r: String)
        ensures
            r@ == self.spec_order(),
    {
        match self {
            GbSearchSort::Relevance(s) => s,
            GbSearchSort::Popularity(s) => s,
            GbSearchSort::Newest(s) => s,
            GbSearchSort::Updated(s) => s,
        }
    }
}

// ---------------------------------------------------------------------------------------
// One-click install links
// ---------------------------------------------------------------------------------------

/// The start of every GameBanana one-click install link.
pub open spec fn spec_dmm_prefix() -> Seq<char> {
    "divamodmanager:https://gamebanana.com/mmdl/"@
}

/// The pattern that picks the file id, item type and mod id out of a one-click link.
pub open spec fn spec_dmm_pattern() -> Seq<char> {
    "([0-9]+),(.+),([0-9]+)"@
}

/// Whether the capture groups `caps` hold groups 1 to 3.
pub open spec fn spec_has_dmm_groups(caps: Seq<Option<Seq<char>>>) -> bool {
    caps.len() >= 4 && caps[1] is Some && caps[2] is Some && caps[3] is Some
}

/// Whether the two ids among the capture groups `caps` read as `i32` numbers, where those
/// groups are there (a link whose ids do not fit cannot be handled).
pub open spec fn spec_dmm_ids_fit(caps: Option<Seq<Option<Seq<char>>>>) -> bool {
    match caps {
        Some(g) => spec_has_dmm_groups(g) ==> spec_parse_i32(g[1]->0) is Some && spec_parse_i32(
            g[3]->0,
        ) is Some,
        None => true,
    }
}

/// The item that the capture groups `caps` of a one-click link name: file id from group 1,
/// item type from group 2, mod id from group 3.
pub open spec fn spec_dmm_item(caps: Option<Seq<Option<Seq<char>>>>) -> Option<
    (i32, Seq<char>, i32),
> {
    match caps {
        Some(g) => if spec_has_dmm_groups(g) {
            Some((spec_parse_i32(g[1]->0)->0, g[2]->0, spec_parse_i32(g[3]->0)->0))
        } else {
            None
        },
        None => None,
    }
}

/// The item that the capture groups of a one-click link name.
pub fn dmm_item_from_captures(caps: &Option<Vec<Option<String>>>) -> (r: Option<GbDmmItem>)
    requires
        spec_dmm_ids_fit(caps.deep_view()),
    ensures
        match r {
            Some(item) => spec_dmm_item(caps.deep_view()) == Some(
                (item.file_id, item.itemtype@, item.item_id),
            ),
            None => spec_dmm_item(caps.deep_view()) is None,
        },
{
    match caps {
        Some(g) => {
            if g.len() < 4 {
                return None;
            }
            proof {
                assert(g.deep_view()[1] == g@[1].deep_view());
                assert(g.deep_view()[2] == g@[2].deep_view());
                assert(g.deep_view()[3] == g@[3].deep_view());
            }
            match (&g[1], &g[2], &g[3]) {
                (Some(a), Some(t), Some(b)) => {
                    let file_id = match parse_i32(a.as_str()) {
                        Some(x) => x,
                        None => return None,
                    };
                    let item_id = match parse_i32(b.as_str()) {
                        Some(x) => x,
                        None => return None,
                    };
                    Some(GbDmmItem { item_id, itemtype: t.clone(), file_id })
                },
                _ => None,
            }
        },
        None => None,
    }
}

/// The item that the one-click link `url` names, as `spec_dmm_item` reads it; none when
/// `url` is no GameBanana one-click link.
pub open spec fn spec_parse_dmm_url(url: Seq<char>) -> Option<(i32, Seq<char>, i32)> {
    if !spec_starts_with(url, spec_dmm_prefix()) {
        None
    } else {
        spec_dmm_item(spec_regex_captures(spec_dmm_pattern(), url))
    }
}

/// Reads a GameBanana one-click install link.
pub fn parse_dmm_url(dmm_url: String) -> (r: Option<GbDmmItem>)
    requires
        spec_starts_with(dmm_url@, spec_dmm_prefix()) ==> spec_dmm_ids_fit(
            spec_regex_captures(spec_dmm_pattern(), dmm_url@),
        ),
    ensures
        match r {
            Some(item) => spec_parse_dmm_url(dmm_url@) == Some(
                (item.file_id, item.itemtype@, item.item_id),
            ),
            None => spec_parse_dmm_url(dmm_url@) is None,
        },
{
    if !starts_with(dmm_url.as_str(), "divamodmanager:https://gamebanana.com/mmdl/") {
        return None;
    }
    let caps = regex_captures("([0-9]+),(.+),([0-9]+)", dmm_url.as_str());
    dmm_item_from_captures(&caps)
}

/// Why a one-click link could not be read.
#[derive(Debug, PartialEq, Eq, Clone, Copy)]
pub enum DmmUrlError {
    /// A number in the link does not fit an `i32`.
    IdOutOfRange,
}

/// Reads a GameBanana one-click install link, refusing one whose ids do not fit an `i32`
/// (which `parse_dmm_url` cannot take).
pub fn checked_parse_dmm_url(dmm_url: String) -> (r: Result<Option<GbDmmItem>, DmmUrlError>)
    ensures
        match r {
            Ok(Some(item)) => spec_parse_dmm_url(dmm_url@) == Some(
                (item.file_id, item.itemtype@, item.item_id),
            ),
            Ok(None) => spec_parse_dmm_url(dmm_url@) is None,
            Err(_) => spec_starts_with(dmm_url@, spec_dmm_prefix()) && !spec_dmm_ids_fit(
                spec_regex_captures(spec_dmm_pattern(), dmm_url@),
            ),
        },
{
    if starts_with(dmm_url.as_str(), "divamodmanager:https://gamebanana.com/mmdl/") {
        let caps = regex_captures("([0-9]+),(.+),([0-9]+)", dmm_url.as_str());
        if !dmm_ids_fit(&caps) {
            return Err(DmmUrlError::IdOutOfRange);
        }
    }
    Ok(parse_dmm_url(dmm_url))
}

fn dmm_ids_fit(caps: &Option<Vec<Option<String>>>) -> (r: bool)
    ensures
        r == spec_dmm_ids_fit(caps.deep_view()),
{
    match caps {
        Some(g) => {
            if g.len() < 4 {
                return true;
            }
            proof {
                assert(g.deep_view()[1] == g@[1].deep_view());
                assert(g.deep_view()[2] == g@[2].deep_view());
                assert(g.deep_view()[3] == g@[3].deep_view());
            }
            match (&g[1], &g[2], &g[3]) {
                (Some(a), Some(_), Some(b)) => parse_i32(a.as_str()).is_some() && parse_i32(
                    b.as_str(),
                ).is_some(),
                _ => true,
            }
        },
        None => true,
    }
}

// ---------------------------------------------------------------------------------------
// Requests
// ---------------------------------------------------------------------------------------

/// The address of the page that describes mod `id`.
pub fn get_mod_url(id: i32) -> (r: String)
    ensures
        r@ == "https://gamebanana.com/apiv11/Mod/"@ + spec_int_string(id as int)
            + "/ProfilePage"@,
{
    let n = i64_to_string(id as i64);
    let a = concat("https://gamebanana.com/apiv11/Mod/", n.as_str());
    concat(a.as_str(), "/ProfilePage")
}

/// The address that gives the files, text, id, name and submitter of mod `mod_id`.
pub fn mod_info_url(mod_id: i32) -> (r: String)
    ensures
        r@ == "https://gamebanana.com/apiv11/Mod/"@ + spec_int_string(mod_id as int)
            + "?_csvProperties=_aFiles,_sText,_idRow,_sName,_aSubmitter"@,
{
    let n = i64_to_string(mod_id as i64);
    let a = concat("https://gamebanana.com/apiv11/Mod/", n.as_str());
    concat(a.as_str(), "?_csvProperties=_aFiles,_sText,_idRow,_sName,_aSubmitter")
}

/// The address of the search.
pub fn search_url() -> (r: String)
    ensures
        r@ == "https://gamebanana.com/apiv11/Util/Search/Results"@,
{
    owned("https://gamebanana.com/apiv11/Util/Search/Results")
}

/// The query of a search for `search` on page `page` in the sort menu's order `sort`:
/// thirty mods of Project DIVA Mega Mix+ per page.
pub fn search_query(search: String, page: i32, sort: i32) -> (r: Vec<(String, String)>)
    ensures
        r@.len() == 6,
        r@[0].0@ == "_sSearchString"@ && r@[0].1@ == search@,
        r@[1].0@ == "_nPage"@ && r@[1].1@ == spec_int_string(page as int),
        r@[2].0@ == "_nPerpage"@ && r@[2].1@ == "30"@,
        r@[3].0@ == "_sOrder"@ && r@[3].1@ == spec_sort_order(sort),
        r@[4].0@ == "_idGameRow"@ && r@[4].1@ == "16522"@,
        r@[5].0@ == "_sModelName"@ && r@[5].1@ == "Mod"@,
{
    let mut r: Vec<(String, String)> = Vec::new();
    r.push((owned("_sSearchString"), search));
    r.push((owned("_nPage"), i64_to_string(page as i64)));
    r.push((owned("_nPerpage"), owned("30")));
    r.push((owned("_sOrder"), GbSearchSort::from_index(sort).into_string()));
    r.push((owned("_idGameRow"), owned("16522")));
    r.push((owned("_sModelName"), owned("Mod")));
    r
}

// ---------------------------------------------------------------------------------------
// What the pages show
// ---------------------------------------------------------------------------------------

impl Download {
    /// The downloads-list entry for a GameBanana file: not started, keyed by the file id.
    pub fn from_gb_file(value: GbModDownload) -> (r: Self)
        ensures
            !r.failed,
            r.id@ == spec_int_string(value.id as int),
            !r.inprogress,
            r.name@ == value.file@,
            r.progress == 0,
            r.size == value.filesize as i32,
            r.url@ == value.download_url@,
            r.provider == SearchProvider::GameBanana,
    {
        Download {
            failed: false,
            id: i64_to_string(value.id as i64),
            inprogress: false,
            name: value.file,
            progress: 0,
            size: value.filesize as i32,
            url: value.download_url,
            provider: SearchProvider::GameBanana,
        }
    }
}

impl SearchModAuthor {
    /// The author shown for a GameBanana submitter.
    pub fn from_submitter(submitter: GbSubmitter) -> (r: Self)
        ensures
            r.name@ == submitter.name@,
            r.avatar_url@ == submitter.avatar_url@,
    {
        SearchModAuthor { name: submitter.name, avatar_url: submitter.avatar_url }
    }
}

/// The date and time of the Unix timestamp `timestamp` (in UTC) written as `format` says,
/// or `None` when the timestamp is out of range.
pub uninterp spec fn spec_utc_format(timestamp: i64, format: Seq<char>) -> Option<Seq<char>>;

/// The date and time of a Unix timestamp, in UTC, written as `format` says.
///
/// Trusted: `chrono::DateTime::<Utc>::from_timestamp` and `DateTime::format`; claims only
/// that the text is `spec_utc_format` of the arguments (named, not spelled out).
#[verifier::external_body]
fn format_utc_timestamp(timestamp: i64, format: &str) -> (r: Option<String>)
    ensures
        r.deep_view() == spec_utc_format(timestamp, format@),
{
    let date = chrono::DateTime::<chrono::Utc>::from_timestamp(timestamp, 0)?;
    let mut out = String::new();
    write!(out, "{}", date.format(format)).ok()?;
    Some(out)
}

/// The format of the dates that the search page shows.
pub open spec fn spec_date_format() -> Seq<char> {
    "%d/%m/%Y %H:%M"@
}

/// How the search page shows the timestamp `ts`: `Never` for 0, else its date and time.
pub open spec fn spec_shown_date(ts: i64) -> Seq<char> {
    if ts == 0 {
        "Never"@
    } else {
        spec_utc_format(ts, spec_date_format())->0
    }
}

/// Whether the search page can show the timestamp `ts` (0, or a date in range).
pub open spec fn spec_date_shown(ts: i64) -> bool {
    ts != 0 ==> spec_utc_format(ts, spec_date_format()) is Some
}

fn shown_date(ts: i64) -> (r: String)
    requires
        spec_date_shown(ts),
    ensures
        r@ == spec_shown_date(ts),
{
    if ts == 0 {
        owned("Never")
    } else {
        match format_utc_timestamp(ts, "%d/%m/%Y %H:%M") {
            Some(s) => s,
            None => String::new(),
        }
    }
}

/// Whether `r` is how the search page shows the GameBanana search result `value`: its
/// first preview picture, the dates it was added and updated, its author, type and name; no
/// files yet and no description.
pub open spec fn spec_search_preview(value: GBSearch, r: SearchPreviewData) -> bool {
    &&& r.image_url@ == if value.preview_media.images@.len() > 0 {
        value.preview_media.images@[0].base_url@ + "/"@ + value.preview_media.images@[0].file@
    } else {
        Seq::<char>::empty()
    }
    &&& r.updated@ == spec_shown_date(value.date_updated)
    &&& r.submitted@ == spec_shown_date(value.date_added)
    &&& r.author.name@ == value.submitter.name@
    &&& r.author.avatar_url@ == value.submitter.avatar_url@
    &&& r.id == value.id as i32
    &&& r.item_type@ == value.model_name@
    &&& r.name@ == value.name@
    &&& !r.image_loaded
    &&& !r.preloaded
    &&& r.files@.len() == 0
    &&& r.description@ == Seq::<char>::empty()
    &&& r.provider == SearchProvider::GameBanana
}

impl SearchPreviewData {
    /// How the search page shows a GameBanana search result (see `spec_search_preview`).
    pub fn from_search(value: GBSearch) -> (r: Self)
        requires
            spec_date_shown(value.date_added),
            spec_date_shown(value.date_updated),
        ensures
            spec_search_preview(value, r),
    {
        let image_url = if value.preview_media.images.len() > 0 {
            let img = &value.preview_media.images[0];
            let a = concat(img.base_url.as_str(), "/");
            concat(a.as_str(), img.file.as_str())
        } else {
            String::new()
        };
        let updated = shown_date(value.date_updated);
        let submitted = shown_date(value.date_added);
        SearchPreviewData {
            author: SearchModAuthor::from_submitter(value.submitter),
            files: Vec::new(),
            id: value.id as i32,
            image_loaded: false,
            image_url,
            item_type: value.model_name,
            name: value.name,
            submitted,
            updated,
            description: String::new(),
            preloaded: false,
            provider: SearchProvider::GameBanana,
        }
    }

    /// How the search page shows a GameBanana search result, or `None` when one of its
    /// dates is out of the range that can be shown.
    pub fn checked_from_search(value: GBSearch) -> (r: Option<Self>)
        ensures
            r is Some <==> spec_date_shown(value.date_added) && spec_date_shown(value.date_updated),
            r matches Some(d) ==> spec_search_preview(value, d),
    {
        if value.date_added != 0 {
            if format_utc_timestamp(value.date_added, "%d/%m/%Y %H:%M").is_none() {
                return None;
            }
        }
        if value.date_updated != 0 {
            if format_utc_timestamp(value.date_updated, "%d/%m/%Y %H:%M").is_none() {
                return None;
            }
        }
        Some(SearchPreviewData::from_search(value))
    }
}

/// The description that the details window shows for a mod's text: line breaks written as
/// `<br>` become real ones; a mod without text shows nothing.
pub fn details_description(text: Option<String>) -> (r: String)
    ensures
        r@ == match text {
            Some(t) => spec_replace(t@, "<br>"@, "\n"@),
            None => spec_replace(Seq::empty(), "<br>"@, "\n"@),
        },
{
    let t = match text {
        Some(t) => t,
        None => String::new(),
    };
    proof {
        reveal_strlit("<br>");
    }
    replace(t.as_str(), "<br>", "\n")
}

/// The files that a mod's details list, as downloads-list entries.
pub fn details_files(files: Option<Vec<GbModDownload>>) -> (r: Vec<Download>)
    ensures
        r@.len() == match files {
            Some(f) => f@.len(),
            None => 0,
        },
        forall|i: int| 0 <= i < r@.len() ==> spec_download_for(#[trigger] r@[i], files->0@[i], None),
{
    match files {
        Some(f) => downloads_of(f, None).0,
        None => Vec::new(),
    }
}

/// Whether `d` is the downloads-list entry for file `f`: keyed by the file id, with its
/// name, size and address, not started, and marked as in progress when it is the file
/// `file_id` that a one-click link asked for.
pub open spec fn spec_download_for(d: Download, f: GbModDownload, file_id: Option<i32>) -> bool {
    &&& d.id@ == spec_int_string(f.id as int)
    &&& d.inprogress == (file_id == Some(f.id))
    &&& d.url@ == f.download_url@
    &&& d.name@ == f.file@
    &&& d.size == f.filesize as i32
    &&& d.progress == 0
    &&& !d.failed
    &&& d.provider == SearchProvider::GameBanana
}

/// The downloads-list entries for the files of a mod opened from a one-click link: the
/// file with id `file_id` is marked as in progress, and its position (the first such file)
/// is returned so that its download can start.
pub fn oneclick_downloads(files: Vec<GbModDownload>, file_id: i32) -> (r: (Vec<Download>, Option<usize>))
    ensures
        r.0@.len() == files@.len(),
        forall|i: int|
            0 <= i < files@.len() ==> spec_download_for(#[trigger] r.0@[i], files@[i], Some(file_id)),
        match r.1 {
            Some(k) => k < files@.len() && files@[k as int].id == file_id && forall|j: int|
                0 <= j < k ==> files@[j].id != file_id,
            None => forall|j: int| 0 <= j < files@.len() ==> files@[j].id != file_id,
        },
{
    downloads_of(files, Some(file_id))
}

fn downloads_of(files: Vec<GbModDownload>, file_id: Option<i32>) -> (r: (Vec<Download>, Option<usize>))
    ensures
        r.0@.len() == files@.len(),
        forall|i: int| 0 <= i < files@.len() ==> spec_download_for(#[trigger] r.0@[i], files@[i], file_id),
        match r.1 {
            Some(k) => k < files@.len() && file_id == Some(files@[k as int].id) && forall|j: int|
                0 <= j < k ==> file_id != Some(files@[j].id),
            None => forall|j: int| 0 <= j < files@.len() ==> file_id != Some(files@[j].id),
        },
{
    let ghost orig = files@;
    let mut rest = files;
    let mut out: Vec<Download> = Vec::new();
    let mut first: Option<usize> = None;
    let mut taken: usize = 0;
    let n = rest.len();
    while rest.len() > 0
        invariant
            taken + rest@.len() == n,
            n == orig.len(),
            rest@ == orig.subrange(taken as int, n as int),
            out@.len() == taken,
            forall|i: int| 0 <= i < taken ==> spec_download_for(#[trigger] out@[i], orig[i], file_id),
            match first {
                Some(k) => k < taken && file_id == Some(orig[k as int].id) && forall|j: int|
                    0 <= j < k ==> file_id != Some(orig[j].id),
                None => forall|j: int| 0 <= j < taken ==> file_id != Some(orig[j].id),
            },
        decreases rest.len(),
    {
        let f = rest.remove(0);
        assert(f == orig[taken as int]);
        let hit = match file_id {
            Some(x) => f.id == x,
            None => false,
        };
        let mut d = Download::from_gb_file(f);
        if hit {
            d.inprogress = true;
            if first.is_none() {
                first = Some(taken);
            }
        }
        assert(spec_download_for(d, orig[taken as int], file_id));
        out.push(d);
        taken = taken + 1;
        assert(rest@ =~= orig.subrange(taken as int, n as int));
    }
    (out, first)
}

} // verus!
