use vstd::prelude::*;

use crate::pattern::{regex_captures, spec_regex_captures};
use crate::search::{Download, SearchModAuthor, SearchPreviewData, SearchProvider};
use crate::text::{concat, i64_to_string, owned, spec_int_string};

verus! {

/// The kind of a DIVA Mod Archive post.
#[derive(Debug, PartialEq, Eq, Clone, Copy)]
pub enum PostType {
    Plugin,
    Module,
    Song,
    Cover,
    Ui,
    Other,
}

/// The kind of post that the number `value` stands for: 0 to 4 in the order of the
/// variants, anything else `Other`.
pub open spec fn spec_post_type_of(value: i32) -> PostType {
    if value == 0 {
        PostType::Plugin
    } else if value == 1 {
        PostType::Module
    } else if value == 2 {
        PostType::Song
    } else if value == 3 {
        PostType::Cover
    } else if value == 4 {
        PostType::Ui
    } else {
        PostType::Other
    }
}

impl From<i32> for PostType {
    fn from(value: i32) -> (r: Self) {
        if value == 0 {
            PostType::Plugin
        } else if value == 1 {
            PostType::Module
        } else if value == 2 {
            PostType::Song
        } else if value == 3 {
            PostType::Cover
        } else if value == 4 {
            PostType::Ui
        } else {
            PostType::Other
        }
    }
}

impl vstd::std_specs::convert::FromSpecImpl<i32> for PostType {
    open spec fn obeys_from_spec() -> bool {
        true
    }

    open spec fn from_spec(v: i32) -> Self {
        spec_post_type_of(v)
    }
}

/// The name shown for a kind of post.
pub open spec fn spec_post_type_name(t: PostType) -> Seq<char> {
    match t {
        PostType::Plugin => "Plugin"@,
        PostType::Module => "Module"@,
        PostType::Song => "Song"@,
        PostType::Cover => "Cover"@,
        PostType::Ui => "UI"@,
        PostType::Other => "Other"@,
    }
}

impl PostType {
    /// The name shown for this kind of post.
    pub fn to_string(&self) -> (r: String)
        ensures
            r@ == spec_post_type_name(*self),
    {
        match self {
            PostType::Plugin => owned("Plugin"),
            PostType::Module => owned("Module"),
            PostType::Song => owned("Song"),
            PostType::Cover => owned("Cover"),
            PostType::Ui => owned("UI"),
            PostType::Other => owned("Other"),
        }
    }
}

/// A DIVA Mod Archive user.
#[derive(Debug, PartialEq)]
pub struct User {
    pub id: i64,
    pub name: String,
    pub avatar: String,
    pub display_name: String,
}

/// A DIVA Mod Archive post: a mod with its files.
#[derive(Debug, PartialEq)]
pub struct Post {
    pub id: i32,
    pub name: String,
    pub text: String,
    pub images: Vec<String>,
    pub files: Vec<String>,
    pub time: String,
    pub post_type: PostType,
    pub download_count: i64,
    pub like_count: i64,
    pub authors: Vec<User>,
    pub dependencies: Option<Vec<Post>>,
    pub file_names: Vec<String>,
}

impl SearchModAuthor {
    /// The author shown for a DIVA Mod Archive user: display name and avatar.
    pub fn from_user(value: &User) -> (r: Self)
        ensures
            r.name@ == value.display_name@,
            r.avatar_url@ == value.avatar@,
    {
        SearchModAuthor { name: value.display_name.clone(), avatar_url: value.avatar.clone() }
    }
}

/// The download id of the `i`-th file of post `post_id`: the post id with the file's
/// position in the upper 32 bits.
pub open spec fn spec_file_id(post_id: i32, i: int) -> i64 {
    (post_id as i64) | ((i as i64) << 32u64)
}

/// Whether `d` is the downloads-list entry for the `i`-th file (at `url`, named `name`) of
/// post `post_id`.
pub open spec fn spec_post_download(d: Download, post_id: i32, i: int, url: Seq<char>, name: Seq<char>) -> bool {
    &&& d.id@ == spec_int_string(spec_file_id(post_id, i) as int)
    &&& d.name@ == name
    &&& d.url@ == url
    &&& !d.failed
    &&& !d.inprogress
    &&& d.progress == 0
    &&& d.size == 0
    &&& d.provider == SearchProvider::DivaModArchive
}

fn file_id(post_id: i32, i: usize) -> (r: i64)
    ensures
        r == spec_file_id(post_id, i as int),
{
    (post_id as i64) | ((i as i64) << 32u64)
}

impl SearchPreviewData {
    /// How the search page shows a DIVA Mod Archive post: its first author (or an unknown
    /// one), first picture, kind, name, time and text, and one download per file that has
    /// both an address and a name.
    pub fn from_post(value: Post) -> (r: Self)
        ensures
            value.authors@.len() > 0 ==> r.author.name@ == value.authors@[0].display_name@
                && r.author.avatar_url@ == value.authors@[0].avatar@,
            value.authors@.len() == 0 ==> r.author.name@ == "Unknown"@ && r.author.avatar_url@
                == "sadjim.png"@,
            r.image_url@ == if value.images@.len() > 0 {
                value.images@[0]@
            } else {
                Seq::<char>::empty()
            },
            r.files@.len() == if value.files@.len() < value.file_names@.len() {
                value.files@.len()
            } else {
                value.file_names@.len()
            },
            forall|i: int|
                0 <= i < r.files@.len() ==> spec_post_download(
                    #[trigger] r.files@[i],
                    value.id,
                    i,
                    value.files@[i]@,
                    value.file_names@[i]@,
                ),
            r.id == value.id,
            !r.image_loaded,
            r.item_type@ == spec_post_type_name(value.post_type),
            r.name@ == value.name@,
            r.submitted@ == value.time@,
            r.updated@ == value.time@,
            r.description@ == value.text@,
            !r.preloaded,
            r.provider == SearchProvider::DivaModArchive,
    {
        let author = if value.authors.len() > 0 {
            SearchModAuthor::from_user(&value.authors[0])
        } else {
            SearchModAuthor { avatar_url: owned("sadjim.png"), name: owned("Unknown") }
        };
        let image_url = if value.images.len() > 0 {
            value.images[0].clone()
        } else {
            String::new()
        };
        let n = if value.files.len() < value.file_names.len() {
            value.files.len()
        } else {
            value.file_names.len()
        };
        let mut files: Vec<Download> = Vec::new();
        let mut i: usize = 0;
        while i < n
            invariant
                i <= n,
                n <= value.files@.len(),
                n <= value.file_names@.len(),
                files@.len() == i,
                forall|j: int|
                    0 <= j < i ==> spec_post_download(
                        #[trigger] files@[j],
                        value.id,
                        j,
                        value.files@[j]@,
                        value.file_names@[j]@,
                    ),
            decreases n - i,
        {
            let d = Download {
                failed: false,
                id: i64_to_string(file_id(value.id, i)),
                inprogress: false,
                name: value.file_names[i].clone(),
                progress: 0,
                size: 0,
                url: value.files[i].clone(),
                provider: SearchProvider::DivaModArchive,
            };
            files.push(d);
            i = i + 1;
        }
        SearchPreviewData {
            author,
            files,
            id: value.id,
            image_loaded: false,
            image_url,
            item_type: value.post_type.to_string(),
            name: value.name,
            submitted: value.time.clone(),
            updated: value.time,
            description: value.text,
            preloaded: false,
            provider: SearchProvider::DivaModArchive,
        }
    }
}

/// For a post with a non-negative id, files at different positions (below 2^31) get
/// different download ids.
pub proof fn lemma_file_ids_differ(post_id: i32, i: int, j: int)
    requires
        post_id >= 0,
        0 <= i < 0x8000_0000,
        0 <= j < 0x8000_0000,
        i != j,
    ensures
        spec_file_id(post_id, i) != spec_file_id(post_id, j),
{
    let p = post_id as i64;
    let a = i as i64;
    let b = j as i64;
    assert(0 <= p < 0x8000_0000);
    assert(0 <= p < 0x8000_0000 && 0 <= a < 0x8000_0000 && 0 <= b < 0x8000_0000 && a != b ==> (p
        | (a << 32u64)) != (p | (b << 32u64))) by (bit_vector);
}

/// The post id that the capture groups `caps` of a one-click link name: group 1, when the
/// pattern matched and that group took part.
pub open spec fn spec_oneclick_id(caps: Option<Seq<Option<Seq<char>>>>) -> Option<Seq<char>> {
    match caps {
        Some(g) => if g.len() >= 2 && g[1] is Some {
            Some(g[1]->0)
        } else {
            None
        },
        None => None,
    }
}

/// The post id that a DIVA Mod Archive one-click link names.
pub open spec fn spec_parse_oneclick_url(url: Seq<char>) -> Option<Seq<char>> {
    spec_oneclick_id(spec_regex_captures("divamodmanager:dma/(\\d+)"@, url))
}

/// The post id that the capture groups of a one-click link name (see `spec_oneclick_id`).
pub fn oneclick_id_from_captures(caps: &Option<Vec<Option<String>>>) -> (r: Option<String>)
    ensures
        r.deep_view() == spec_oneclick_id(caps.deep_view()),
{
    match caps {
        Some(g) => {
            if g.len() >= 2 {
                proof {
                    assert(g.deep_view()[1] == g@[1].deep_view());
                }
                match &g[1] {
                    Some(id) => Some(id.clone()),
                    None => None,
                }
            } else {
                None
            }
        },
        None => None,
    }
}

/// Reads a DIVA Mod Archive one-click link: the post id after `divamodmanager:dma/`.
pub fn parse_oneclick_url(url: String) -> (r: Option<String>)
    ensures
        r.deep_view() == spec_parse_oneclick_url(url@),
{
    let caps = regex_captures("divamodmanager:dma/(\\d+)", url.as_str());
    oneclick_id_from_captures(&caps)
}

/// The address of the post search.
pub fn search_url() -> (r: String)
    ensures
        r@ == "https://divamodarchive.com/api/v1/posts"@,
{
    owned("https://divamodarchive.com/api/v1/posts")
}

/// The query of a post search for `query`: at most 2000 posts.
pub fn search_query(query: String) -> (r: Vec<(String, String)>)
    ensures
        r@.len() == 2,
        r@[0].0@ == "query"@ && r@[0].1@ == query@,
        r@[1].0@ == "limit"@ && r@[1].1@ == "2000"@,
{
    let mut r: Vec<(String, String)> = Vec::new();
    r.push((owned("query"), query));
    r.push((owned("limit"), owned("2000")));
    r
}

/// The address of post `id`.
pub fn post_url(id: &str) -> (r: String)
    ensures
        r@ == "https://divamodarchive.com/api/v1/posts/"@ + id@,
{
    concat("https://divamodarchive.com/api/v1/posts/", id)
}

} // verus!
