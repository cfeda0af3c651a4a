//! Catalog data model and the decisions the catalog client makes: which
//! version of a map to download, which URL a lookup uses, and how outcomes
//! are classified. The HTTP transfer itself is the host application's job;
//! it hands the decoded records to these functions.

use vstd::prelude::*;
use vstd::string::StringExecFns;

verus! {

/// Song metadata carried by a catalog record. The catalog reports beats
/// per minute fractionally; the daemon never computes with it, so it is
/// kept rounded to a whole number.
pub struct MapMetadata {
    pub bpm: u32,
    pub duration: u32,
    pub song_name: String,
    pub song_sub_name: String,
    pub song_author_name: String,
    pub level_author_name: String,
}

/// One published revision of a map. `created_at` is the publication
/// instant as milliseconds since the Unix epoch.
pub struct MapVersion {
    pub hash: String,
    pub state: String,
    pub created_at: i64,
    pub download_url: String,
}

/// A catalog record: identity, song metadata and the published versions.
pub struct BeatSaverMap {
    pub id: String,
    pub name: String,
    pub description: String,
    pub metadata: MapMetadata,
    pub automapper: bool,
    pub ranked: bool,
    pub qualified: bool,
    pub versions: Vec<MapVersion>,
}

/// Failure of a catalog lookup. Causes that arrive as foreign error
/// values are carried as their rendered text.
#[derive(Debug)]
pub enum BeatSaverError {
    /// A failure inside the shared HTTP client.
    HttpError(crate::http_client::HttpError),
    /// Transport failure: rendered cause and the requested URL.
    RequestError(String, String),
    /// The catalog answered with a non-success HTTP status.
    StatusCodeError(u16),
    /// The catalog's JSON did not decode: rendered cause, URL, raw body.
    JsonError(String, String, String),
}

/// Failure of a full map retrieval: a lookup failure, or a record that
/// offers nothing to download.
#[derive(Debug)]
pub enum BeatSaverDownloadError {
    BeatSaverError(BeatSaverError),
    /// The map (named by its id) has no versions at all.
    NoMapVersion(String),
}

impl MapVersion {
    /// An explicit deep copy; every field of the copy equals the original.
    pub fn duplicate(&self) -> (r: MapVersion)
        ensures
            r == *self,
    {
        MapVersion {
            hash: self.hash.clone(),
            state: self.state.clone(),
            created_at: self.created_at,
            download_url: self.download_url.clone(),
        }
    }
}

impl MapMetadata {
    /// An explicit deep copy; every field of the copy equals the original.
    pub fn duplicate(&self) -> (r: MapMetadata)
        ensures
            r == *self,
    {
        MapMetadata {
            bpm: self.bpm,
            duration: self.duration,
            song_name: self.song_name.clone(),
            song_sub_name: self.song_sub_name.clone(),
            song_author_name: self.song_author_name.clone(),
            level_author_name: self.level_author_name.clone(),
        }
    }
}

impl BeatSaverMap {
    /// An explicit deep copy; every field of the copy equals the original.
    pub fn duplicate(&self) -> (r: BeatSaverMap)
        ensures
            r.id == self.id,
            r.name == self.name,
            r.description == self.description,
            r.metadata == self.metadata,
            r.automapper == self.automapper,
            r.ranked == self.ranked,
            r.qualified == self.qualified,
            r.versions@ == self.versions@,
    {
        let mut versions: Vec<MapVersion> = Vec::new();
        let mut i: usize = 0;
        while i < self.versions.len()
            invariant
                i <= self.versions.len(),
                versions@.len() == i as int,
                forall|j: int| 0 <= j < i as int ==> versions@[j] == self.versions@[j],
            decreases self.versions.len() - i,
        {
            versions.push(self.versions[i].duplicate());
            i = i + 1;
        }
        proof {
            assert(versions@ =~= self.versions@);
        }
        BeatSaverMap {
            id: self.id.clone(),
            name: self.name.clone(),
            description: self.description.clone(),
            metadata: self.metadata.duplicate(),
            automapper: self.automapper,
            ranked: self.ranked,
            qualified: self.qualified,
            versions,
        }
    }
}

/// Holds when `vs[i]` is the version a download must use: the latest by
/// `created_at`, and among equally-timed versions the last listed.
pub open spec fn is_latest_version_at(vs: Seq<MapVersion>, i: int) -> bool {
    &&& 0 <= i < vs.len()
    &&& forall|j: int| 0 <= j < vs.len() ==> vs[j].created_at <= vs[i].created_at
    &&& forall|j: int| i < j < vs.len() ==> vs[j].created_at < vs[i].created_at
}

/// The latest version of a map by `created_at`; ties go to the last
/// listed, and a map without versions has none.
///
/// This is the version-selection rule the whole download path relies on:
/// with pairwise-distinct `created_at` values the result is exactly the
/// version whose `created_at` is the maximum.
pub fn find_latest_version(map: &BeatSaverMap) -> (r: Option<MapVersion>)
    ensures
        map.versions@.len() == 0 <==> r is None,
        r matches Some(v) ==> exists|i: int| is_latest_version_at(map.versions@, i)
            && v == map.versions@[i],
{
    if map.versions.len() == 0 {
        return None;
    }
    let mut best: usize = 0;
    let mut i: usize = 1;
    while i < map.versions.len()
        invariant
            0 <= best < map.versions@.len(),
            best < i <= map.versions@.len(),
            forall|j: int| 0 <= j < i as int ==>
                map.versions@[j].created_at <= map.versions@[best as int].created_at,
            forall|j: int| (best as int) < j < i as int ==>
                map.versions@[j].created_at < map.versions@[best as int].created_at,
        decreases map.versions.len() - i,
    {
        if map.versions[i].created_at >= map.versions[best].created_at {
            best = i;
        }
        i = i + 1;
    }
    let chosen = map.versions[best].duplicate();
    proof {
        assert(is_latest_version_at(map.versions@, best as int));
    }
    Some(chosen)
}

/// With pairwise-distinct creation instants, any version satisfying the
/// selection rule is the unique one whose `created_at` is maximal: the
/// download path picks the argmax of `created_at`.
pub proof fn lemma_latest_is_unique_argmax(vs: Seq<MapVersion>, i: int, k: int)
    requires
        forall|a: int, b: int| 0 <= a < vs.len() && 0 <= b < vs.len() && a != b
            ==> vs[a].created_at != vs[b].created_at,
        is_latest_version_at(vs, i),
        0 <= k < vs.len(),
        forall|j: int| 0 <= j < vs.len() ==> vs[j].created_at <= vs[k].created_at,
    ensures
        k == i,
{
    if k != i {
        assert(vs[k].created_at <= vs[i].created_at);
        assert(vs[i].created_at <= vs[k].created_at);
    }
}

/// Picks what `retrieve-latest` must download: the latest version, or the
/// error naming the map when it has no versions.
pub fn select_download_version(map: &BeatSaverMap) -> (r: Result<
    MapVersion,
    BeatSaverDownloadError,
>)
    ensures
        map.versions@.len() == 0 <==> r is Err,
        r matches Ok(v) ==> exists|i: int| is_latest_version_at(map.versions@, i)
            && v == map.versions@[i],
        r matches Err(e) ==> (e matches BeatSaverDownloadError::NoMapVersion(id)
            && id@ == map.id@),
{
    match find_latest_version(map) {
        Some(v) => Ok(v),
        None => Err(BeatSaverDownloadError::NoMapVersion(map.id.clone())),
    }
}

/// The catalog base URL used when the host application supplies no
/// override: the public catalog, already `/`-terminated.
pub fn get_beatsaver_base_url() -> (r: String)
    ensures
        r@ == "https://beatsaver.com/api/"@,
{
    String::from_str("https://beatsaver.com/api/")
}

/// Ensures a base URL ends with `/`: an already-terminated URL is kept,
/// anything else gets one `/` appended. The host application runs its
/// environment override through this before handing it to the client.
pub fn normalize_base_url(url: String) -> (r: String)
    ensures
        url@.len() > 0 && url@.last() == '/' ==> r@ == url@,
        !(url@.len() > 0 && url@.last() == '/') ==> r@ == url@ + "/"@,
        r@.len() > 0 && r@.last() == '/',
{
    proof {
        reveal_strlit("/");
    }
    let chars = crate::chars::str_to_chars(url.as_str());
    if chars.len() > 0 && chars[chars.len() - 1] == '/' {
        proof {
            assert(url@.last() == '/');
        }
        url
    } else {
        let r = url.concat("/");
        proof {
            assert(r@.last() == '/');
        }
        r
    }
}

/// The lookup URL for a map id: `<base>maps/id/<id>`.
pub fn map_by_id_url(base: &str, id: &str) -> (r: String)
    ensures
        r@ == base@ + "maps/id/"@ + id@,
{
    String::from_str(base).concat("maps/id/").concat(id)
}

/// The lookup URL for a content hash: `<base>maps/hash/<hash>`.
pub fn map_by_hash_url(base: &str, hash: &str) -> (r: String)
    ensures
        r@ == base@ + "maps/hash/"@ + hash@,
{
    String::from_str(base).concat("maps/hash/").concat(hash)
}

/// Classifies the metadata response the transport hands back: a non-2xx
/// status is a `StatusCodeError`, and a success status stands or falls
/// with the JSON decode of the body, whose outcome the caller passes in
/// as `decoded`.
pub fn classify_map_response(
    status: u16,
    url: String,
    body: String,
    decoded: Option<BeatSaverMap>,
) -> (r: Result<BeatSaverMap, BeatSaverError>)
    ensures
        !(200 <= status < 300) ==> (r matches Err(BeatSaverError::StatusCodeError(c))
            && c == status),
        200 <= status < 300 && decoded is Some ==> (r matches Ok(m)
            && m == decoded.unwrap()),
        200 <= status < 300 && decoded is None ==> (r matches Err(e)
            && e matches BeatSaverError::JsonError(_cause, u, b)
            && u@ == url@ && b@ == body@),
{
    if !(200 <= status && status < 300) {
        Err(BeatSaverError::StatusCodeError(status))
    } else {
        match decoded {
            Some(m) => Ok(m),
            None => Err(
                BeatSaverError::JsonError(String::from_str("invalid json"), url, body),
            ),
        }
    }
}

} // verus!

