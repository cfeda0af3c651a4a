//! The download scheduler and the per-target installer queues: bounded
//! admission of download tasks, fan-out of one resolved artifact to every
//! configured target, the dedup check an installer queue runs before it
//! installs, and the outcome notice each installer result broadcasts.
//! Channels, tasks and sleeping live in the host application; the library
//! fixes every decision they carry out.

use vstd::prelude::*;
use vstd::string::StringExecFns;

verus! {

use crate::beatsaver::BeatSaverMap;
use crate::beatsaver::MapVersion;
use crate::config::ConfigData;
use crate::config::MapData;
use crate::config::MapMetadata;
use crate::websocket_handler::ResultMsg;
use crate::websocket_handler::ResultMessageData;
use crate::websocket_handler::WebSocketPcModData;
use crate::websocket_handler::WebSocketQuestModData;

/// One request pulled off the global download queue.
pub enum DownloadQueueRequest {
    /// Install the map with this catalog id.
    InstallMap(String),
    /// Install a PC mod.
    PcMod(WebSocketPcModData),
    /// Install a Quest mod; declared, but installing it is unsupported.
    QuestMod(WebSocketQuestModData),
}

/// The payload an installer queue works one at a time.
pub enum InstallerQueueData {
    /// A resolved map: its record, the chosen version, the zip bytes.
    MapArtifact(BeatSaverMap, MapVersion, Vec<u8>),
    /// A downloaded PC mod: its request and the artifact bytes.
    PcMod(WebSocketPcModData, Vec<u8>),
    /// A downloaded Quest mod; never installed.
    QuestMod(WebSocketQuestModData, Vec<u8>),
}

/// What an installer queue delivers for one request, exactly once.
pub enum InstallerQueueResult {
    MapSuccess(BeatSaverMap, MapVersion),
    MapError(BeatSaverMap, MapVersion, InstallerQueueError),
    MapAlreadyInstalled(BeatSaverMap, MapVersion),
    ModSuccess(String),
    ModError(String, String),
}

/// Why a map install failed inside the queue.
#[derive(Debug)]
pub enum InstallerQueueError {
    /// The spawned install task could not be joined: rendered cause.
    JoinError(String),
    /// All attempts were used up: the last underlying cause.
    TriesExceeded(String),
}

impl InstallerQueueError {
    /// The failure rendered for a user-visible notice.
    pub fn message(&self) -> (r: String)
        ensures
            self matches InstallerQueueError::JoinError(c) ==> r@
                == "Failed to join async install task "@ + c@,
            self matches InstallerQueueError::TriesExceeded(c) ==> r@
                == "Exceeded the maximum amount of retries. Last error: "@ + c@,
    {
        match self {
            InstallerQueueError::JoinError(c) => String::from_str(
                "Failed to join async install task ",
            ).concat(c.as_str()),
            InstallerQueueError::TriesExceeded(c) => String::from_str(
                "Exceeded the maximum amount of retries. Last error: ",
            ).concat(c.as_str()),
        }
    }
}

/// The download request a queued mod becomes, by its kind.
pub fn mod_request(data: crate::websocket_handler::WebSocketMod) -> (r: DownloadQueueRequest)
    ensures
        data matches crate::websocket_handler::WebSocketMod::PcMod(m) ==> (r matches
            DownloadQueueRequest::PcMod(out) && out == m),
        data matches crate::websocket_handler::WebSocketMod::QuestMod(m) ==> (r matches
            DownloadQueueRequest::QuestMod(out) && out == m),
{
    match data {
        crate::websocket_handler::WebSocketMod::PcMod(m) => DownloadQueueRequest::PcMod(m),
        crate::websocket_handler::WebSocketMod::QuestMod(m) => DownloadQueueRequest::QuestMod(
            m,
        ),
    }
}

/// How many downloads may run at once unless configured otherwise.
pub const DEFAULT_CONCURRENT_DOWNLOADS: u8 = 4;

/// The download scheduler's admission state: how many download tasks
/// hold a permit, against the configured bound.
pub struct SchedulerState {
    pub limit: u8,
    pub active: u8,
}

impl SchedulerState {
    /// The scheduler's bound holds: never more active tasks than the
    /// limit.
    pub open spec fn wf(&self) -> bool {
        self.active <= self.limit
    }

    /// A fresh scheduler with this concurrency bound and nothing
    /// running.
    pub fn new(limit: u8) -> (r: SchedulerState)
        ensures
            r.limit == limit,
            r.active == 0,
            r.wf(),
    {
        SchedulerState { limit, active: 0 }
    }

    /// Admits one download task if a permit is free: the task count
    /// grows by one exactly when it was below the bound, and the bound
    /// keeps holding — the number of simultaneously active downloads
    /// never exceeds the configured limit.
    pub fn try_start(&mut self) -> (granted: bool)
        requires
            old(self).wf(),
        ensures
            final(self).wf(),
            final(self).limit == old(self).limit,
            granted <==> old(self).active < old(self).limit,
            granted ==> final(self).active == old(self).active + 1,
            !granted ==> final(self).active == old(self).active,
    {
        if self.active < self.limit {
            self.active = self.active + 1;
            true
        } else {
            false
        }
    }

    /// Releases one permit when a download task exits.
    pub fn finish(&mut self)
        requires
            old(self).wf(),
            old(self).active > 0,
        ensures
            final(self).wf(),
            final(self).limit == old(self).limit,
            final(self).active == old(self).active - 1,
    {
        self.active = self.active - 1;
    }
}

/// A byte-for-byte copy of an artifact.
pub fn clone_bytes(data: &Vec<u8>) -> (r: Vec<u8>)
    ensures
        r@ == data@,
{
    let mut out: Vec<u8> = Vec::new();
    let mut i: usize = 0;
    while i < data.len()
        invariant
            i <= data@.len(),
            out@ == data@.take(i as int),
        decreases data.len() - i,
    {
        out.push(data[i]);
        proof {
            assert(data@.take(i as int + 1) =~= data@.take(i as int).push(data@[i as int]));
        }
        i = i + 1;
    }
    proof {
        assert(data@.take(data@.len() as int) =~= data@);
    }
    out
}

/// Holds when one fan-out payload carries the same record as the
/// resolved map, the chosen version, and the artifact bytes.
pub open spec fn carries_map_artifact(
    payload: InstallerQueueData,
    map: BeatSaverMap,
    version: MapVersion,
    data: Seq<u8>,
) -> bool {
    payload matches InstallerQueueData::MapArtifact(m, v, d) && m.id == map.id && m.name
        == map.name && m.description == map.description && m.metadata == map.metadata
        && m.automapper == map.automapper && m.ranked == map.ranked && m.qualified
        == map.qualified && m.versions@ == map.versions@ && v == version && d@ == data
}

/// Fans one resolved map out to every configured target: exactly one
/// installer payload per target, in target order, each tagged with its
/// own target's id and carrying the same map, version and bytes. The
/// last target takes the artifact buffer itself, so a single configured
/// target costs no byte copy.
pub fn fan_out_map(
    map: &BeatSaverMap,
    version: &MapVersion,
    data: Vec<u8>,
    targets: &Vec<ConfigData>,
) -> (r: Vec<(String, InstallerQueueData)>)
    ensures
        r@.len() == targets@.len(),
        forall|i: int| 0 <= i < r@.len() ==> (#[trigger] r@[i]).0 == targets@[i].id,
        forall|i: int| 0 <= i < r@.len() ==> carries_map_artifact(
            (#[trigger] r@[i]).1,
            *map,
            *version,
            data@,
        ),
{
    let mut out: Vec<(String, InstallerQueueData)> = Vec::new();
    let n = targets.len();
    if n == 0 {
        return out;
    }
    let mut i: usize = 0;
    while i < n - 1
        invariant
            n == targets@.len(),
            n >= 1,
            i <= n - 1,
            out@.len() == i as int,
            forall|k: int| 0 <= k < i as int ==> (#[trigger] out@[k]).0 == targets@[k].id,
            forall|k: int| 0 <= k < i as int ==> carries_map_artifact(
                (#[trigger] out@[k]).1,
                *map,
                *version,
                data@,
            ),
        decreases n - i,
    {
        out.push(
            (
                targets[i].id.clone(),
                InstallerQueueData::MapArtifact(
                    map.duplicate(),
                    version.duplicate(),
                    clone_bytes(&data),
                ),
            ),
        );
        i = i + 1;
    }
    out.push(
        (
            targets[n - 1].id.clone(),
            InstallerQueueData::MapArtifact(map.duplicate(), version.duplicate(), data),
        ),
    );
    out
}

/// An explicit deep copy of a PC mod request, equal to the original.
fn duplicate_pc_mod(mod_data: &WebSocketPcModData) -> (r: WebSocketPcModData)
    ensures
        r.common.identifier == mod_data.common.identifier,
        r.common.url == mod_data.common.url,
        r.data == mod_data.data,
{
    WebSocketPcModData {
        common: crate::websocket_handler::WebSocketCommonModData {
            identifier: mod_data.common.identifier.clone(),
            url: mod_data.common.url.clone(),
        },
        data: match &mod_data.data {
            crate::websocket_handler::WebSocketPcModType::DLL(n) =>
                crate::websocket_handler::WebSocketPcModType::DLL(n.clone()),
            crate::websocket_handler::WebSocketPcModType::ZIP(p) =>
                crate::websocket_handler::WebSocketPcModType::ZIP(
                match p {
                    Some(q) => Some(q.clone()),
                    None => None,
                },
            ),
        },
    }
}

/// Fans one downloaded PC mod out to every configured target, one
/// payload per target in target order, tagged with the target's id and
/// carrying the whole request — identifier, URL and landing kind — with
/// the artifact bytes. The last target takes the buffer itself.
pub fn fan_out_pc_mod(
    mod_data: &WebSocketPcModData,
    data: Vec<u8>,
    targets: &Vec<ConfigData>,
) -> (r: Vec<(String, InstallerQueueData)>)
    ensures
        r@.len() == targets@.len(),
        forall|i: int| 0 <= i < r@.len() ==> (#[trigger] r@[i]).0 == targets@[i].id,
        forall|i: int| 0 <= i < r@.len() ==> ((#[trigger] r@[i]).1 matches
            InstallerQueueData::PcMod(m, d) && m.common.identifier == mod_data.common.identifier
            && m.common.url == mod_data.common.url && m.data == mod_data.data && d@ == data@),
{
    let mut out: Vec<(String, InstallerQueueData)> = Vec::new();
    let n = targets.len();
    if n == 0 {
        return out;
    }
    let mut i: usize = 0;
    while i < n - 1
        invariant
            n == targets@.len(),
            n >= 1,
            i <= n - 1,
            out@.len() == i as int,
            forall|k: int| 0 <= k < i as int ==> (#[trigger] out@[k]).0 == targets@[k].id,
            forall|k: int| 0 <= k < i as int ==> ((#[trigger] out@[k]).1 matches
                InstallerQueueData::PcMod(m, d) && m.common.identifier
                == mod_data.common.identifier && m.common.url == mod_data.common.url && m.data
                == mod_data.data && d@ == data@),
        decreases n - i,
    {
        out.push(
            (
                targets[i].id.clone(),
                InstallerQueueData::PcMod(duplicate_pc_mod(mod_data), clone_bytes(&data)),
            ),
        );
        i = i + 1;
    }
    out.push(
        (targets[n - 1].id.clone(), InstallerQueueData::PcMod(duplicate_pc_mod(mod_data), data)),
    );
    out
}

/// Whether an installer queue installs a candidate at all: a map whose
/// content hash the target's index already carries is answered
/// `MapAlreadyInstalled` at once, with no download, extraction or device
/// traffic; anything else proceeds to the installer.
pub enum MapInstallDecision {
    AlreadyInstalled,
    Proceed,
}

/// The dedup check before an install: reads only the in-memory index.
pub fn decide_map_install(index: &Vec<MapData>, version_hash: &str) -> (r: MapInstallDecision)
    ensures
        r is AlreadyInstalled <==> crate::config::index_has_hash(
            crate::config::index_view(index@),
            version_hash@,
        ),
{
    if crate::config::index_contains_hash(index, version_hash) {
        MapInstallDecision::AlreadyInstalled
    } else {
        MapInstallDecision::Proceed
    }
}

/// Records a finished PC map install in the target's index: a recognized
/// entry at the extraction path, inserted idempotently so the watcher's
/// own observation of the same directory cannot duplicate it.
pub fn record_pc_install(index: &mut Vec<MapData>, path: String, hash: String, id: u32)
    requires
        crate::config::paths_unique(crate::config::index_view(old(index)@)),
    ensures
        crate::config::index_view(final(index)@) == crate::config::remove_path(
            crate::config::index_view(old(index)@),
            path@,
        ).push(
            crate::config::EntryModel::Valid { path: path@, hash: hash@, id },
        ),
        crate::config::paths_unique(crate::config::index_view(final(index)@)),
{
    crate::config::index_insert(index, MapData::Valid(MapMetadata { path, hash, id }));
}

/// Index dedup: once an install is recorded, the index carries the
/// content hash, so the dedup check answers `MapAlreadyInstalled` for
/// any later install of the same hash — before any download, extraction
/// or device traffic happens.
pub proof fn lemma_recorded_install_deduplicates(
    idx: Seq<crate::config::EntryModel>,
    path: Seq<char>,
    hash: Seq<char>,
    id: u32,
)
    ensures
        crate::config::index_has_hash(
            crate::config::remove_path(idx, path).push(
                crate::config::EntryModel::Valid { path, hash, id },
            ),
            hash,
        ),
{
    let recorded = crate::config::remove_path(idx, path).push(
        crate::config::EntryModel::Valid { path, hash, id },
    );
    assert(crate::config::entry_hash(recorded[recorded.len() - 1]) == Some(hash));
}

/// The outcome notice one installer result broadcasts, tagged with the
/// target that produced it; an already-installed map produces none.
pub fn install_result_message(target_id: &str, result: &InstallerQueueResult) -> (r: Option<
    ResultMsg,
>)
    ensures
        result matches InstallerQueueResult::MapSuccess(m, v) ==> (r matches Some(msg)
            && msg.action@ == "InstallMaps"@ && msg.success == true && (
        msg.data matches ResultMessageData::MapInstallSuccess(t, id, h) && t@ == target_id@
            && id == m.id && h == v.hash)),
        result matches InstallerQueueResult::MapError(m, _v, e) ==> (r matches Some(msg)
            && msg.action@ == "InstallMaps"@ && msg.success == false && (
        msg.data matches ResultMessageData::MapInstallError(t, id, reason) && (t matches Some(
            tid,
        ) && tid@ == target_id@) && id == m.id && reason@ == (match e {
            InstallerQueueError::JoinError(c) => "Failed to join async install task "@ + c@,
            InstallerQueueError::TriesExceeded(c) =>
                "Exceeded the maximum amount of retries. Last error: "@ + c@,
        }))),
        result is MapAlreadyInstalled ==> r is None,
        result matches InstallerQueueResult::ModSuccess(ident) ==> (r matches Some(msg)
            && msg.action@ == "InstallMods"@ && msg.success == true && (
        msg.data matches ResultMessageData::Simple(out) && out == ident)),
        result matches InstallerQueueResult::ModError(ident, cause) ==> (r matches Some(msg)
            && msg.action@ == "InstallMods"@ && msg.success == false && (
        msg.data matches ResultMessageData::ModInstallError(i2, c2) && i2 == ident && c2
            == cause)),
{
    match result {
        InstallerQueueResult::MapSuccess(m, v) => Some(
            ResultMsg {
                action: String::from_str("InstallMaps"),
                success: true,
                data: ResultMessageData::MapInstallSuccess(
                    String::from_str(target_id),
                    m.id.clone(),
                    v.hash.clone(),
                ),
            },
        ),
        InstallerQueueResult::MapError(m, _v, e) => Some(
            ResultMsg {
                action: String::from_str("InstallMaps"),
                success: false,
                data: ResultMessageData::MapInstallError(
                    Some(String::from_str(target_id)),
                    m.id.clone(),
                    e.message(),
                ),
            },
        ),
        InstallerQueueResult::MapAlreadyInstalled(_m, _v) => None,
        InstallerQueueResult::ModSuccess(ident) => Some(
            ResultMsg {
                action: String::from_str("InstallMods"),
                success: true,
                data: ResultMessageData::Simple(ident.clone()),
            },
        ),
        InstallerQueueResult::ModError(ident, cause) => Some(
            ResultMsg {
                action: String::from_str("InstallMods"),
                success: false,
                data: ResultMessageData::ModInstallError(ident.clone(), cause.clone()),
            },
        ),
    }
}

/// The notice a failure before fan-out broadcasts: no target, the map id
/// asked for, and the rendered cause.
pub fn download_failure_message(id: &str, cause: &str) -> (r: ResultMsg)
    ensures
        r.action@ == "InstallMaps"@,
        r.success == false,
        r.data matches ResultMessageData::MapInstallError(t, mid, reason) && t is None && mid@
            == id@ && reason@ == cause@,
{
    ResultMsg {
        action: String::from_str("InstallMaps"),
        success: false,
        data: ResultMessageData::MapInstallError(
            None,
            String::from_str(id),
            String::from_str(cause),
        ),
    }
}

/// The notice a failed mod download broadcasts: the mod's identifier and
/// the rendered cause.
pub fn mod_download_failure_message(identifier: &str, cause: &str) -> (r: ResultMsg)
    ensures
        r.action@ == "InstallMaps"@,
        r.success == false,
        r.data matches ResultMessageData::ModInstallError(i2, c2) && i2@ == identifier@ && c2@
            == cause@,
{
    ResultMsg {
        action: String::from_str("InstallMaps"),
        success: false,
        data: ResultMessageData::ModInstallError(
            String::from_str(identifier),
            String::from_str(cause),
        ),
    }
}

} // verus!
