//! Target-specific install decisions: the folder a PC map extracts into
//! (with its character sanitization), the destinations of mod files, the
//! device-bridge command plan and upload request a Quest install uses,
//! and the retry policy of the Quest network path. These functions plan;
//! the host application performs the extraction, the subprocesses and
//! the transfers.

use vstd::prelude::*;
use vstd::string::StringExecFns;

verus! {

use crate::config::ConfigData;
use crate::config::InstallType;

/// A target's installer: the PC variant materializes on disk, the Quest
/// variant pushes to a device.
pub enum Installer {
    PC(PcInstaller),
    Quest(QuestInstaller),
}

/// Installs onto a local PC game directory.
pub struct PcInstaller {
    pub config: ConfigData,
}

/// Installs onto a tethered Quest device.
pub struct QuestInstaller {
    pub config: ConfigData,
}

impl Installer {
    /// The installer a target configuration calls for: its kind picks
    /// the variant, and the configuration rides along unchanged.
    pub fn from_config(config: ConfigData) -> (r: Installer)
        ensures
            config.install_type == InstallType::PC ==> (r matches Installer::PC(pc)
                && pc.config == config),
            config.install_type == InstallType::Quest ==> (r matches Installer::Quest(q)
                && q.config == config),
    {
        match config.install_type {
            InstallType::PC => Installer::PC(PcInstaller { config }),
            InstallType::Quest => Installer::Quest(QuestInstaller { config }),
        }
    }
}

/// A character the PC folder name must not contain.
pub open spec fn forbidden_char(c: char) -> bool {
    c == '\\' || c == '/' || c == '*' || c == '?' || c == '"' || c == '<' || c == '>' || c
        == '|'
}

/// The text with every forbidden character struck out, order kept.
pub open spec fn sanitized(s: Seq<char>) -> Seq<char>
    decreases s.len(),
{
    if s.len() == 0 {
        Seq::empty()
    } else if forbidden_char(s.last()) {
        sanitized(s.drop_last())
    } else {
        sanitized(s.drop_last()).push(s.last())
    }
}

/// Sanitized text contains no forbidden character: nothing from the set
/// `\ / * ? " < > |` survives into a derived folder name.
pub proof fn lemma_sanitized_clean(s: Seq<char>)
    ensures
        forall|k: int| 0 <= k < sanitized(s).len() ==> !forbidden_char(#[trigger] sanitized(
            s,
        )[k]),
    decreases s.len(),
{
    if s.len() > 0 {
        lemma_sanitized_clean(s.drop_last());
        assert forall|k: int| 0 <= k < sanitized(s).len() implies !forbidden_char(
            sanitized(s)[k],
        ) by {
            if !forbidden_char(s.last()) {
                if k < sanitized(s).len() - 1 {
                    assert(sanitized(s)[k] == sanitized(s.drop_last())[k]);
                } else {
                    assert(sanitized(s)[k] == s.last());
                }
            } else {
                assert(sanitized(s)[k] == sanitized(s.drop_last())[k]);
            }
        }
    }
}

/// Strikes every forbidden character out of the text.
pub fn sanitize_name(s: &str) -> (r: String)
    ensures
        r@ == sanitized(s@),
{
    let chars = crate::chars::str_to_chars(s);
    let mut out: Vec<char> = Vec::new();
    let mut i: usize = 0;
    while i < chars.len()
        invariant
            i <= chars@.len(),
            chars@ == s@,
            out@ == sanitized(s@.take(i as int)),
        decreases chars.len() - i,
    {
        proof {
            assert(s@.take(i as int + 1).drop_last() =~= s@.take(i as int));
            assert(s@.take(i as int + 1).last() == s@[i as int]);
        }
        let c = chars[i];
        let keep = !(c == '\\' || c == '/' || c == '*' || c == '?' || c == '"' || c == '<' || c
            == '>' || c == '|');
        if keep {
            out.push(c);
        }
        i = i + 1;
    }
    proof {
        assert(s@.take(s@.len() as int) =~= s@);
    }
    crate::chars::chars_to_string(&out)
}

/// The unsanitized folder name a map derives: `<id> (<song> - <author>)`.
pub open spec fn raw_folder_name(
    id: Seq<char>,
    song_name: Seq<char>,
    level_author_name: Seq<char>,
) -> Seq<char> {
    id + " ("@ + song_name + " - "@ + level_author_name + ")"@
}

/// The folder a PC map install extracts into, under the custom-levels
/// directory: the derived name with every forbidden character struck
/// out. No character of `\ / * ? " < > |` appears in the result.
pub fn pc_map_folder_name(map: &crate::beatsaver::BeatSaverMap) -> (r: String)
    ensures
        r@ == sanitized(
            raw_folder_name(map.id@, map.metadata.song_name@, map.metadata.level_author_name@),
        ),
        forall|k: int| 0 <= k < r@.len() ==> !forbidden_char(#[trigger] r@[k]),
{
    let full = String::from_str(map.id.as_str()).concat(" (").concat(
        map.metadata.song_name.as_str(),
    ).concat(" - ").concat(map.metadata.level_author_name.as_str()).concat(")");
    proof {
        lemma_sanitized_clean(full@);
    }
    sanitize_name(full.as_str())
}

/// Joins path segments with the host's separator.
pub fn join_path(base: &str, segments: &Vec<String>, sep: char) -> (r: String)
    ensures
        r@ == segments@.fold_left(base@, |acc: Seq<char>, seg: String| acc + seq![sep] + seg@),
{
    let mut out = crate::chars::str_to_chars(base);
    let mut i: usize = 0;
    while i < segments.len()
        invariant
            i <= segments@.len(),
            out@ == segments@.take(i as int).fold_left(
                base@,
                |acc: Seq<char>, seg: String| acc + seq![sep] + seg@,
            ),
        decreases segments.len() - i,
    {
        proof {
            assert(segments@.take(i as int + 1).drop_last() =~= segments@.take(i as int));
            assert(segments@.take(i as int + 1).last() == segments@[i as int]);
        }
        out.push(sep);
        crate::chars::append_str(&mut out, segments[i].as_str());
        i = i + 1;
    }
    proof {
        assert(segments@.take(segments@.len() as int) =~= segments@);
    }
    crate::chars::chars_to_string(&out)
}

/// The directory PC map content lives in, under the install location:
/// `Beat Saber_Data<sep>CustomLevels`, then the map's folder.
pub fn pc_map_target_dir(install_location: &str, folder: &str, sep: char) -> (r: String)
    ensures
        r@ == install_location@ + seq![sep] + "Beat Saber_Data"@ + seq![sep] + "CustomLevels"@
            + seq![sep] + folder@,
{
    let mut out = crate::chars::str_to_chars(install_location);
    out.push(sep);
    crate::chars::append_str(&mut out, "Beat Saber_Data");
    out.push(sep);
    crate::chars::append_str(&mut out, "CustomLevels");
    out.push(sep);
    crate::chars::append_str(&mut out, folder);
    proof {
        assert(out@ =~= install_location@ + seq![sep] + "Beat Saber_Data"@ + seq![sep]
            + "CustomLevels"@ + seq![sep] + folder@);
    }
    crate::chars::chars_to_string(&out)
}

/// Where a mod archive unpacks: the install location itself, or its
/// configured subdirectory.
pub fn pc_mod_zip_target(install_location: &str, sub_path: Option<&str>, sep: char) -> (r:
    String)
    ensures
        sub_path matches Some(p) ==> r@ == install_location@ + seq![sep] + p@,
        sub_path is None ==> r@ == install_location@,
{
    match sub_path {
        Some(p) => {
            let mut out = crate::chars::str_to_chars(install_location);
            out.push(sep);
            crate::chars::append_str(&mut out, p);
            proof {
                assert(out@ =~= install_location@ + seq![sep] + p@);
            }
            crate::chars::chars_to_string(&out)
        },
        None => String::from_str(install_location),
    }
}

/// Where a mod library file lands: `<install>/Plugins/<name>`.
pub fn pc_mod_dll_target(install_location: &str, name: &str, sep: char) -> (r: String)
    ensures
        r@ == install_location@ + seq![sep] + "Plugins"@ + seq![sep] + name@,
{
    let mut out = crate::chars::str_to_chars(install_location);
    out.push(sep);
    crate::chars::append_str(&mut out, "Plugins");
    out.push(sep);
    crate::chars::append_str(&mut out, name);
    proof {
        assert(out@ =~= install_location@ + seq![sep] + "Plugins"@ + seq![sep] + name@);
    }
    crate::chars::chars_to_string(&out)
}

/// What a mod install must do: write the library file, unpack the
/// archive, or refuse.
pub enum ModInstallPlan {
    /// Write the artifact bytes to this file.
    WriteLibraryFile(String),
    /// Unpack the artifact archive into this directory.
    UnpackArchive(String),
    /// The target kind cannot install mods; reply with this reason.
    Refuse(String),
}

/// Plans a mod install on one target: a Quest target refuses (mod
/// install there is unsupported), a PC target writes a library file
/// under `Plugins` or unpacks the archive at the install root or its
/// configured subdirectory.
pub fn plan_mod_install(
    kind: InstallType,
    install_location: &str,
    data: &crate::websocket_handler::WebSocketPcModType,
    sep: char,
) -> (r: ModInstallPlan)
    ensures
        kind is Quest ==> (r matches ModInstallPlan::Refuse(m) && m@ == "Not implemented"@),
        kind is PC ==> (data matches crate::websocket_handler::WebSocketPcModType::DLL(name)
            ==> (r matches ModInstallPlan::WriteLibraryFile(p) && p@ == install_location@
            + seq![sep] + "Plugins"@ + seq![sep] + name@)),
        kind is PC ==> (data matches crate::websocket_handler::WebSocketPcModType::ZIP(sub)
            ==> (r matches ModInstallPlan::UnpackArchive(p) && (match sub {
            Some(q) => p@ == install_location@ + seq![sep] + q@,
            None => p@ == install_location@,
        }))),
{
    match kind {
        InstallType::Quest => ModInstallPlan::Refuse(String::from_str("Not implemented")),
        InstallType::PC => match data {
            crate::websocket_handler::WebSocketPcModType::DLL(name) =>
                ModInstallPlan::WriteLibraryFile(
                pc_mod_dll_target(install_location, name.as_str(), sep),
            ),
            crate::websocket_handler::WebSocketPcModType::ZIP(sub) =>
                ModInstallPlan::UnpackArchive(
                match sub {
                    Some(q) => pc_mod_zip_target(install_location, Some(q.as_str()), sep),
                    None => pc_mod_zip_target(install_location, None, sep),
                },
            ),
        },
    }
}

/// The on-device folder name of a map: `custom_level_<hash>`.
pub fn custom_level_name(hash: &str) -> (r: String)
    ensures
        r@ == "custom_level_"@ + hash@,
{
    String::from_str("custom_level_").concat(hash)
}

/// What a Quest install must do: drive the device bridge, or upload to
/// the on-device host.
pub enum QuestPlan {
    /// Run the device-bridge CLI: an optional `connect` invocation, the
    /// `mkdir` invocation, and the `push` invocation, in that order.
    Adb { connect: Option<Vec<String>>, mkdir: Vec<String>, push: Vec<String> },
    /// POST the zip as one multipart `file` part under this name, to
    /// this URL, with this Referer header value; 204 means success.
    Upload { url: String, referer: String, part_name: String },
}

/// The device-side directory a map is pushed into.
pub open spec fn quest_device_dir(hash: Seq<char>) -> Seq<char> {
    "/sdcard/ModData/com.beatgames.beatsaber/Mods/SongLoader/CustomLevels/"@
        + "custom_level_"@ + hash + "/"@
}

/// Plans a Quest map install. A location of the form `adb://<target>`
/// yields the device-bridge invocations: `connect <target>` (omitted for
/// `adb://usb`), `shell mkdir -p <device dir>`, and `push <unpack>/.
/// <device dir>`, where `<unpack>` is the host directory the caller
/// unpacked the zip into. Any other location is the base URL of the
/// on-device host: the plan is one multipart upload of the zip to
/// `<location>/host/beatsaber/upload` with Referer
/// `<location>/main/upload` and part name `custom_level_<hash>`.
pub fn quest_install_plan(install_location: &str, hash: &str, unpack_dir: &str) -> (r:
    QuestPlan)
    ensures
        install_location@.len() >= 6 && install_location@.take(6) == "adb://"@ ==> (
        r matches QuestPlan::Adb { connect, mkdir, push } && {
            let target = install_location@.skip(6);
            let dir = quest_device_dir(hash@);
            &&& (target == "usb"@ ==> connect is None)
            &&& (target != "usb"@ ==> (connect matches Some(c) && c@.len() == 2 && c@[0]@
                == "connect"@ && c@[1]@ == target))
            &&& mkdir@.len() == 4 && mkdir@[0]@ == "shell"@ && mkdir@[1]@ == "mkdir"@
                && mkdir@[2]@ == "-p"@ && mkdir@[3]@ == dir
            &&& push@.len() == 3 && push@[0]@ == "push"@ && push@[1]@ == unpack_dir@ + "/."@
                && push@[2]@ == dir
        }),
        !(install_location@.len() >= 6 && install_location@.take(6) == "adb://"@) ==> (
        r matches QuestPlan::Upload { url, referer, part_name } && url@ == install_location@
            + "/host/beatsaber/upload"@ && referer@ == install_location@ + "/main/upload"@
            && part_name@ == "custom_level_"@ + hash@),
{
    let loc_chars = crate::chars::str_to_chars(install_location);
    proof {
        reveal_strlit("adb://");
    }
    let is_adb = loc_chars.len() >= 6 && loc_chars[0] == 'a' && loc_chars[1] == 'd'
        && loc_chars[2] == 'b' && loc_chars[3] == ':' && loc_chars[4] == '/' && loc_chars[5]
        == '/';
    proof {
        if is_adb {
            assert(install_location@.take(6) =~= "adb://"@);
        }
        if !is_adb && install_location@.len() >= 6 {
            assert(install_location@.take(6) != "adb://"@) by {
                if install_location@.take(6) == "adb://"@ {
                    assert(install_location@.take(6)[0] == 'a');
                    assert(install_location@.take(6)[1] == 'd');
                    assert(install_location@.take(6)[2] == 'b');
                    assert(install_location@.take(6)[3] == ':');
                    assert(install_location@.take(6)[4] == '/');
                    assert(install_location@.take(6)[5] == '/');
                    assert(false);
                }
            }
        }
    }
    if is_adb {
        let dir = String::from_str(
            "/sdcard/ModData/com.beatgames.beatsaber/Mods/SongLoader/CustomLevels/",
        ).concat("custom_level_").concat(hash).concat("/");
        let mut target_chars: Vec<char> = Vec::new();
        let mut k: usize = 6;
        while k < loc_chars.len()
            invariant
                6 <= k <= loc_chars@.len(),
                loc_chars@ == install_location@,
                target_chars@ == install_location@.subrange(6, k as int),
            decreases loc_chars.len() - k,
        {
            target_chars.push(loc_chars[k]);
            proof {
                assert(install_location@.subrange(6, k as int + 1) =~= install_location@.subrange(
                    6,
                    k as int,
                ).push(install_location@[k as int]));
            }
            k = k + 1;
        }
        proof {
            assert(install_location@.subrange(6, install_location@.len() as int)
                =~= install_location@.skip(6));
        }
        let target = crate::chars::chars_to_string(&target_chars);
        let connect = if crate::chars::str_eq(target.as_str(), "usb") {
            None
        } else {
            let mut c: Vec<String> = Vec::new();
            c.push(String::from_str("connect"));
            c.push(target);
            Some(c)
        };
        let mut mkdir: Vec<String> = Vec::new();
        mkdir.push(String::from_str("shell"));
        mkdir.push(String::from_str("mkdir"));
        mkdir.push(String::from_str("-p"));
        mkdir.push(dir.clone());
        let mut push: Vec<String> = Vec::new();
        push.push(String::from_str("push"));
        push.push(String::from_str(unpack_dir).concat("/."));
        push.push(dir);
        QuestPlan::Adb { connect, mkdir, push }
    } else {
        QuestPlan::Upload {
            url: String::from_str(install_location).concat("/host/beatsaber/upload"),
            referer: String::from_str(install_location).concat("/main/upload"),
            part_name: String::from_str("custom_level_").concat(hash),
        }
    }
}

/// What one Quest install attempt came to, as the host observed it.
pub enum QuestAttemptOutcome {
    /// The attempt installed the map.
    Success,
    /// The attempt failed with this rendered cause; another may follow.
    Failure(String),
    /// The attempt's task itself could not be joined: no retry makes
    /// sense.
    JoinFailure(String),
}

/// How a finished Quest install reports: success, retries exhausted with
/// the last cause, or an unjoinable task.
pub enum QuestVerdict {
    Success,
    TriesExceeded(String),
    JoinError(String),
}

/// What the retry loop does after one attempt: back off this many
/// seconds and try again, or finish with a verdict.
pub enum RetryDecision {
    Backoff(u64),
    Finish(QuestVerdict),
}

/// The shape of an attempt outcome, over character sequences.
pub enum AttemptModel {
    Success,
    Failure(Seq<char>),
    JoinFailure(Seq<char>),
}

/// The shape of a verdict, over character sequences.
pub enum VerdictModel {
    Success,
    TriesExceeded(Seq<char>),
    JoinError(Seq<char>),
}

/// The shape of a retry decision.
pub enum DecisionModel {
    Backoff(u64),
    Finish(VerdictModel),
}

impl View for QuestAttemptOutcome {
    type V = AttemptModel;

    open spec fn view(&self) -> AttemptModel {
        match self {
            QuestAttemptOutcome::Success => AttemptModel::Success,
            QuestAttemptOutcome::Failure(m) => AttemptModel::Failure(m@),
            QuestAttemptOutcome::JoinFailure(m) => AttemptModel::JoinFailure(m@),
        }
    }
}

impl View for QuestVerdict {
    type V = VerdictModel;

    open spec fn view(&self) -> VerdictModel {
        match self {
            QuestVerdict::Success => VerdictModel::Success,
            QuestVerdict::TriesExceeded(m) => VerdictModel::TriesExceeded(m@),
            QuestVerdict::JoinError(m) => VerdictModel::JoinError(m@),
        }
    }
}

impl View for RetryDecision {
    type V = DecisionModel;

    open spec fn view(&self) -> DecisionModel {
        match self {
            RetryDecision::Backoff(s) => DecisionModel::Backoff(*s),
            RetryDecision::Finish(v) => DecisionModel::Finish(v@),
        }
    }
}

/// How many attempts a Quest install gets.
pub const QUEST_MAX_ATTEMPTS: u8 = 10;

/// How long the loop waits between failed attempts, in seconds.
pub const QUEST_BACKOFF_SECS: u64 = 60;

/// The retry rule after the attempt numbered `attempts_done` (counted
/// from zero) comes back: success and unjoinable tasks finish at once;
/// a failure backs off sixty seconds and retries, unless it was the
/// tenth attempt, which finishes with the retries exhausted and that
/// last cause.
pub open spec fn retry_decision_model(attempts_done: int, outcome: AttemptModel) -> DecisionModel {
    match outcome {
        AttemptModel::Success => DecisionModel::Finish(VerdictModel::Success),
        AttemptModel::JoinFailure(m) => DecisionModel::Finish(VerdictModel::JoinError(m)),
        AttemptModel::Failure(m) => if attempts_done >= QUEST_MAX_ATTEMPTS - 1 {
            DecisionModel::Finish(VerdictModel::TriesExceeded(m))
        } else {
            DecisionModel::Backoff(QUEST_BACKOFF_SECS as u64)
        },
    }
}

/// Decides what the Quest retry loop does next, by the retry rule. The
/// host performs one attempt, hands its outcome in, and either backs off
/// and attempts again or delivers the verdict.
pub fn quest_retry_step(attempts_done: u8, outcome: QuestAttemptOutcome) -> (r: RetryDecision)
    requires
        attempts_done < QUEST_MAX_ATTEMPTS,
    ensures
        r@ == retry_decision_model(attempts_done as int, outcome@),
{
    match outcome {
        QuestAttemptOutcome::Success => RetryDecision::Finish(QuestVerdict::Success),
        QuestAttemptOutcome::JoinFailure(m) => RetryDecision::Finish(QuestVerdict::JoinError(m)),
        QuestAttemptOutcome::Failure(m) => {
            if attempts_done >= QUEST_MAX_ATTEMPTS - 1 {
                RetryDecision::Finish(QuestVerdict::TriesExceeded(m))
            } else {
                RetryDecision::Backoff(QUEST_BACKOFF_SECS)
            }
        },
    }
}

/// What a loop driven by the retry rule comes to on a given trace of
/// attempt outcomes, starting after `i` attempts are already done:
/// the verdict, and how many attempts were made in all. `None` means
/// the trace ran out before the rule finished, which a host that
/// performs an attempt whenever the rule asks for one never lets
/// happen.
pub open spec fn retry_trace_verdict(outcomes: Seq<AttemptModel>, i: int) -> Option<
    (VerdictModel, int),
>
    decreases QUEST_MAX_ATTEMPTS - i,
{
    if i < 0 || i >= QUEST_MAX_ATTEMPTS || i >= outcomes.len() {
        None
    } else {
        match retry_decision_model(i, outcomes[i]) {
            DecisionModel::Finish(v) => Some((v, i + 1)),
            DecisionModel::Backoff(_) => retry_trace_verdict(outcomes, i + 1),
        }
    }
}

/// Retry shape, exhaustion: when all ten attempts fail, the loop makes
/// exactly ten attempts and delivers exactly one verdict — the retries
/// exhausted, carrying the tenth failure's cause.
pub proof fn lemma_retry_all_fail(outcomes: Seq<AttemptModel>)
    requires
        outcomes.len() == QUEST_MAX_ATTEMPTS,
        forall|k: int| 0 <= k < outcomes.len() ==> (#[trigger] outcomes[k]) matches
            AttemptModel::Failure(_),
    ensures
        retry_trace_verdict(outcomes, 0) matches Some(r) && r.1 == QUEST_MAX_ATTEMPTS
            && r.0 == VerdictModel::TriesExceeded(
            outcomes[QUEST_MAX_ATTEMPTS - 1]->Failure_0,
        ),
{
    lemma_retry_all_fail_from(outcomes, 0);
}

proof fn lemma_retry_all_fail_from(outcomes: Seq<AttemptModel>, i: int)
    requires
        outcomes.len() == QUEST_MAX_ATTEMPTS,
        0 <= i < QUEST_MAX_ATTEMPTS,
        forall|k: int| 0 <= k < outcomes.len() ==> (#[trigger] outcomes[k]) matches
            AttemptModel::Failure(_),
    ensures
        retry_trace_verdict(outcomes, i) matches Some(r) && r.1 == QUEST_MAX_ATTEMPTS
            && r.0 == VerdictModel::TriesExceeded(
            outcomes[QUEST_MAX_ATTEMPTS - 1]->Failure_0,
        ),
    decreases QUEST_MAX_ATTEMPTS - i,
{
    if i == QUEST_MAX_ATTEMPTS - 1 {
    } else {
        lemma_retry_all_fail_from(outcomes, i + 1);
    }
}

/// Retry shape, early success: when the first `i` attempts fail and
/// attempt `i` succeeds, the loop makes exactly `i + 1` attempts and
/// delivers exactly one verdict — success.
pub proof fn lemma_retry_success_at(outcomes: Seq<AttemptModel>, i: int)
    requires
        0 <= i < QUEST_MAX_ATTEMPTS,
        i < outcomes.len(),
        forall|k: int| 0 <= k < i ==> (#[trigger] outcomes[k]) matches AttemptModel::Failure(_),
        outcomes[i] == AttemptModel::Success,
    ensures
        retry_trace_verdict(outcomes, 0) == Some((VerdictModel::Success, i + 1)),
{
    lemma_retry_success_from(outcomes, i, 0);
}

proof fn lemma_retry_success_from(outcomes: Seq<AttemptModel>, i: int, j: int)
    requires
        0 <= j <= i < QUEST_MAX_ATTEMPTS,
        i < outcomes.len(),
        forall|k: int| 0 <= k < i ==> (#[trigger] outcomes[k]) matches AttemptModel::Failure(_),
        outcomes[i] == AttemptModel::Success,
    ensures
        retry_trace_verdict(outcomes, j) == Some((VerdictModel::Success, i + 1)),
    decreases i - j,
{
    if j < i {
        lemma_retry_success_from(outcomes, i, j + 1);
    }
}

/// Failure of asking the local daemon to queue a map.
#[derive(Debug)]
pub enum InstallRequestError {
    /// Transport failure, rendered.
    HttpError(String),
    /// The daemon answered with a non-success HTTP status.
    HttpStatusError(u16),
}

/// The local endpoint that queues a map install: the daemon's own REST
/// surface on the loopback address.
pub fn queue_map_url(id: &str) -> (r: String)
    ensures
        r@ == "http://127.0.0.1:2706/queue/map/"@ + id@,
{
    String::from_str("http://127.0.0.1:2706/queue/map/").concat(id)
}

/// Decides what a queueing request came to: a success status is
/// acceptance, any other status is reported with its code.
pub fn classify_queue_response(status: u16) -> (r: Result<(), InstallRequestError>)
    ensures
        200 <= status < 300 ==> r is Ok,
        !(200 <= status < 300) ==> r == Err::<(), InstallRequestError>(
            InstallRequestError::HttpStatusError(status),
        ),
{
    if 200 <= status && status < 300 {
        Ok(())
    } else {
        Err(InstallRequestError::HttpStatusError(status))
    }
}

/// Decides what one finished upload to the on-device host came to:
/// success is exactly HTTP 204, and any other code is the fixed
/// invalid-response cause the retry loop records.
pub fn classify_upload_response(status: u32) -> (r: Result<(), String>)
    ensures
        status == 204 <==> r is Ok,
        r matches Err(m) ==> m@ == "Invalid response code"@,
{
    if status == 204 {
        Ok(())
    } else {
        Err(String::from_str("Invalid response code"))
    }
}

/// Normalizes a one-click argument to a bare catalog id: a leading
/// `aiosaber://` scheme goes, then one trailing `/` goes.
pub fn normalize_map_install_arg(arg: &str) -> (r: String)
    ensures
        r@ == strip_trailing_slash(strip_scheme(arg@)),
{
    proof {
        reveal_strlit("aiosaber://");
    }
    let chars = crate::chars::str_to_chars(arg);
    let is_scheme = chars.len() >= 11 && chars[0] == 'a' && chars[1] == 'i' && chars[2] == 'o'
        && chars[3] == 's' && chars[4] == 'a' && chars[5] == 'b' && chars[6] == 'e' && chars[7]
        == 'r' && chars[8] == ':' && chars[9] == '/' && chars[10] == '/';
    proof {
        if is_scheme {
            assert(arg@.take(11) =~= "aiosaber://"@);
        }
        if !is_scheme && arg@.len() >= 11 {
            assert(arg@.take(11) != "aiosaber://"@) by {
                if arg@.take(11) == "aiosaber://"@ {
                    assert(arg@.take(11)[0] == 'a');
                    assert(arg@.take(11)[1] == 'i');
                    assert(arg@.take(11)[2] == 'o');
                    assert(arg@.take(11)[3] == 's');
                    assert(arg@.take(11)[4] == 'a');
                    assert(arg@.take(11)[5] == 'b');
                    assert(arg@.take(11)[6] == 'e');
                    assert(arg@.take(11)[7] == 'r');
                    assert(arg@.take(11)[8] == ':');
                    assert(arg@.take(11)[9] == '/');
                    assert(arg@.take(11)[10] == '/');
                    assert(false);
                }
            }
        }
    }
    let mut rest: Vec<char> = Vec::new();
    let start: usize = if is_scheme {
        11
    } else {
        0
    };
    let mut k: usize = start;
    while k < chars.len()
        invariant
            start <= k <= chars@.len(),
            chars@ == arg@,
            rest@ == arg@.subrange(start as int, k as int),
        decreases chars.len() - k,
    {
        rest.push(chars[k]);
        proof {
            assert(arg@.subrange(start as int, k as int + 1) =~= arg@.subrange(
                start as int,
                k as int,
            ).push(arg@[k as int]));
        }
        k = k + 1;
    }
    proof {
        assert(arg@.subrange(start as int, arg@.len() as int) =~= arg@.skip(start as int));
        if is_scheme {
            assert(rest@ == strip_scheme(arg@));
        } else {
            assert(arg@.skip(0) =~= arg@);
            assert(rest@ == strip_scheme(arg@));
        }
    }
    if rest.len() > 0 && rest[rest.len() - 1] == '/' {
        rest.pop();
        proof {
            assert(rest@ =~= strip_scheme(arg@).drop_last());
        }
    }
    crate::chars::chars_to_string(&rest)
}

/// The argument without its `aiosaber://` scheme, if it carries one.
pub open spec fn strip_scheme(s: Seq<char>) -> Seq<char> {
    if s.len() >= 11 && s.take(11) == "aiosaber://"@ {
        s.skip(11)
    } else {
        s
    }
}

/// The text without one trailing `/`, if it ends in one.
pub open spec fn strip_trailing_slash(s: Seq<char>) -> Seq<char> {
    if s.len() > 0 && s.last() == '/' {
        s.drop_last()
    } else {
        s
    }
}

} // verus!
