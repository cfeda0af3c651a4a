//! The control-plane protocol: the message taxonomy a paired web UI
//! exchanges with the daemon over one socket, and the decision each
//! inbound message calls for. Encoding to and from the wire, and the
//! socket itself, are the host application's; the library fixes what
//! each message means.

use vstd::prelude::*;
use vstd::string::StringExecFns;

verus! {

use crate::config::ConfigData;

/// Everything the control plane can carry, inbound or outbound.
pub enum WebSocketMessage {
    /// Server greeting and config echo: the configured targets.
    Connected(Vec<ConfigData>),
    /// Client request: merge these targets into the configuration.
    UpdateConfig(Vec<ConfigData>),
    /// Client request: register the one-click URL scheme handler.
    SetupOneClick(),
    /// Server notice: the outcome of a requested action.
    ResultResponse(ResultMsg),
    /// Client request: enqueue these catalog ids for install.
    InstallMaps(Vec<String>),
    /// Client request: enqueue these mods for install.
    InstallMods(Vec<WebSocketMod>),
}

/// A mod install request, by target kind.
pub enum WebSocketMod {
    PcMod(WebSocketPcModData),
    QuestMod(WebSocketQuestModData),
}

/// What every mod request carries: a display identifier and the URL the
/// artifact downloads from.
pub struct WebSocketCommonModData {
    pub identifier: String,
    pub url: String,
}

/// A Quest mod request; declared but not yet installable.
pub struct WebSocketQuestModData {
    pub common: WebSocketCommonModData,
}

/// A PC mod request: the common part plus how the artifact lands.
pub struct WebSocketPcModData {
    pub common: WebSocketCommonModData,
    pub data: WebSocketPcModType,
}

/// How a PC mod artifact lands: a single library file under `Plugins`,
/// or an archive unpacked at the install root or a subdirectory.
pub enum WebSocketPcModType {
    DLL(String),
    ZIP(Option<String>),
}

/// The outcome notice of one requested action.
pub struct ResultMsg {
    pub action: String,
    pub success: bool,
    pub data: ResultMessageData,
}

/// The payload of an outcome notice. Target identifiers travel in their
/// hyphenated text form.
pub enum ResultMessageData {
    /// An undifferentiated message.
    Simple(String),
    /// A map install failed: the target (absent when the failure struck
    /// before fan-out), the map id, and the reason.
    MapInstallError(Option<String>, String, String),
    /// A map install succeeded: target, map id, content hash.
    MapInstallSuccess(String, String, String),
    /// A mod install failed: its identifier and the reason.
    ModInstallError(String, String),
}

/// A location with content ids, as a web client reports it.
pub struct InstallData {
    location: String,
    data: Vec<String>,
}

/// A web client's self-identification.
pub struct ClientIdentity {
    pub unique_id: String,
}

/// The wire name of each message variant.
pub open spec fn message_name(m: WebSocketMessage) -> Seq<char> {
    match m {
        WebSocketMessage::Connected(_) => "Connected"@,
        WebSocketMessage::UpdateConfig(_) => "UpdateConfig"@,
        WebSocketMessage::SetupOneClick() => "SetupOneClick"@,
        WebSocketMessage::ResultResponse(_) => "ResultResponse"@,
        WebSocketMessage::InstallMaps(_) => "InstallMaps"@,
        WebSocketMessage::InstallMods(_) => "InstallMods"@,
    }
}

impl WebSocketMessage {
    /// The wire name of this message's variant.
    pub fn to_string(&self) -> (r: String)
        ensures
            r@ == message_name(*self),
    {
        match self {
            WebSocketMessage::Connected(_) => String::from_str("Connected"),
            WebSocketMessage::UpdateConfig(_) => String::from_str("UpdateConfig"),
            WebSocketMessage::SetupOneClick() => String::from_str("SetupOneClick"),
            WebSocketMessage::ResultResponse(_) => String::from_str("ResultResponse"),
            WebSocketMessage::InstallMaps(_) => String::from_str("InstallMaps"),
            WebSocketMessage::InstallMods(_) => String::from_str("InstallMods"),
        }
    }
}

/// What the daemon must do with one inbound message.
pub enum ControlPlaneAction {
    /// Merge these targets into the configuration, then answer
    /// `Connected` with the merged list.
    UpdateConfigs(Vec<ConfigData>),
    /// Register the URL scheme handler, then answer with its outcome.
    SetupOneClick,
    /// Enqueue one map download per id, in order; no direct answer.
    EnqueueMaps(Vec<String>),
    /// Enqueue one mod download per entry, in order; no direct answer.
    EnqueueMods(Vec<WebSocketMod>),
    /// A server-side message arriving from a client: ignore it.
    Ignore,
}

/// Decides what an inbound control-plane message calls for: each client
/// request maps to its action, and a server-side variant arriving
/// inbound is ignored.
pub fn plan_web_socket_message(msg: WebSocketMessage) -> (r: ControlPlaneAction)
    ensures
        msg matches WebSocketMessage::UpdateConfig(cs) ==> (r matches
            ControlPlaneAction::UpdateConfigs(out) && out == cs),
        msg is SetupOneClick ==> r is SetupOneClick,
        msg matches WebSocketMessage::InstallMaps(ids) ==> (r matches
            ControlPlaneAction::EnqueueMaps(out) && out == ids),
        msg matches WebSocketMessage::InstallMods(mods) ==> (r matches
            ControlPlaneAction::EnqueueMods(out) && out == mods),
        msg is Connected || msg is ResultResponse ==> r is Ignore,
{
    match msg {
        WebSocketMessage::UpdateConfig(cs) => ControlPlaneAction::UpdateConfigs(cs),
        WebSocketMessage::SetupOneClick() => ControlPlaneAction::SetupOneClick,
        WebSocketMessage::InstallMaps(ids) => ControlPlaneAction::EnqueueMaps(ids),
        WebSocketMessage::InstallMods(mods) => ControlPlaneAction::EnqueueMods(mods),
        WebSocketMessage::Connected(_) => ControlPlaneAction::Ignore,
        WebSocketMessage::ResultResponse(_) => ControlPlaneAction::Ignore,
    }
}

/// The outcome notice a one-click registration answers with: action
/// `SetupOneClick`, success exactly on `Ok`, and the registrar's message
/// either way.
pub fn one_click_result_message(result: Result<String, String>) -> (r: ResultMsg)
    ensures
        r.action@ == "SetupOneClick"@,
        r.success == result.is_ok(),
        result matches Ok(m) ==> r.data matches ResultMessageData::Simple(out) && out == m,
        result matches Err(m) ==> r.data matches ResultMessageData::Simple(out) && out == m,
{
    let (success, msg) = match result {
        Ok(m) => (true, m),
        Err(m) => (false, m),
    };
    ResultMsg {
        action: String::from_str("SetupOneClick"),
        success,
        data: ResultMessageData::Simple(msg),
    }
}

} // verus!
