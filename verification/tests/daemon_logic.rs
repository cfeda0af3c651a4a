use aiosaber_client::beatsaver::{BeatSaverMap, MapMetadata as SongMetadata, MapVersion};
use aiosaber_client::config::{
    config_from_fields, config_to_fields, index_contains_hash, index_contains_id,
    merge_configs, rebuild_index, watcher_created, watcher_removed, watcher_renamed,
    CatalogLookup, ConfigData, HashOutcome, InstallType, MapData, MapMetadata, ScanResult,
};
use aiosaber_client::index_file::{encode_index, parse_index};
use aiosaber_client::installer::Installer;
use aiosaber_client::queue_handler::{
    decide_map_install, download_failure_message, fan_out_map, install_result_message,
    mod_request, record_pc_install, InstallerQueueData, InstallerQueueError,
    InstallerQueueResult, MapInstallDecision, SchedulerState, DownloadQueueRequest,
    DEFAULT_CONCURRENT_DOWNLOADS,
};
use aiosaber_client::webserver::{allowed_methods, allowed_origins, daemon_port, queue_accept_status};
use aiosaber_client::websocket_handler::{
    one_click_result_message, plan_web_socket_message, ControlPlaneAction, ResultMessageData,
    WebSocketCommonModData, WebSocketMessage, WebSocketMod, WebSocketPcModData,
    WebSocketPcModType, WebSocketQuestModData,
};

fn a_map(id: &str) -> BeatSaverMap {
    BeatSaverMap {
        id: id.to_string(),
        name: "name".to_string(),
        description: String::new(),
        metadata: SongMetadata {
            bpm: 120,
            duration: 60,
            song_name: "Song".to_string(),
            song_sub_name: String::new(),
            song_author_name: "Composer".to_string(),
            level_author_name: "Mapper".to_string(),
        },
        automapper: false,
        ranked: false,
        qualified: false,
        versions: Vec::new(),
    }
}

fn a_version(hash: &str) -> MapVersion {
    MapVersion {
        hash: hash.to_string(),
        state: "Published".to_string(),
        created_at: 1,
        download_url: String::new(),
    }
}

fn a_target(id: &str, kind: InstallType, location: &str) -> ConfigData {
    ConfigData {
        id: id.to_string(),
        rest_token: "SECRET-REDACTED".to_string(),
        install_type: kind,
        install_location: location.to_string(),
    }
}

#[test]
fn dedup_answers_already_installed_without_network() {
    let mut index: Vec<MapData> = Vec::new();
    record_pc_install(&mut index, "C:\\BS\\lvl".to_string(), "deadbeef".to_string(), 0x1a2b3c);
    assert!(matches!(
        decide_map_install(&index, "deadbeef"),
        MapInstallDecision::AlreadyInstalled
    ));
    assert!(matches!(decide_map_install(&index, "cafebabe"), MapInstallDecision::Proceed));
    // an already-installed result broadcasts nothing
    let msg = install_result_message("t", &InstallerQueueResult::MapAlreadyInstalled(a_map("1a2b3c"), a_version("deadbeef")));
    assert!(msg.is_none());
}

#[test]
fn index_queries_by_hash_and_id() {
    let mut index: Vec<MapData> = Vec::new();
    record_pc_install(&mut index, "p1".to_string(), "deadbeef".to_string(), 0x1a2b3c);
    index.push(MapData::Unknown("p2".to_string(), "feedface".to_string()));
    index.push(MapData::Invalid("p3".to_string()));
    assert!(index_contains_hash(&index, "deadbeef"));
    assert!(index_contains_hash(&index, "feedface"));
    assert!(!index_contains_hash(&index, "0ddball0"));
    assert!(index_contains_id(&index, "1a2b3c"));
    assert!(index_contains_id(&index, "1A2B3C"));
    assert!(!index_contains_id(&index, "99"));
}

#[test]
fn index_file_round_trips_every_entry_kind() {
    let mut index: Vec<MapData> = Vec::new();
    index.push(MapData::Valid(MapMetadata {
        path: "C:\\Users\\p \"quoted\"\\lvl".to_string(),
        hash: "deadbeef".to_string(),
        id: 0x1a2b3c,
    }));
    index.push(MapData::Unknown("plain/path".to_string(), "cafebabe".to_string()));
    index.push(MapData::Invalid("broken, [entry]".to_string()));
    let text = encode_index(&index);
    let back = parse_index(text.as_str()).expect("the encoder's output must parse");
    assert_eq!(back.len(), 3);
    match &back[0] {
        MapData::Valid(m) => {
            assert_eq!(m.path, "C:\\Users\\p \"quoted\"\\lvl");
            assert_eq!(m.hash, "deadbeef");
            assert_eq!(m.id, 0x1a2b3c);
        }
        _ => panic!("first entry must stay recognized"),
    }
    match &back[1] {
        MapData::Unknown(p, h) => {
            assert_eq!(p, "plain/path");
            assert_eq!(h, "cafebabe");
        }
        _ => panic!("second entry must stay unknown-origin"),
    }
    match &back[2] {
        MapData::Invalid(p) => assert_eq!(p, "broken, [entry]"),
        _ => panic!("third entry must stay invalid"),
    }
}

#[test]
fn index_file_empty_round_trip_and_strictness() {
    let empty: Vec<MapData> = Vec::new();
    let text = encode_index(&empty);
    assert_eq!(text, "[]");
    assert_eq!(parse_index("[]").unwrap().len(), 0);
    assert!(parse_index("").is_none());
    assert!(parse_index("[]x").is_none());
    assert!(parse_index("[[\"valid\",\"p\",\"h\",\"zz\"]]").is_none());
    assert!(parse_index("{\"kind\":1}").is_none());
}

#[test]
fn watcher_create_remove_rename_keep_index_consistent() {
    let mut index: Vec<MapData> = Vec::new();
    watcher_created(
        &mut index,
        "lvls/new".to_string(),
        HashOutcome::Hashed("deadbeef".to_string(), CatalogLookup::Found(0x1a2b3c)),
    );
    assert!(index_contains_hash(&index, "deadbeef"));
    // within the debounce the file on disk and the encoded index agree
    let text = encode_index(&index);
    let back = parse_index(text.as_str()).unwrap();
    assert!(index_contains_hash(&back, "deadbeef"));

    // a second create at the same path replaces, never duplicates
    watcher_created(
        &mut index,
        "lvls/new".to_string(),
        HashOutcome::Hashed("deadbeef".to_string(), CatalogLookup::NotFound),
    );
    assert_eq!(index.len(), 1);
    assert!(matches!(&index[0], MapData::Unknown(_, _)));

    let renamed = watcher_renamed(&mut index, "lvls/new", "lvls/moved".to_string());
    assert!(renamed);
    assert!(matches!(&index[0], MapData::Unknown(p, h) if p == "lvls/moved" && h == "deadbeef"));

    let missing = watcher_renamed(&mut index, "lvls/ghost", "lvls/other".to_string());
    assert!(!missing);
    assert_eq!(index.len(), 1);

    let removed = watcher_removed(&mut index, "lvls/moved");
    assert!(removed.is_some());
    assert!(index.is_empty());
    assert!(watcher_removed(&mut index, "lvls/moved").is_none());
}

#[test]
fn watcher_unparsable_directory_becomes_invalid() {
    let mut index: Vec<MapData> = Vec::new();
    watcher_created(&mut index, "lvls/junk".to_string(), HashOutcome::Unparsable);
    assert!(matches!(&index[0], MapData::Invalid(p) if p == "lvls/junk"));
}

#[test]
fn rebuild_records_unknown_origin_and_keeps_it() {
    let mut index: Vec<MapData> = Vec::new();
    let scans = vec![
        ScanResult::Hashed("lvls/one".to_string(), "deadbeef".to_string(), CatalogLookup::Found(0x1a2b3c)),
        ScanResult::Hashed("lvls/two".to_string(), "0ddball0".to_string(), CatalogLookup::NotFound),
        ScanResult::Hashed("lvls/three".to_string(), "cafebabe".to_string(), CatalogLookup::Transient),
        ScanResult::ParseFailed("lvls/four".to_string()),
        ScanResult::Faulted(aiosaber_client::map_index::IndexError::CannotReadMap("denied".to_string())),
    ];
    let errors = rebuild_index(&mut index, &scans);
    assert_eq!(errors.len(), 1);
    assert_eq!(index.len(), 3);
    assert!(matches!(&index[0], MapData::Valid(_)));
    assert!(matches!(&index[1], MapData::Unknown(p, h) if p == "lvls/two" && h == "0ddball0"));
    assert!(matches!(&index[2], MapData::Invalid(p) if p == "lvls/four"));
    // a later rebuild over the same disk state keeps the unknown entry
    let errors2 = rebuild_index(&mut index, &scans);
    assert_eq!(errors2.len(), 1);
    assert_eq!(index.len(), 3);
    assert!(index_contains_hash(&index, "0ddball0"));
}

#[test]
fn scheduler_never_exceeds_its_bound() {
    let mut s = SchedulerState::new(2);
    assert!(s.try_start());
    assert!(s.try_start());
    assert!(!s.try_start());
    assert!(s.active <= s.limit);
    s.finish();
    assert!(s.try_start());
    assert!(!s.try_start());
    assert_eq!(s.active, 2);
    assert_eq!(DEFAULT_CONCURRENT_DOWNLOADS, 4);
}

#[test]
fn fan_out_yields_one_payload_per_target() {
    let targets = vec![
        a_target("t1", InstallType::PC, "C:\\BS"),
        a_target("t2", InstallType::Quest, "adb://usb"),
        a_target("t3", InstallType::Quest, "http://phone.local:50000"),
    ];
    let map = a_map("1a2b3c");
    let version = a_version("deadbeef");
    let data: Vec<u8> = vec![80, 75, 3, 4];
    let out = fan_out_map(&map, &version, data.clone(), &targets);
    assert_eq!(out.len(), 3);
    for (i, (target_id, payload)) in out.iter().enumerate() {
        assert_eq!(target_id, &targets[i].id);
        match payload {
            InstallerQueueData::MapArtifact(m, v, d) => {
                assert_eq!(m.id, "1a2b3c");
                assert_eq!(m.name, "name");
                assert_eq!(m.metadata.song_name, "Song");
                assert_eq!(v.hash, "deadbeef");
                assert_eq!(d, &data);
            }
            _ => panic!("fan-out must carry the map artifact"),
        }
    }
}

#[test]
fn install_results_become_tagged_notices() {
    let ok = install_result_message(
        "t1",
        &InstallerQueueResult::MapSuccess(a_map("1a2b3c"), a_version("deadbeef")),
    )
    .unwrap();
    assert_eq!(ok.action, "InstallMaps");
    assert!(ok.success);
    match ok.data {
        ResultMessageData::MapInstallSuccess(t, id, h) => {
            assert_eq!(t, "t1");
            assert_eq!(id, "1a2b3c");
            assert_eq!(h, "deadbeef");
        }
        _ => panic!("expected the success payload"),
    }

    let err = install_result_message(
        "t1",
        &InstallerQueueResult::MapError(
            a_map("1a2b3c"),
            a_version("deadbeef"),
            InstallerQueueError::TriesExceeded("Invalid response code".to_string()),
        ),
    )
    .unwrap();
    assert!(!err.success);
    match err.data {
        ResultMessageData::MapInstallError(t, id, reason) => {
            assert_eq!(t.as_deref(), Some("t1"));
            assert_eq!(id, "1a2b3c");
            assert_eq!(reason, "Exceeded the maximum amount of retries. Last error: Invalid response code");
        }
        _ => panic!("expected the error payload"),
    }

    let pre = download_failure_message("1a2b3c", "Map 1a2b3c seems to have no versions");
    match pre.data {
        ResultMessageData::MapInstallError(t, id, _) => {
            assert!(t.is_none());
            assert_eq!(id, "1a2b3c");
        }
        _ => panic!("expected the error payload"),
    }
}

#[test]
fn queue_error_messages_exact() {
    assert_eq!(
        InstallerQueueError::JoinError("x".to_string()).message(),
        "Failed to join async install task x"
    );
    assert_eq!(
        InstallerQueueError::TriesExceeded("y".to_string()).message(),
        "Exceeded the maximum amount of retries. Last error: y"
    );
}

#[test]
fn config_update_rebuilds_exactly_changed_targets() {
    let current = vec![
        a_target("t1", InstallType::PC, "C:\\BS"),
        a_target("t2", InstallType::Quest, "adb://usb"),
    ];
    let incoming = vec![
        a_target("t1", InstallType::PC, "D:\\Elsewhere"),
        a_target("t3", InstallType::PC, "E:\\New"),
    ];
    let (merged, needs) = merge_configs(&current, &incoming);
    assert_eq!(merged.len(), 3);
    assert_eq!(merged[0].id, "t1");
    assert_eq!(merged[0].install_location, "D:\\Elsewhere");
    assert_eq!(merged[1].id, "t2");
    assert_eq!(merged[1].install_location, "adb://usb");
    assert_eq!(merged[2].id, "t3");
    assert_eq!(needs, vec!["t1".to_string()]);
}

#[test]
fn config_update_without_changes_rebuilds_nothing() {
    let current = vec![a_target("t1", InstallType::PC, "C:\\BS")];
    let incoming = vec![a_target("t1", InstallType::PC, "C:\\BS")];
    let (merged, needs) = merge_configs(&current, &incoming);
    assert_eq!(merged.len(), 1);
    assert!(needs.is_empty());
}

#[test]
fn config_fields_round() {
    let c = config_from_fields(
        Some("t1".to_string()),
        Some("SECRET-REDACTED".to_string()),
        Some("Quest".to_string()),
        Some("adb://usb".to_string()),
    )
    .unwrap();
    assert_eq!(c.id, "t1");
    assert!(matches!(c.install_type, InstallType::Quest));
    let fields = config_to_fields(&c);
    assert_eq!(fields[0], ("id".to_string(), "t1".to_string()));
    assert_eq!(fields[1].0, "restToken");
    assert_eq!(fields[2], ("installType".to_string(), "Quest".to_string()));
    assert_eq!(fields[3], ("installLocation".to_string(), "adb://usb".to_string()));

    let missing = config_from_fields(None, None, Some("PC".to_string()), Some("x".to_string()));
    assert!(missing.is_err());
    let bad_kind = config_from_fields(
        None,
        Some("tok".to_string()),
        Some("Switch".to_string()),
        Some("x".to_string()),
    );
    assert!(bad_kind.is_err());
    let fresh = config_from_fields(
        None,
        Some("tok".to_string()),
        Some("PC".to_string()),
        Some("x".to_string()),
    )
    .unwrap();
    assert_eq!(fresh.id.chars().count(), 36);
}

#[test]
fn install_type_spellings() {
    assert_eq!(InstallType::PC.to_string(), "PC");
    assert_eq!(InstallType::Quest.to_string(), "Quest");
    assert!(matches!(InstallType::from_str("PC"), Ok(InstallType::PC)));
    assert!(matches!(InstallType::from_str("Quest"), Ok(InstallType::Quest)));
    assert!(InstallType::from_str("pc").is_err());
}

#[test]
fn installer_variant_follows_target_kind() {
    let pc = Installer::from_config(a_target("t1", InstallType::PC, "C:\\BS"));
    assert!(matches!(pc, Installer::PC(_)));
    let quest = Installer::from_config(a_target("t2", InstallType::Quest, "adb://usb"));
    assert!(matches!(quest, Installer::Quest(_)));
}

#[test]
fn control_plane_message_plans() {
    let ids = vec!["1a2b3c".to_string()];
    match plan_web_socket_message(WebSocketMessage::InstallMaps(ids)) {
        ControlPlaneAction::EnqueueMaps(out) => assert_eq!(out, vec!["1a2b3c".to_string()]),
        _ => panic!("an install request must enqueue maps"),
    }
    let cfgs = vec![a_target("t1", InstallType::PC, "C:\\BS")];
    match plan_web_socket_message(WebSocketMessage::UpdateConfig(cfgs)) {
        ControlPlaneAction::UpdateConfigs(out) => assert_eq!(out.len(), 1),
        _ => panic!("a config update must merge"),
    }
    assert!(matches!(
        plan_web_socket_message(WebSocketMessage::SetupOneClick()),
        ControlPlaneAction::SetupOneClick
    ));
    assert!(matches!(
        plan_web_socket_message(WebSocketMessage::Connected(Vec::new())),
        ControlPlaneAction::Ignore
    ));

    let ws_mod = WebSocketMod::PcMod(WebSocketPcModData {
        common: WebSocketCommonModData {
            identifier: "a-mod".to_string(),
            url: "https://mods.example/a.zip".to_string(),
        },
        data: WebSocketPcModType::DLL("a.dll".to_string()),
    });
    match plan_web_socket_message(WebSocketMessage::InstallMods(vec![ws_mod])) {
        ControlPlaneAction::EnqueueMods(mods) => {
            assert_eq!(mods.len(), 1);
            match mod_request(mods.into_iter().next().unwrap()) {
                DownloadQueueRequest::PcMod(m) => assert_eq!(m.common.identifier, "a-mod"),
                _ => panic!("a PC mod request must stay a PC mod request"),
            }
        }
        _ => panic!("a mod install must enqueue mods"),
    }

    let quest_mod = WebSocketMod::QuestMod(WebSocketQuestModData {
        common: WebSocketCommonModData {
            identifier: "q-mod".to_string(),
            url: "u".to_string(),
        },
    });
    assert!(matches!(mod_request(quest_mod), DownloadQueueRequest::QuestMod(_)));
}

#[test]
fn message_names_and_one_click_notice() {
    assert_eq!(WebSocketMessage::SetupOneClick().to_string(), "SetupOneClick");
    assert_eq!(WebSocketMessage::InstallMaps(Vec::new()).to_string(), "InstallMaps");
    let ok = one_click_result_message(Ok("Success".to_string()));
    assert_eq!(ok.action, "SetupOneClick");
    assert!(ok.success);
    assert!(matches!(ok.data, ResultMessageData::Simple(m) if m == "Success"));
    let err = one_click_result_message(Err("Unsupported platform".to_string()));
    assert!(!err.success);
}

#[test]
fn rest_surface_constants() {
    assert_eq!(queue_accept_status(true), 204);
    assert_eq!(queue_accept_status(false), 500);
    assert_eq!(daemon_port(), 2706);
    let origins = allowed_origins();
    assert_eq!(
        origins,
        vec![
            "https://beatsaver.com".to_string(),
            "http://beatsaver.com".to_string(),
            "https://scoresaber.com".to_string()
        ]
    );
    assert_eq!(allowed_methods(), vec!["GET".to_string(), "POST".to_string()]);
}

#[test]
fn one_click_pc_install_pipeline() {
    // one PC target at C:\BS; the catalog answers id 1a2b3c with one
    // version hashed deadbeef
    let target = a_target("t1", InstallType::PC, "C:\\BS");
    let mut map = a_map("1a2b3c");
    map.versions.push(MapVersion {
        hash: "deadbeef".to_string(),
        state: "Published".to_string(),
        created_at: 7,
        download_url: "https://cdn.example/deadbeef.zip".to_string(),
    });
    let version = aiosaber_client::beatsaver::select_download_version(&map).unwrap();
    assert_eq!(version.hash, "deadbeef");

    let folder = aiosaber_client::installer::pc_map_folder_name(&map);
    let dir = aiosaber_client::installer::pc_map_target_dir(
        target.install_location.as_str(),
        folder.as_str(),
        '\\',
    );
    assert_eq!(dir, "C:\\BS\\Beat Saber_Data\\CustomLevels\\1a2b3c (Song - Mapper)");

    let mut index: Vec<MapData> = Vec::new();
    assert!(matches!(decide_map_install(&index, "deadbeef"), MapInstallDecision::Proceed));
    record_pc_install(&mut index, dir, "deadbeef".to_string(), 0x1a2b3c);

    let notice = install_result_message(
        "t1",
        &InstallerQueueResult::MapSuccess(map, version),
    )
    .unwrap();
    assert!(notice.success);
    match notice.data {
        ResultMessageData::MapInstallSuccess(t, id, h) => {
            assert_eq!((t.as_str(), id.as_str(), h.as_str()), ("t1", "1a2b3c", "deadbeef"));
        }
        _ => panic!("expected the success payload"),
    }

    // a re-run of the same install is answered from the index alone
    assert!(matches!(
        decide_map_install(&index, "deadbeef"),
        MapInstallDecision::AlreadyInstalled
    ));
}
