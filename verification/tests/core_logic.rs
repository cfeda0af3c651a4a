use aiosaber_client::beatsaver::{
    classify_map_response, find_latest_version, get_beatsaver_base_url, map_by_hash_url,
    map_by_id_url, normalize_base_url, select_download_version, BeatSaverDownloadError,
    BeatSaverError, BeatSaverMap, MapMetadata, MapVersion,
};
use aiosaber_client::hex::{hex_digit, parse_hex_u32, to_hex_digits};
use aiosaber_client::http_client::{classify_download, HttpError};
use aiosaber_client::config::InstallType;
use aiosaber_client::installer::{
    classify_queue_response, classify_upload_response, custom_level_name,
    normalize_map_install_arg, pc_map_folder_name, pc_map_target_dir, pc_mod_dll_target,
    pc_mod_zip_target, plan_mod_install, quest_install_plan, quest_retry_step, queue_map_url,
    sanitize_name, InstallRequestError, ModInstallPlan, QuestAttemptOutcome, QuestPlan,
    QuestVerdict, RetryDecision,
};
use aiosaber_client::websocket_handler::WebSocketPcModType;
use aiosaber_client::map_index::{
    canonical_hash, duplicate_hash_flags, extract_difficulty_filenames,
    info_dat_error_to_index_error, IndexError, InfoDatError,
};

fn sample_map(id: &str, song: &str, author: &str, versions: Vec<MapVersion>) -> BeatSaverMap {
    BeatSaverMap {
        id: id.to_string(),
        name: "a song".to_string(),
        description: String::new(),
        metadata: MapMetadata {
            bpm: 128,
            duration: 180,
            song_name: song.to_string(),
            song_sub_name: String::new(),
            song_author_name: "composer".to_string(),
            level_author_name: author.to_string(),
        },
        automapper: false,
        ranked: false,
        qualified: false,
        versions,
    }
}

fn version(hash: &str, created_at: i64) -> MapVersion {
    MapVersion {
        hash: hash.to_string(),
        state: "Published".to_string(),
        created_at,
        download_url: format!("https://cdn.example/{}.zip", hash),
    }
}

#[test]
fn canonical_hash_matches_known_sha1() {
    // SHA-1 of "Hello World!" over a manifest with no difficulty files
    let info: Vec<u8> = b"Hello World!".to_vec();
    let hash = canonical_hash(&info, &Vec::new());
    assert_eq!(hash, "2ef7bde608ce5404e97d5f042f95f89f1c232871");
}

#[test]
fn canonical_hash_concatenates_difficulties_in_order() {
    // the same digest must come out when the payload is split between
    // the manifest and one difficulty file
    let info: Vec<u8> = b"Hello ".to_vec();
    let parts: Vec<Vec<u8>> = vec![b"World!".to_vec()];
    let hash = canonical_hash(&info, &parts);
    assert_eq!(hash, "2ef7bde608ce5404e97d5f042f95f89f1c232871");
    let swapped = canonical_hash(&b"World!".to_vec(), &vec![b"Hello ".to_vec()]);
    assert_ne!(hash, swapped);
}

#[test]
fn canonical_hash_is_deterministic() {
    let info: Vec<u8> = b"{\"_version\":\"2.0.0\"}".to_vec();
    let parts: Vec<Vec<u8>> = vec![vec![1, 2, 3], vec![250, 251]];
    assert_eq!(canonical_hash(&info, &parts), canonical_hash(&info, &parts));
}

#[test]
fn canonical_hash_of_empty_payload() {
    let hash = canonical_hash(&Vec::new(), &Vec::new());
    assert_eq!(hash, "da39a3ee5e6b4b0d3255bfef95601890afd80709");
}

#[test]
fn extract_difficulty_filenames_in_document_order() {
    let info = br#"{
        "_difficultyBeatmapSets": [
            {"_beatmapCharacteristicName": "Standard",
             "_difficultyBeatmaps": [
                {"_difficulty": "Easy", "_beatmapFilename": "Easy.dat"},
                {"_difficulty": "Hard", "_beatmapFilename": "Hard.dat"}
            ]},
            {"_beatmapCharacteristicName": "OneSaber",
             "_difficultyBeatmaps": [
                {"_difficulty": "Expert", "_beatmapFilename": "ExpertOneSaber.dat"}
            ]}
        ]
    }"#;
    let names = extract_difficulty_filenames(&info.to_vec()).unwrap();
    assert_eq!(names, vec!["Easy.dat", "Hard.dat", "ExpertOneSaber.dat"]);
}

#[test]
fn extract_difficulty_filenames_skips_malformed_entries() {
    let info = br#"{
        "_difficultyBeatmapSets": [
            17,
            {"_difficultyBeatmaps": [
                {"_beatmapFilename": "Kept.dat"},
                {"_beatmapFilename": 42},
                "not an object"
            ]},
            {"noBeatmaps": true}
        ]
    }"#;
    let names = extract_difficulty_filenames(&info.to_vec()).unwrap();
    assert_eq!(names, vec!["Kept.dat"]);
}

#[test]
fn extract_difficulty_filenames_rejects_bad_shape() {
    let not_obj = extract_difficulty_filenames(&b"[1,2,3]".to_vec());
    assert!(matches!(not_obj, Err(InfoDatError::Shape)));
    let no_sets = extract_difficulty_filenames(&b"{\"a\":1}".to_vec());
    assert!(matches!(no_sets, Err(InfoDatError::Shape)));
    let sets_not_array = extract_difficulty_filenames(&b"{\"_difficultyBeatmapSets\":3}".to_vec());
    assert!(matches!(sets_not_array, Err(InfoDatError::Shape)));
}

#[test]
fn extract_difficulty_filenames_rejects_bad_json() {
    let bad = extract_difficulty_filenames(&b"{not json".to_vec());
    assert!(matches!(bad, Err(InfoDatError::Json(_))));
}

#[test]
fn manifest_failures_map_to_index_errors() {
    let json = info_dat_error_to_index_error(
        InfoDatError::Json("expected value".to_string()),
        "lvls/bad".to_string(),
    );
    match json {
        IndexError::MapJsonError(cause, path) => {
            assert_eq!(cause, "expected value");
            assert_eq!(path, "lvls/bad");
        }
        _ => panic!("a JSON failure must become a map-json error"),
    }
    let shape = info_dat_error_to_index_error(InfoDatError::Shape, "lvls/odd".to_string());
    assert!(matches!(shape, IndexError::InvalidMapInfoDat(p) if p == "lvls/odd"));
}

#[test]
fn latest_version_picks_argmax_of_created_at() {
    let map = sample_map(
        "1a2b3c",
        "song",
        "author",
        vec![version("aaaa", 100), version("cccc", 300), version("bbbb", 200)],
    );
    let latest = find_latest_version(&map).unwrap();
    assert_eq!(latest.hash, "cccc");
    assert_eq!(latest.created_at, 300);
}

#[test]
fn latest_version_of_empty_is_none() {
    let map = sample_map("1a2b3c", "song", "author", Vec::new());
    assert!(find_latest_version(&map).is_none());
    match select_download_version(&map) {
        Err(BeatSaverDownloadError::NoMapVersion(id)) => assert_eq!(id, "1a2b3c"),
        _ => panic!("expected the no-version error"),
    }
}

#[test]
fn latest_version_tie_goes_to_last_listed() {
    let map = sample_map(
        "ff",
        "song",
        "author",
        vec![version("first", 100), version("second", 100)],
    );
    assert_eq!(find_latest_version(&map).unwrap().hash, "second");
}

#[test]
fn base_url_is_normalized() {
    assert_eq!(get_beatsaver_base_url(), "https://beatsaver.com/api/");
    assert_eq!(normalize_base_url("https://x.example/api".to_string()), "https://x.example/api/");
    assert_eq!(normalize_base_url("https://x.example/api/".to_string()), "https://x.example/api/");
}

#[test]
fn lookup_urls() {
    assert_eq!(map_by_id_url("https://beatsaver.com/api/", "1a2b3c"), "https://beatsaver.com/api/maps/id/1a2b3c");
    assert_eq!(map_by_hash_url("https://beatsaver.com/api/", "deadbeef"), "https://beatsaver.com/api/maps/hash/deadbeef");
}

#[test]
fn map_response_classification() {
    let map = sample_map("1a2b3c", "song", "author", Vec::new());
    let ok = classify_map_response(200, "u".to_string(), "{}".to_string(), Some(map));
    assert!(matches!(ok, Ok(m) if m.id == "1a2b3c"));
    let status = classify_map_response(404, "u".to_string(), String::new(), None);
    assert!(matches!(status, Err(BeatSaverError::StatusCodeError(404))));
    let decode = classify_map_response(200, "u".to_string(), "raw".to_string(), None);
    match decode {
        Err(BeatSaverError::JsonError(_, url, body)) => {
            assert_eq!(url, "u");
            assert_eq!(body, "raw");
        }
        _ => panic!("expected the decode error"),
    }
}

#[test]
fn download_classification() {
    assert!(matches!(classify_download(204, vec![7]), Ok(b) if b == vec![7]));
    assert!(matches!(classify_download(500, vec![7]), Err(HttpError::StatusCodeError(500))));
}

#[test]
fn hex_parsing_exact() {
    let to_chars = |s: &str| s.chars().collect::<Vec<char>>();
    assert_eq!(parse_hex_u32(&to_chars("deadbeef")), Some(0xdead_beef));
    assert_eq!(parse_hex_u32(&to_chars("DEADBEEF")), Some(0xdead_beef));
    assert_eq!(parse_hex_u32(&to_chars("1a2b3c")), Some(0x1a2b3c));
    assert_eq!(parse_hex_u32(&to_chars("0")), Some(0));
    assert_eq!(parse_hex_u32(&to_chars("0000000001")), Some(1));
    assert_eq!(parse_hex_u32(&to_chars("")), None);
    assert_eq!(parse_hex_u32(&to_chars("xyz")), None);
    assert_eq!(parse_hex_u32(&to_chars("100000000")), None);
    assert_eq!(parse_hex_u32(&to_chars("ffffffff")), Some(u32::MAX));
    assert_eq!(hex_digit('a'), Some(10));
    assert_eq!(hex_digit('G'), None);
}

#[test]
fn hex_rendering_round_trips() {
    let digits = to_hex_digits(0x1a2b3c);
    let text: String = digits.iter().collect();
    assert_eq!(text, "1a2b3c");
    assert_eq!(parse_hex_u32(&digits), Some(0x1a2b3c));
    let zero: String = to_hex_digits(0).iter().collect();
    assert_eq!(zero, "0");
}

#[test]
fn folder_name_sanitized() {
    let map = sample_map("1a2b3c", "What?/When*", "Au|th<or>", Vec::new());
    let folder = pc_map_folder_name(&map);
    assert_eq!(folder, "1a2b3c (WhatWhen - Author)");
    for forbidden in ['\\', '/', '*', '?', '"', '<', '>', '|'] {
        assert!(!folder.contains(forbidden));
    }
}

#[test]
fn sanitize_strips_every_forbidden_character() {
    assert_eq!(sanitize_name("a\\b/c*d?e\"f<g>h|i"), "abcdefghi");
    assert_eq!(sanitize_name("plain name"), "plain name");
    assert_eq!(sanitize_name(""), "");
}

#[test]
fn pc_paths() {
    assert_eq!(
        pc_map_target_dir("C:\\BS", "1a2b3c (Song - Author)", '\\'),
        "C:\\BS\\Beat Saber_Data\\CustomLevels\\1a2b3c (Song - Author)"
    );
    assert_eq!(pc_mod_dll_target("C:\\BS", "mod.dll", '\\'), "C:\\BS\\Plugins\\mod.dll");
    assert_eq!(pc_mod_zip_target("C:\\BS", Some("Sub"), '\\'), "C:\\BS\\Sub");
    assert_eq!(pc_mod_zip_target("C:\\BS", None, '\\'), "C:\\BS");
}

#[test]
fn quest_adb_plan_exact_commands() {
    let plan = quest_install_plan(
        "adb://192.168.1.10:5555",
        "cafebabe",
        "./unpack/custom_level_cafebabe",
    );
    let dir = "/sdcard/ModData/com.beatgames.beatsaber/Mods/SongLoader/CustomLevels/custom_level_cafebabe/";
    match plan {
        QuestPlan::Adb { connect, mkdir, push } => {
            assert_eq!(connect, Some(vec!["connect".to_string(), "192.168.1.10:5555".to_string()]));
            assert_eq!(mkdir, vec!["shell", "mkdir", "-p", dir]);
            assert_eq!(push, vec!["push", "./unpack/custom_level_cafebabe/.", dir]);
        }
        _ => panic!("expected the device-bridge plan"),
    }
}

#[test]
fn quest_adb_usb_skips_connect() {
    let plan = quest_install_plan("adb://usb", "cafebabe", "./unpack/custom_level_cafebabe");
    match plan {
        QuestPlan::Adb { connect, .. } => assert!(connect.is_none()),
        _ => panic!("expected the device-bridge plan"),
    }
}

#[test]
fn quest_upload_plan_exact_request() {
    let plan = quest_install_plan("http://phone.local:50000", "cafebabe", "unused");
    match plan {
        QuestPlan::Upload { url, referer, part_name } => {
            assert_eq!(url, "http://phone.local:50000/host/beatsaber/upload");
            assert_eq!(referer, "http://phone.local:50000/main/upload");
            assert_eq!(part_name, "custom_level_cafebabe");
        }
        _ => panic!("expected the upload plan"),
    }
    assert_eq!(custom_level_name("cafebabe"), "custom_level_cafebabe");
}

#[test]
fn quest_retry_exhaustion_shape() {
    // ten failing attempts: nine backoffs of sixty seconds, then exactly
    // one verdict carrying the last cause
    let mut attempts: u8 = 0;
    let verdict = loop {
        let outcome = QuestAttemptOutcome::Failure("Invalid response code".to_string());
        attempts += 1;
        match quest_retry_step(attempts - 1, outcome) {
            RetryDecision::Backoff(secs) => assert_eq!(secs, 60),
            RetryDecision::Finish(v) => break v,
        }
    };
    assert_eq!(attempts, 10);
    match verdict {
        QuestVerdict::TriesExceeded(cause) => assert_eq!(cause, "Invalid response code"),
        _ => panic!("expected exhausted retries"),
    }
}

#[test]
fn quest_retry_stops_on_success() {
    let mut attempts: u8 = 0;
    let verdict = loop {
        let outcome = if attempts == 2 {
            QuestAttemptOutcome::Success
        } else {
            QuestAttemptOutcome::Failure("boom".to_string())
        };
        attempts += 1;
        match quest_retry_step(attempts - 1, outcome) {
            RetryDecision::Backoff(_) => {}
            RetryDecision::Finish(v) => break v,
        }
    };
    assert_eq!(attempts, 3);
    assert!(matches!(verdict, QuestVerdict::Success));
}

#[test]
fn quest_retry_join_failure_aborts() {
    match quest_retry_step(0, QuestAttemptOutcome::JoinFailure("gone".to_string())) {
        RetryDecision::Finish(QuestVerdict::JoinError(cause)) => assert_eq!(cause, "gone"),
        _ => panic!("expected an immediate join-error verdict"),
    }
}

#[test]
fn queue_request_classification() {
    assert!(classify_queue_response(204).is_ok());
    assert!(matches!(
        classify_queue_response(500),
        Err(InstallRequestError::HttpStatusError(500))
    ));
    assert_eq!(queue_map_url("1a2b3c"), "http://127.0.0.1:2706/queue/map/1a2b3c");
}

#[test]
fn upload_succeeds_exactly_on_no_content() {
    assert!(classify_upload_response(204).is_ok());
    assert_eq!(classify_upload_response(200), Err("Invalid response code".to_string()));
    assert_eq!(classify_upload_response(500), Err("Invalid response code".to_string()));
}

#[test]
fn mod_install_plans() {
    let dll = plan_mod_install(
        InstallType::PC,
        "C:\\BS",
        &WebSocketPcModType::DLL("mod.dll".to_string()),
        '\\',
    );
    assert!(matches!(dll, ModInstallPlan::WriteLibraryFile(p) if p == "C:\\BS\\Plugins\\mod.dll"));
    let zip_sub = plan_mod_install(
        InstallType::PC,
        "C:\\BS",
        &WebSocketPcModType::ZIP(Some("IPA".to_string())),
        '\\',
    );
    assert!(matches!(zip_sub, ModInstallPlan::UnpackArchive(p) if p == "C:\\BS\\IPA"));
    let zip_root = plan_mod_install(
        InstallType::PC,
        "C:\\BS",
        &WebSocketPcModType::ZIP(None),
        '\\',
    );
    assert!(matches!(zip_root, ModInstallPlan::UnpackArchive(p) if p == "C:\\BS"));
    let quest = plan_mod_install(
        InstallType::Quest,
        "adb://usb",
        &WebSocketPcModType::ZIP(None),
        '/',
    );
    assert!(matches!(quest, ModInstallPlan::Refuse(m) if m == "Not implemented"));
}

#[test]
fn one_click_argument_normalization() {
    assert_eq!(normalize_map_install_arg("aiosaber://1a2b3c/"), "1a2b3c");
    assert_eq!(normalize_map_install_arg("aiosaber://1a2b3c"), "1a2b3c");
    assert_eq!(normalize_map_install_arg("1a2b3c"), "1a2b3c");
    assert_eq!(normalize_map_install_arg("1a2b3c/"), "1a2b3c");
    assert_eq!(normalize_map_install_arg(""), "");
}

#[test]
fn duplicate_hashes_flagged() {
    let entries = vec![
        ("aa".to_string(), "one".to_string()),
        ("bb".to_string(), "two".to_string()),
        ("aa".to_string(), "three".to_string()),
        ("aa".to_string(), "four".to_string()),
    ];
    assert_eq!(duplicate_hash_flags(&entries), vec![false, false, true, true]);
}
