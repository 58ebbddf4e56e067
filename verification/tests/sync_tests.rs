use hollow_sync::errors::SaveError;
use hollow_sync::sync::{
    parse_forced_direction, resolve_direction, sync_message, FileInfo, ForcedDirection,
    SaveManager, SyncDirection, SyncRoute,
};
use hollow_sync::utils::{is_all_ascii_digits, is_jksv_format, parse_save_slot, Games};

fn info(exists: bool, modified: Option<&str>) -> FileInfo {
    FileInfo { exists, modified: modified.map(|s| s.to_string()), size: 0 }
}

#[test]
fn direction_neither_exists_is_no_save_found() {
    let r = resolve_direction(&info(false, None), &info(false, None), ForcedDirection::Auto);
    assert_eq!(r, Err(SaveError::NoSaveFound));
}

#[test]
fn direction_only_pc_goes_to_switch() {
    let r = resolve_direction(
        &info(true, Some("2024-01-01T00:00:00Z")),
        &info(false, None),
        ForcedDirection::Auto,
    );
    assert_eq!(r, Ok(SyncDirection::PcToSwitch));
}

#[test]
fn direction_only_switch_goes_to_pc() {
    let r = resolve_direction(
        &info(false, None),
        &info(true, Some("2024-01-01T00:00:00Z")),
        ForcedDirection::Auto,
    );
    assert_eq!(r, Ok(SyncDirection::SwitchToPc));
}

#[test]
fn direction_newer_pc_timestamp_wins() {
    let r = resolve_direction(
        &info(true, Some("2024-01-02T00:00:00Z")),
        &info(true, Some("2024-01-01T00:00:00Z")),
        ForcedDirection::Auto,
    );
    assert_eq!(r, Ok(SyncDirection::PcToSwitch));
}

#[test]
fn direction_newer_switch_or_tie_goes_to_pc() {
    let newer_switch = resolve_direction(
        &info(true, Some("2024-01-01T00:00:00Z")),
        &info(true, Some("2024-01-02T00:00:00Z")),
        ForcedDirection::Auto,
    );
    assert_eq!(newer_switch, Ok(SyncDirection::SwitchToPc));
    let tie = resolve_direction(
        &info(true, Some("2024-01-01T00:00:00Z")),
        &info(true, Some("2024-01-01T00:00:00Z")),
        ForcedDirection::Auto,
    );
    assert_eq!(tie, Ok(SyncDirection::SwitchToPc));
}

#[test]
fn direction_override_beats_timestamps() {
    let r = resolve_direction(
        &info(true, Some("2024-01-02T00:00:00Z")),
        &info(true, Some("2024-01-01T00:00:00Z")),
        ForcedDirection::SwitchToPc,
    );
    assert_eq!(r, Ok(SyncDirection::SwitchToPc));
}

#[test]
fn direction_missing_timestamp_counts_as_oldest() {
    let r = resolve_direction(
        &info(true, Some("2024-01-01T00:00:00Z")),
        &info(true, None),
        ForcedDirection::Auto,
    );
    assert_eq!(r, Ok(SyncDirection::PcToSwitch));
}

#[test]
fn parse_direction_tokens() {
    assert_eq!(parse_forced_direction(&None), Ok(ForcedDirection::Auto));
    assert_eq!(
        parse_forced_direction(&Some("pc-to-switch".to_string())),
        Ok(ForcedDirection::PcToSwitch)
    );
    assert_eq!(
        parse_forced_direction(&Some("switch-to-pc".to_string())),
        Ok(ForcedDirection::SwitchToPc)
    );
    assert_eq!(
        parse_forced_direction(&Some("sideways".to_string())),
        Err(SaveError::InvalidDirection)
    );
}

#[test]
fn plan_rejects_empty_paths() {
    let manager = SaveManager::new();
    let a = info(true, None);
    let b = info(true, None);
    let r = manager.plan_sync("", "/switch/save.dat", &a, &b, false, ForcedDirection::Auto);
    assert_eq!(r, Err(SaveError::ConfigurationError));
    let r = manager.plan_sync("/pc/user1.dat", "", &a, &b, false, ForcedDirection::Auto);
    assert_eq!(r, Err(SaveError::ConfigurationError));
}

#[test]
fn plan_routes_zip_target_through_container() {
    let manager = SaveManager::new();
    let pc = info(true, Some("2024-01-02T00:00:00Z"));
    let switch = info(true, Some("2024-01-01T00:00:00Z"));
    let plan = manager
        .plan_sync("/pc/user1.dat", "/backup/save.zip", &pc, &switch, false, ForcedDirection::Auto)
        .unwrap();
    assert_eq!(plan.direction, SyncDirection::PcToSwitch);
    assert_eq!(plan.route, SyncRoute::LegacyContainer);
}

#[test]
fn plan_routes_directory_target_through_container() {
    let manager = SaveManager::new();
    let pc = info(true, None);
    let switch = info(true, None);
    let plan = manager
        .plan_sync("/pc/user1.dat", "/backups/hollow", &pc, &switch, true, ForcedDirection::Auto)
        .unwrap();
    assert_eq!(plan.route, SyncRoute::LegacyContainer);
}

#[test]
fn plan_routes_new_extensionless_target_through_container() {
    let manager = SaveManager::new();
    let pc = info(true, None);
    let switch = info(false, None);
    let plan = manager
        .plan_sync("/pc/user1.dat", "newbackup", &pc, &switch, false, ForcedDirection::Auto)
        .unwrap();
    assert_eq!(plan.direction, SyncDirection::PcToSwitch);
    assert_eq!(plan.route, SyncRoute::LegacyContainer);
}

#[test]
fn plan_routes_plain_file_through_transcoder() {
    let manager = SaveManager::new();
    let pc = info(true, None);
    let switch = info(true, None);
    let plan = manager
        .plan_sync("/pc/user1.dat", "/switch/user1.dat", &pc, &switch, false,
            ForcedDirection::Auto)
        .unwrap();
    assert_eq!(plan.route, SyncRoute::EncodedFile);
}

#[test]
fn sync_message_names_direction() {
    assert_eq!(sync_message(SyncDirection::PcToSwitch), "Sync completed: pc-to-switch");
    assert_eq!(sync_message(SyncDirection::SwitchToPc), "Sync completed: switch-to-pc");
}

#[test]
fn games_catalogue() {
    let hk = Games::get_config("hk").unwrap();
    assert_eq!(hk.name, "Hollow Knight");
    assert_eq!(hk.display_name, "Hollow Knight");
    assert_eq!(hk.path, "Hollow Knight");
    let silksong = Games::get_config("silksong").unwrap();
    assert_eq!(silksong.name, "Silksong");
    assert_eq!(silksong.path, "Hollow Knight Silksong");
    assert!(Games::get_config("celeste").is_none());
}

#[test]
fn jksv_detection_rule() {
    assert!(is_jksv_format("/saves/backup.zip", false, true));
    assert!(is_jksv_format("/saves/BACKUP.ZIP", false, false));
    assert!(is_jksv_format("C:\\saves\\backup.zip", false, true));
    assert!(is_jksv_format("/saves/folder", true, true));
    assert!(is_jksv_format("newbackup", false, false));
    assert!(!is_jksv_format("/saves/user1.dat", false, true));
    assert!(!is_jksv_format("user2.dat", false, false));
    assert!(!is_jksv_format("/saves/.zip", false, true));
}

#[test]
fn jksv_extension_rule_looks_at_base_name_only() {
    // A dot in a parent component is not an extension: a nonexistent
    // extensionless file under a dotted directory is container-style.
    assert!(is_jksv_format("saves.d/newbackup", false, false));
    assert!(is_jksv_format(".d/x", false, false));
    // A dotfile base name has no extension either.
    assert!(is_jksv_format("/saves/.hidden", false, false));
}

#[test]
fn save_slot_parsing() {
    assert_eq!(parse_save_slot("user1.dat"), Some(1));
    assert_eq!(parse_save_slot("user4.dat"), Some(4));
    assert_eq!(parse_save_slot("user5.dat"), None);
    assert_eq!(parse_save_slot("user0.dat"), None);
    assert_eq!(parse_save_slot("user1.bak"), None);
    assert_eq!(parse_save_slot("xuser1.dat"), None);
    assert_eq!(parse_save_slot("user1.datx"), None);
}

#[test]
fn numeric_directory_names() {
    assert!(is_all_ascii_digits("123"));
    assert!(is_all_ascii_digits(""));
    assert!(!is_all_ascii_digits("12a"));
    assert!(!is_all_ascii_digits("slot1"));
}
