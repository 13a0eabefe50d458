use connect_sync::auth::token_entry;
use connect_sync::config::{theme_name, AppConfig, SyncFolder, DEFAULT_CHECK_INTERVAL_MINUTES, THEME_LIGHT};
use connect_sync::desktop::{
    cloud_item, cloud_only, drive_folder_id, final_sync_message, next_scan_delay, phase_status_key,
    publish_cloud_items, FolderState,
};
use connect_sync::drive_missing::{drive_folder_name, fresh_key, new_code, parse_code};
use connect_sync::i18n::{normalize, replace_all, Translations};
use connect_sync::progress::{Progress, Snapshot, PHASE_IDLE, PHASE_PREPARE, PHASE_PULL, PHASE_PUSH};
use connect_sync::scopes::DriveAccess;
use connect_sync::strmap::StrMap;
use connect_sync::config::{check_interval_from_input, threads_from_input};
use connect_sync::desktop::{drop_cloud_items, is_added};
use connect_sync::desktop::{deletable_drive_folder, sync_target, typed_sync_code, SyncTarget};
use connect_sync::desktop::means_missing_folder;
use connect_sync::desktop::{network_warning, progress_bar_visible, push_error};
use connect_sync::engine::SyncReport;
use connect_sync::desktop::{autostart_step, AutostartAction, AUTOSTART_TOKEN_TRIES};
use connect_sync::desktop::{cloud_items, key_to_register, status_change, loop_step, LoopAction, LoopEvent, LoopStage};

fn folder(id: &str, code: &str) -> SyncFolder {
    SyncFolder { id: id.into(), name: "x".into(), path: "/tmp/x".into(), code: code.into() }
}

fn items(list: &[(&str, &str)]) -> Vec<(String, String)> {
    list.iter().map(|(c, n)| (c.to_string(), n.to_string())).collect()
}

fn snapshot(phase: u8, total_files: u64) -> Snapshot {
    Snapshot { phase, total_files, ..Default::default() }
}

fn turkish() -> Translations {
    let mut tr = StrMap::new();
    tr.insert("net_waiting".to_string(), "Bağlantı bekleniyor ({n}. deneme)".to_string());
    tr.insert("status_checking".to_string(), "Farklar inceleniyor".to_string());
    let mut en = StrMap::new();
    en.insert("status_checking".to_string(), "Checking for differences".to_string());
    let mut t = Translations::new();
    t.add_table("tr".to_string(), tr);
    t.add_table("en".to_string(), en);
    t
}

// ── sync codes ──────────────────────────────────────────────────────────

#[test]
fn parses_new_style_codes_using_the_last_dash() {
    assert_eq!(parse_code("cs-1wtJ-BcHz-OLuZ-deadbeef"), Some(("1wtJ-BcHz-OLuZ", "deadbeef")));
    assert_eq!(parse_code("cs-abc-key"), Some(("abc", "key")));
}

#[test]
fn legacy_or_malformed_codes_have_no_folder_id() {
    for bad in ["deadbeefdeadbeef", "cs-", "cs-onlyone", "cs--key", "cs-abc-"] {
        assert_eq!(parse_code(bad), None, "{bad:?}");
    }
}

#[test]
fn new_code_round_trips_through_parse() {
    let code = new_code("1a-B_c", "0123456789abcdef");
    assert_eq!(parse_code(&code), Some(("1a-B_c", "0123456789abcdef")));
}

#[test]
fn folder_name_is_derived_from_the_key_so_two_computers_meet_in_one_folder() {
    assert_eq!(drive_folder_name("938891ca00112233"), "ConnectSync_938891ca");
    assert_eq!(drive_folder_name("abc"), "ConnectSync_abc");
    assert_eq!(drive_folder_name("938891ca00112233"), drive_folder_name("938891ca00112233"));
}

#[test]
fn fresh_keys_are_32_hex_chars_and_unique() {
    let a = fresh_key().unwrap();
    let b = fresh_key().unwrap();
    assert_eq!(a.len(), 32);
    assert!(a.bytes().all(|c| c.is_ascii_hexdigit()));
    assert_ne!(a, b);
}

#[test]
fn drive_folder_id_takes_everything_between_prefix_and_last_dash() {
    assert_eq!(drive_folder_id("cs-1a-B_c-d-deadbeef"), "1a-B_c-d");
    assert_eq!(drive_folder_id("cs-abc-key"), "abc");
    assert_eq!(drive_folder_id("kodsuz"), "kodsuz");
}

#[test]
fn cloud_only_hides_folders_already_on_this_pc() {
    let folders = vec![folder("ignored", "cs-F1-k1")];
    let cloud = items(&[("cs-F1-k1", "Müzik"), ("cs-F2-k2", "Belgeler")]);
    assert_eq!(cloud_only(&folders, &cloud), vec![("cs-F2-k2".to_string(), "Belgeler".to_string())]);
}

#[test]
fn cloud_only_falls_back_to_id_when_code_is_missing() {
    let folders = vec![folder("cs-F1-k1", "")];
    let cloud = items(&[("cs-F1-k1", "Müzik")]);
    assert!(cloud_only(&folders, &cloud).is_empty());
}

#[test]
fn a_found_sync_gets_its_code_and_a_clean_name() {
    let (code, name) = cloud_item("F1", "abcd", "ConnectSync_ConnectSync_938891ca");
    assert_eq!(code, "cs-F1-abcd");
    assert_eq!(name, "938891ca");
    assert_eq!(cloud_item("F2", "k", "Müzik").1, "Müzik");
}

#[test]
fn an_unchanged_scan_result_does_not_refresh_the_window() {
    let mut current = items(&[("cs-a-1", "A")]);
    let mut dirty = false;
    publish_cloud_items(&mut current, &mut dirty, items(&[("cs-a-1", "A")]));
    assert!(!dirty);
    publish_cloud_items(&mut current, &mut dirty, items(&[("cs-a-1", "A"), ("cs-b-2", "B")]));
    assert!(dirty);
    assert_eq!(current.len(), 2);
}

#[test]
fn an_error_replaces_the_status_in_a_folder_row() {
    let mut f = FolderState::default();
    f.status = "Eşitlendi".into();
    assert_eq!(f.shown_status(), "Eşitlendi");
    f.error = "Hata".into();
    assert_eq!(f.shown_status(), "Hata");
}

// ── status line ─────────────────────────────────────────────────────────

#[test]
fn status_says_checking_while_diffing() {
    assert_eq!(phase_status_key(&snapshot(PHASE_PREPARE, 0)), Some("status_checking"));
}

#[test]
fn status_only_says_transfer_when_there_are_files_to_transfer() {
    assert_eq!(phase_status_key(&snapshot(PHASE_PULL, 0)), Some("status_checking"));
    assert_eq!(phase_status_key(&snapshot(PHASE_PUSH, 0)), Some("status_checking"));
    assert_eq!(phase_status_key(&snapshot(PHASE_PULL, 3)), Some("status_pulling"));
    assert_eq!(phase_status_key(&snapshot(PHASE_PUSH, 3)), Some("status_uploading"));
}

#[test]
fn status_is_left_alone_when_idle() {
    assert_eq!(phase_status_key(&snapshot(PHASE_IDLE, 0)), None);
}

#[test]
fn final_message_counts_pulled_and_pushed_changes() {
    assert_eq!(final_sync_message(0, 0, 0, 0), ("status_no_diff", None));
    assert_eq!(final_sync_message(2, 0, 0, 0), ("status_files_updated", Some(2)));
    assert_eq!(final_sync_message(0, 3, 1, 0), ("status_files_updated", Some(4)));
    assert_eq!(final_sync_message(5, 0, 0, 0), ("status_files_updated", Some(5)));
    assert_eq!(final_sync_message(5, 2, 0, 1), ("status_files_failed", Some(1)));
}

#[test]
fn scan_delay_is_the_interval_when_healthy() {
    let interval = 300_000;
    assert_eq!(next_scan_delay(interval, 0), interval);
}

#[test]
fn scan_delay_backs_off_but_never_exceeds_interval() {
    let interval = 300_000;
    let delays: Vec<u64> = (1..=10).map(|n| next_scan_delay(interval, n)).collect();
    assert_eq!(delays[0], 30_000);
    assert_eq!(delays[1], 60_000);
    assert!(delays.windows(2).all(|w| w[0] <= w[1]), "azalmamalı: {delays:?}");
    assert!(delays.iter().all(|d| *d <= interval && *d > 0));
    assert_eq!(*delays.last().unwrap(), interval);
}

#[test]
fn scan_delay_respects_short_intervals() {
    let interval = 10_000;
    assert_eq!(next_scan_delay(interval, 1), interval);
}

#[test]
fn scan_delay_survives_u32_max_failures() {
    let interval = 60_000;
    assert_eq!(next_scan_delay(interval, u32::MAX), interval);
}

#[test]
fn scan_delay_stops_doubling_after_six_steps() {
    let long = 100_000_000;
    assert_eq!(next_scan_delay(long, 7), 30_000 * 64);
    assert_eq!(next_scan_delay(long, 50), 30_000 * 64);
}

// ── progress ────────────────────────────────────────────────────────────

#[test]
fn progress_counts_within_a_phase_and_resets_when_done() {
    let mut p = Progress::default();
    p.begin(PHASE_PUSH, 100, 2);
    p.set_current("a.txt");
    p.add_bytes(40);
    p.file_done();
    p.set_net_retry(3);
    let s = p.snapshot();
    assert_eq!((s.phase, s.total_bytes, s.done_bytes, s.total_files, s.done_files, s.net_retry), (PHASE_PUSH, 100, 40, 2, 1, 3));
    assert_eq!(s.current_file, "a.txt");
    p.begin(PHASE_PULL, 7, 1);
    assert_eq!(p.snapshot().done_bytes, 0);
    p.finish();
    let s = p.snapshot();
    assert_eq!((s.phase, s.total_bytes, s.done_bytes, s.net_retry), (PHASE_IDLE, 0, 0, 0));
    assert_eq!(s.current_file, "");
}

// ── translations ────────────────────────────────────────────────────────

#[test]
fn tf_fills_placeholders() {
    let t = turkish();
    let s = t.tf("net_waiting", &[("n", "7")]);
    assert!(s.contains('7') && !s.contains("{n}"), "{s}");
}

#[test]
fn missing_key_falls_back_to_the_key_itself() {
    let t = turkish();
    assert_eq!(t.t("__yok_boyle_bir_anahtar__"), "__yok_boyle_bir_anahtar__");
}

#[test]
fn a_key_missing_in_the_chosen_language_comes_from_turkish() {
    let mut t = turkish();
    t.set_language("en");
    assert_eq!(t.current(), "en");
    assert_eq!(t.t("status_checking"), "Checking for differences");
    assert_eq!(t.t("net_waiting"), "Bağlantı bekleniyor ({n}. deneme)");
}

#[test]
fn unknown_languages_become_english() {
    assert_eq!(normalize("de"), "en");
    assert_eq!(normalize("fr"), "fr");
    assert_eq!(normalize("xx"), "en");
    let mut t = turkish();
    assert_eq!(t.current(), "tr");
    t.set_language("pt");
    assert_eq!(t.current(), "en");
}

#[test]
fn an_old_german_setting_falls_back_to_english() {
    let mut t = turkish();
    t.set_language("de");
    assert_eq!(t.current(), "en");
}

#[test]
fn replace_changes_every_occurrence() {
    assert_eq!(replace_all("{n} + {n} = {m}", "{n}", "2"), "2 + 2 = {m}");
    assert_eq!(replace_all("aaa", "aa", "b"), "ba");
}

// ── auth and settings ───────────────────────────────────────────────────

#[test]
fn each_profile_has_its_own_token_entry() {
    assert_ne!(token_entry(DriveAccess::AppOnly), token_entry(DriveAccess::Full));
}

#[test]
fn the_app_only_entry_is_unchanged_so_existing_users_stay_signed_in() {
    assert_eq!(token_entry(DriveAccess::AppOnly), "google_token_v2");
}

#[test]
fn default_theme_is_dark() {
    assert!(AppConfig::default().is_dark_theme());
}

#[test]
fn only_explicit_light_turns_dark_off() {
    let with_theme = |theme: &str| AppConfig { theme: theme.into(), ..AppConfig::default() };
    assert!(!with_theme(THEME_LIGHT).is_dark_theme());
    for junk in ["", "Light", "system", "solarized"] {
        assert!(with_theme(junk).is_dark_theme(), "{junk:?} koyu sayılmalı");
    }
}

#[test]
fn theme_name_round_trips() {
    for dark in [true, false] {
        let cfg = AppConfig { theme: theme_name(dark).into(), ..AppConfig::default() };
        assert_eq!(cfg.is_dark_theme(), dark);
    }
}

#[test]
fn check_interval_zero_falls_back_to_default() {
    let with_interval = |m: u32| AppConfig { sync_interval_minutes: m, ..AppConfig::default() };
    assert_eq!(with_interval(0).check_interval_minutes(), DEFAULT_CHECK_INTERVAL_MINUTES);
    assert_eq!(with_interval(17).check_interval_minutes(), 17);
}

// ── settings edits ──────────────────────────────────────────────────────

#[test]
fn saving_the_edit_form_updates_or_adds_a_sync() {
    let mut cfg = AppConfig::default();
    cfg.sync_folders.push(folder("cs-F1-k1", "cs-F1-k1"));
    let e = cfg.apply_sync_edit("cs-F1-k1", "Yeni ad", "/data/new");
    assert!(!e.is_new);
    assert_eq!(e.old_path, "/tmp/x");
    assert_eq!(e.code, "cs-F1-k1");
    assert_eq!(cfg.sync_folders[0].name, "Yeni ad");
    assert_eq!(cfg.sync_folders[0].path, "/data/new");
    let added = cfg.apply_sync_edit("cs-F2-k2", "İkinci", "/data/two");
    assert!(added.is_new);
    assert_eq!(added.old_path, "");
    assert_eq!(cfg.sync_folders.len(), 2);
    assert_eq!(cfg.sync_folders[1].code, "cs-F2-k2");
    assert!(cfg.path_in_use("/data/two"));
    assert!(!cfg.path_in_use("/data/three"));
    assert_eq!(cfg.sync_path("cs-F2-k2").as_deref(), Some("/data/two"));
    assert_eq!(cfg.sync_path("cs-F9-k9"), None);
}

#[test]
fn a_removed_or_recreated_sync_changes_only_its_own_entry() {
    let mut cfg = AppConfig::default();
    cfg.sync_folders.push(folder("a", "a"));
    cfg.sync_folders.push(folder("b", "b"));
    cfg.replace_sync_code("b", "cs-NEW-k");
    assert_eq!(cfg.sync_folders[1].id, "cs-NEW-k");
    assert_eq!(cfg.sync_folders[1].code, "cs-NEW-k");
    assert_eq!(cfg.sync_folders[0].id, "a");
    cfg.remove_sync("a");
    assert_eq!(cfg.sync_folders.len(), 1);
    assert_eq!(cfg.sync_folders[0].id, "cs-NEW-k");
}

#[test]
fn typed_settings_are_read_and_bounded() {
    assert_eq!(check_interval_from_input(" 30 "), 30);
    assert_eq!(check_interval_from_input("0"), 1);
    assert_eq!(check_interval_from_input("9999"), 1440);
    assert_eq!(check_interval_from_input("abc"), 1);
    assert_eq!(threads_from_input(""), 4);
    assert_eq!(threads_from_input("100"), 16);
    assert_eq!(threads_from_input(" 2 "), 2);
    assert_eq!(threads_from_input("0"), 1);
}

// ── more window decisions ───────────────────────────────────────────────

#[test]
fn a_sync_already_added_is_recognised_by_its_folder() {
    let folders = vec![folder("cs-F1-k1", "cs-F1-k1")];
    assert!(is_added(&folders, "cs-F1-other"));
    assert!(!is_added(&folders, "cs-F2-k1"));
    let found = items(&[("cs-F1-k1", "A"), ("cs-F2-k2", "B")]);
    assert_eq!(drop_cloud_items(&found, "F1"), items(&[("cs-F2-k2", "B")]));
}

#[test]
fn sync_codes_and_targets_are_read_from_the_code() {
    assert_eq!(typed_sync_code("  cs-a-1234  ").as_deref(), Some("cs-a-1234"));
    assert_eq!(typed_sync_code(" short "), None);
    assert!(matches!(sync_target("cs-1a-B-key"), SyncTarget::Folder { folder_id } if folder_id == "1a-B"));
    assert!(matches!(sync_target("deadbeefcafe"), SyncTarget::Legacy { folder_name } if folder_name == "ConnectSync_deadbeef"));
    assert!(matches!(sync_target("abc"), SyncTarget::Legacy { folder_name } if folder_name == "ConnectSync_abc"));
    // The legacy name takes the first eight bytes, not characters.
    assert!(matches!(sync_target("éééé1234"), SyncTarget::Legacy { folder_name } if folder_name == "ConnectSync_éééé"));
    assert!(!deletable_drive_folder(""));
    assert!(!deletable_drive_folder("pending"));
    assert!(deletable_drive_folder("F1"));
}

#[test]
fn a_missing_folder_is_recognised_in_the_error_text() {
    assert!(means_missing_folder("Drive API hatası (404): File not found"));
    assert!(means_missing_folder("reason: notFound"));
    assert!(!means_missing_folder("Drive API hatası (500): backend"));
}

#[test]
fn row_status_and_errors_replace_each_other() {
    let mut f = FolderState::default();
    f.set_error("bozuk");
    assert!(!f.is_syncing);
    assert_eq!(f.shown_status(), "bozuk");
    f.set_status("Eşitleniyor", true);
    assert_eq!(f.error, "");
    assert!(f.is_syncing);
    assert_eq!(f.shown_status(), "Eşitleniyor");
}

#[test]
fn the_push_error_is_the_first_failed_file() {
    let mut r = SyncReport::default();
    assert_eq!(push_error(&r), "");
    r.failed_files.push(("a".into(), "ilk".into()));
    r.failed_files.push(("b".into(), "ikinci".into()));
    assert_eq!(push_error(&r), "ilk");
    let mut s = snapshot(PHASE_PUSH, 1);
    assert!(!progress_bar_visible(&s));
    s.total_bytes = 10;
    s.net_retry = 2;
    assert!(progress_bar_visible(&s));
    assert!(network_warning(&s, true));
    assert!(!network_warning(&s, false));
}

#[test]
fn a_sync_loop_round_checks_pulls_pushes_and_waits() {
    let (st, act) = loop_step(LoopStage::CheckFolder, LoopEvent::FolderChecked { exists: Some(true) });
    assert_eq!((st, act), (LoopStage::Pull, LoopAction::StartPull));
    let (st, act) = loop_step(st, LoopEvent::PullFinished { restored: Some(3) });
    assert_eq!(st, LoopStage::Push { pulled: 3 });
    assert_eq!(act, LoopAction::StartPush { pulled: 3, pull_failed: false });
    let (st, act) = loop_step(st, LoopEvent::PushFinished);
    assert_eq!((st, act), (LoopStage::Wait, LoopAction::Wait));
    let (st, act) = loop_step(st, LoopEvent::Woken { by_watcher: true });
    assert_eq!((st, act), (LoopStage::CheckFolder, LoopAction::SettleThenCheck));
    let (_, act) = loop_step(LoopStage::Wait, LoopEvent::Woken { by_watcher: false });
    assert_eq!(act, LoopAction::CheckFolder);
}

#[test]
fn a_failed_check_still_pulls_and_a_failed_pull_counts_nothing() {
    let (st, act) = loop_step(LoopStage::CheckFolder, LoopEvent::FolderChecked { exists: None });
    assert_eq!((st, act), (LoopStage::Pull, LoopAction::StartPull));
    let (st, act) = loop_step(LoopStage::Pull, LoopEvent::PullFinished { restored: None });
    assert_eq!(st, LoopStage::Push { pulled: 0 });
    assert_eq!(act, LoopAction::StartPush { pulled: 0, pull_failed: true });
}

#[test]
fn the_loop_ends_on_stop_or_a_missing_folder() {
    for stage in [LoopStage::CheckFolder, LoopStage::Pull, LoopStage::Push { pulled: 1 }, LoopStage::Wait] {
        assert_eq!(loop_step(stage, LoopEvent::StopRequested), (LoopStage::Stopped, LoopAction::Finish));
    }
    assert_eq!(
        loop_step(LoopStage::CheckFolder, LoopEvent::FolderChecked { exists: Some(false) }),
        (LoopStage::Stopped, LoopAction::ReportMissing)
    );
}

fn registry(pairs: &[(&str, &str)]) -> StrMap<String> {
    let mut m = StrMap::new();
    for (k, v) in pairs {
        m.insert(k.to_string(), v.to_string());
    }
    m
}

#[test]
fn a_local_key_missing_from_the_registry_is_stored() {
    let reg = registry(&[("F1", "k1")]);
    assert_eq!(key_to_register(&folder("cs-F1-k1", "cs-F1-k1"), &reg), None);
    assert_eq!(
        key_to_register(&folder("cs-F-2-abc", "cs-F-2-abc"), &reg),
        Some(("F-2".to_string(), "abc".to_string()))
    );
    assert_eq!(key_to_register(&folder("cs-F3-k3", ""), &reg), Some(("F3".to_string(), "k3".to_string())));
    assert_eq!(key_to_register(&folder("deadbeefcafe", ""), &reg), None);
}

#[test]
fn only_folders_with_a_known_key_are_listed() {
    let reg = registry(&[("F1", "k1"), ("F3", "k3")]);
    let listed = items(&[("F1", "Müzik"), ("F2", "Belgeler"), ("F3", "ConnectSync_938891ca")]);
    assert_eq!(
        cloud_items(&listed, &reg),
        items(&[("cs-F1-k1", "Müzik"), ("cs-F3-k3", "938891ca")])
    );
}

#[test]
fn codes_saved_to_the_key_ring_come_back_to_their_folders() {
    let mut cfg = AppConfig::default();
    cfg.sync_folders = vec![folder("a", "cs-F1-k1"), folder("b", "cs-F2-k2")];
    let table = cfg.codes_table();
    assert_eq!(table.get("a").map(|s| s.as_str()), Some("cs-F1-k1"));
    assert_eq!(table.len(), 2);
    let mut loaded = AppConfig::default();
    loaded.sync_folders = vec![folder("a", ""), folder("b", ""), folder("c", "")];
    loaded.attach_codes(&table);
    let codes: Vec<&str> = loaded.sync_folders.iter().map(|f| f.code.as_str()).collect();
    assert_eq!(codes, vec!["cs-F1-k1", "cs-F2-k2", ""]);
}

#[test]
fn the_status_line_changes_only_with_the_phase() {
    let prep = snapshot(PHASE_PREPARE, 0);
    let pull = snapshot(PHASE_PULL, 3);
    assert_eq!(status_change(None, &prep), Some("status_checking"));
    assert_eq!(status_change(Some("status_checking"), &prep), None);
    assert_eq!(status_change(Some("status_checking"), &pull), Some("status_pulling"));
    assert_eq!(status_change(Some("status_pulling"), &snapshot(PHASE_IDLE, 0)), None);
}

#[test]
fn a_program_started_at_login_waits_for_a_token_ten_times_at_most() {
    assert_eq!(autostart_step(0, true), AutostartAction::StartLoop);
    assert_eq!(autostart_step(9, true), AutostartAction::StartLoop);
    assert_eq!(autostart_step(0, false), AutostartAction::RetryAfter { secs: 5 });
    assert_eq!(autostart_step(8, false), AutostartAction::RetryAfter { secs: 5 });
    assert_eq!(autostart_step(9, false), AutostartAction::StartAfter { secs: 5 });
    let mut failed = 0u32;
    let mut tries = 0u32;
    let mut paused = 0u64;
    loop {
        tries += 1;
        match autostart_step(failed, false) {
            AutostartAction::StartLoop => break,
            AutostartAction::RetryAfter { secs } => {
                paused += secs;
                failed += 1;
            }
            AutostartAction::StartAfter { secs } => {
                paused += secs;
                break;
            }
        }
    }
    assert_eq!(tries, AUTOSTART_TOKEN_TRIES);
    assert_eq!(paused, 50);
}
