use connect_sync::conflicts::{list_preview, signature, ConflictStore};
use connect_sync::limits::{clamp_threads, DEFAULT_THREADS, MAX_THREADS, MIN_THREADS};
use connect_sync::mobile::core_limits_summary;
use connect_sync::scopes::{DriveAccess, SCOPE_DRIVE_APPDATA, SCOPE_DRIVE_FILE, SCOPE_DRIVE_FULL};
use connect_sync::sync_ctl::SyncControl;
use connect_sync::sync_state::{backup_file_name, decide_pull, unique_backup_name, unique_backup_path, FileStat, PullDecision, SyncState};

fn st(size: u64, mtime: u64) -> FileStat {
    FileStat { size, modified_ms: mtime }
}

fn v(items: &[&str]) -> Vec<String> {
    items.iter().map(|s| s.to_string()).collect()
}

// ── limits ──────────────────────────────────────────────────────────────

#[test]
fn clamps_to_the_allowed_range() {
    assert_eq!(clamp_threads(0), MIN_THREADS);
    assert_eq!(clamp_threads(4), 4);
    assert_eq!(clamp_threads(10_000), MAX_THREADS);
}

#[test]
fn the_default_is_inside_the_range() {
    assert_eq!(clamp_threads(DEFAULT_THREADS), DEFAULT_THREADS);
}

#[test]
fn mobile_can_use_the_shared_core() {
    assert_eq!(clamp_threads(0), 1);
    assert!(core_limits_summary().contains(&DEFAULT_THREADS.to_string()));
}

#[test]
fn the_limits_summary_names_the_default() {
    assert_eq!(core_limits_summary(), "varsayılan eşzamanlılık: 4");
}

// ── scopes ──────────────────────────────────────────────────────────────

#[test]
fn the_default_is_the_narrow_safe_profile() {
    assert_eq!(DriveAccess::default(), DriveAccess::AppOnly);
    assert!(!DriveAccess::default().is_full());
}

#[test]
fn the_flag_maps_to_the_right_profile_and_back() {
    for full in [true, false] {
        assert_eq!(DriveAccess::from_full_flag(full).is_full(), full);
    }
}

#[test]
fn app_only_never_requests_the_whole_drive() {
    let s = DriveAccess::AppOnly.scopes();
    assert!(s.contains(&SCOPE_DRIVE_FILE));
    assert!(!s.contains(&SCOPE_DRIVE_FULL));
}

#[test]
fn full_requests_the_whole_drive_instead_of_per_file_access() {
    let s = DriveAccess::Full.scopes();
    assert!(s.contains(&SCOPE_DRIVE_FULL));
    assert!(!s.contains(&SCOPE_DRIVE_FILE), "drive zaten drive.file'ı kapsar");
}

#[test]
fn both_profiles_keep_the_key_registry_scope() {
    for a in [DriveAccess::AppOnly, DriveAccess::Full] {
        assert!(a.scopes().contains(&SCOPE_DRIVE_APPDATA), "{a:?}");
    }
}

#[test]
fn the_scope_strings_are_the_real_google_ones() {
    assert_eq!(SCOPE_DRIVE_FULL, "https://www.googleapis.com/auth/drive");
    assert_eq!(SCOPE_DRIVE_FILE, "https://www.googleapis.com/auth/drive.file");
    assert_eq!(SCOPE_DRIVE_APPDATA, "https://www.googleapis.com/auth/drive.appdata");
}

#[test]
fn profiles_use_distinct_token_caches() {
    assert_ne!(DriveAccess::AppOnly.cache_tag(), DriveAccess::Full.cache_tag());
}

// ── pull decision ───────────────────────────────────────────────────────

#[test]
fn a_missing_local_file_is_restored() {
    assert_eq!(decide_pull(None, None, st(1, 1), true), PullDecision::Restore);
    assert_eq!(decide_pull(None, Some(st(1, 1)), st(1, 1), true), PullDecision::Restore);
}

#[test]
fn an_identical_file_is_up_to_date_regardless_of_base() {
    let f = st(10, 100);
    for base in [None, Some(f), Some(st(9, 9))] {
        assert_eq!(decide_pull(Some(f), base, f, true), PullDecision::UpToDate);
    }
}

#[test]
fn a_remote_only_change_updates_the_untouched_local_file() {
    let base = st(10, 100);
    assert_eq!(decide_pull(Some(base), Some(base), st(20, 200), true), PullDecision::Restore);
}

#[test]
fn a_local_only_edit_is_never_overwritten() {
    let base = st(10, 100);
    let edited = st(15, 300);
    assert_eq!(decide_pull(Some(edited), Some(base), base, true), PullDecision::KeepLocal);
}

#[test]
fn both_sides_changed_is_a_conflict() {
    let base = st(10, 100);
    let local = st(15, 300);
    let remote = st(20, 250);
    assert_eq!(decide_pull(Some(local), Some(base), remote, true), PullDecision::Conflict);
}

#[test]
fn an_unknown_base_with_differing_files_is_a_conflict_not_an_overwrite() {
    assert_eq!(decide_pull(Some(st(15, 300)), None, st(20, 250), true), PullDecision::Conflict);
}

#[test]
fn without_overwrite_an_existing_different_file_is_left_alone() {
    assert_eq!(decide_pull(Some(st(1, 1)), Some(st(1, 1)), st(2, 2), false), PullDecision::KeepLocal);
    assert_eq!(decide_pull(Some(st(1, 1)), None, st(2, 2), false), PullDecision::KeepLocal);
}

#[test]
fn the_decision_table_never_overwrites_a_locally_changed_file() {
    let stats = [st(1, 1), st(2, 2), st(3, 3), st(1, 9)];
    for &local in &stats {
        for &base in &stats {
            for &remote in &stats {
                let d = decide_pull(Some(local), Some(base), remote, true);
                if local != base && local != remote {
                    assert_ne!(d, PullDecision::Restore, "local={local:?} base={base:?} remote={remote:?}");
                }
            }
        }
    }
}

#[test]
fn set_get_remove_work() {
    let mut s = SyncState::default();
    assert_eq!(s.get("x"), None);
    s.set("x", st(1, 2));
    assert_eq!((s.get("x"), s.len()), (Some(st(1, 2)), 1));
    s.set("x", st(3, 4));
    assert_eq!(s.get("x"), Some(st(3, 4)));
    s.remove("x");
    assert!(s.is_empty());
}

#[test]
fn backup_names_keep_the_extension() {
    let t = "2026-09-22 01-30-05";
    assert_eq!(backup_file_name("a.txt", t), "a (yerel yedek 2026-09-22 01-30-05).txt");
    assert_eq!(backup_file_name("rapor", t), "rapor (yerel yedek 2026-09-22 01-30-05)");
    assert_eq!(backup_file_name("archive.tar.gz", t), "archive.tar (yerel yedek 2026-09-22 01-30-05).gz");
    assert_eq!(backup_file_name(".hidden", t), ".hidden (yerel yedek 2026-09-22 01-30-05)");
    assert_eq!(backup_file_name("Müzik ve Şarkı.mp3", t), "Müzik ve Şarkı (yerel yedek 2026-09-22 01-30-05).mp3");
}

#[test]
fn a_written_state_entry_reads_back_until_removed() {
    let mut s = SyncState::default();
    s.set("a.txt", st(10, 100));
    s.set("dir/b.bin", st(20, 200));
    assert_eq!(s.get("dir/b.bin"), Some(st(20, 200)));
    assert_eq!(s.get("a.txt"), Some(st(10, 100)));
    s.remove("a.txt");
    assert_eq!(s.get("a.txt"), None);
    assert_eq!(s.get("dir/b.bin"), Some(st(20, 200)));
}

// ── conflicts ───────────────────────────────────────────────────────────

#[test]
fn a_new_conflict_asks_the_user() {
    let mut s = ConflictStore::default();
    s.record("sync1", v(&["b.txt", "a.txt"]));
    assert!(s.needs_attention());
    assert_eq!(s.next_to_show().map(|(c, f)| (c, f.to_vec())), Some(("sync1", v(&["a.txt", "b.txt"]))));
    assert_eq!(s.count("sync1"), 2);
}

#[test]
fn deferring_stops_the_same_set_from_nagging_on_every_sync_round() {
    let mut s = ConflictStore::default();
    s.record("s", v(&["a.txt"]));
    assert!(s.take_dirty());
    s.defer("s");
    for _ in 0..3 {
        s.record("s", v(&["a.txt"]));
        assert!(!s.needs_attention());
        assert!(s.next_to_show().is_none());
    }
    assert_eq!(s.count("s"), 1);
}

#[test]
fn a_changed_conflict_set_asks_again_even_after_deferring() {
    let mut s = ConflictStore::default();
    s.record("s", v(&["a.txt"]));
    s.take_dirty();
    s.defer("s");
    s.record("s", v(&["a.txt", "b.txt"]));
    assert!(s.needs_attention());
}

#[test]
fn the_signature_ignores_order() {
    assert_eq!(signature(&v(&["b", "a"])), signature(&v(&["a", "b"])));
    assert_ne!(signature(&v(&["a"])), signature(&v(&["a", "b"])));
}

#[test]
fn the_signature_is_the_sorted_names_one_per_line() {
    assert_eq!(signature(&v(&["c", "a", "b"])), "a\nb\nc");
    assert_eq!(signature(&v(&[])), "");
}

#[test]
fn an_empty_report_clears_the_conflict_and_the_deferral() {
    let mut s = ConflictStore::default();
    s.record("s", v(&["a.txt"]));
    s.defer("s");
    s.record("s", vec![]);
    assert_eq!(s.count("s"), 0);
    s.record("s", v(&["a.txt"]));
    assert!(s.needs_attention());
}

#[test]
fn resolving_removes_the_conflict() {
    let mut s = ConflictStore::default();
    s.record("s", v(&["a.txt"]));
    s.resolved("s");
    assert!(s.next_to_show().is_none() && s.count("s") == 0);
}

#[test]
fn several_syncs_are_shown_one_at_a_time_in_a_stable_order() {
    let mut s = ConflictStore::default();
    s.record("s2", v(&["x"]));
    s.record("s1", v(&["y"]));
    assert_eq!(s.next_to_show().map(|(c, _)| c), Some("s1"));
    s.defer("s1");
    assert_eq!(s.next_to_show().map(|(c, _)| c), Some("s2"));
}

#[test]
fn after_handling_one_sync_the_next_pending_one_is_shown() {
    let mut s = ConflictStore::default();
    s.record("s1", v(&["a"]));
    s.record("s2", v(&["b"]));
    s.take_dirty();
    s.resolved("s1");
    s.mark_dirty_if_more();
    assert!(s.needs_attention());
    assert_eq!(s.next_to_show().map(|(c, _)| c), Some("s2"));
}

#[test]
fn no_attention_is_needed_when_nothing_changed() {
    let mut s = ConflictStore::default();
    assert!(!s.needs_attention());
    s.record("s", v(&["a"]));
    s.take_dirty();
    assert!(!s.needs_attention(), "bayrak temizlendi: tekrar öne getirme");
}

#[test]
fn the_preview_lists_a_few_files_and_counts_the_rest() {
    let files = v(&["a", "b", "c", "d", "e", "f"]);
    assert_eq!(list_preview(&files, 4), ("a\nb\nc\nd".to_string(), 2));
    assert_eq!(list_preview(&files[..2], 4), ("a\nb".to_string(), 0));
}

#[test]
fn the_pending_files_are_kept_sorted() {
    let mut s = ConflictStore::default();
    s.record("s", v(&["z", "m", "a"]));
    assert_eq!(s.files("s"), v(&["a", "m", "z"]));
    assert_eq!(s.files("other"), Vec::<String>::new());
}

// ── sync loops ──────────────────────────────────────────────────────────

#[test]
fn each_loop_gets_a_new_generation() {
    let mut c = SyncControl::default();
    let a = c.begin_loop("s1");
    let b = c.begin_loop("s2");
    let a2 = c.begin_loop("s1");
    assert!(a < b && b < a2);
}

#[test]
fn a_restarted_loop_makes_the_old_one_stale() {
    let mut c = SyncControl::default();
    let old = c.begin_loop("s1");
    let new = c.begin_loop("s1");
    assert!(!c.is_current("s1", old));
    assert!(c.is_current("s1", new));
    let other = c.begin_loop("s2");
    assert!(c.is_current("s2", other) && c.is_current("s1", new));
}

#[test]
fn resume_only_happens_for_a_loop_that_was_actually_paused() {
    let mut c = SyncControl::default();
    c.begin_loop("s1");
    assert!(!c.take_paused("s1"));
    c.mark_paused("s1");
    assert!(c.is_paused("s1"));
    assert!(c.take_paused("s1"));
    assert!(!c.take_paused("s1"));
}

#[test]
fn starting_a_loop_clears_the_paused_flag() {
    let mut c = SyncControl::default();
    c.begin_loop("s1");
    c.mark_paused("s1");
    c.begin_loop("s1");
    assert!(!c.is_paused("s1"));
}

#[test]
fn stop_is_reported_only_by_the_current_unpaused_loop() {
    let mut c = SyncControl::default();
    let old = c.begin_loop("s1");
    assert!(c.should_report_stop("s1", old));
    c.mark_paused("s1");
    assert!(!c.should_report_stop("s1", old));
    c.take_paused("s1");
    let _new = c.begin_loop("s1");
    assert!(!c.should_report_stop("s1", old));
}

#[test]
fn forgetting_a_sync_drops_everything() {
    let mut c = SyncControl::default();
    let g = c.begin_loop("s1");
    c.mark_paused("s1");
    c.forget("s1");
    assert!(!c.is_paused("s1"));
    assert!(!c.is_current("s1", g));
    assert!(!c.take_paused("s1"));
}

#[test]
fn backups_made_in_the_same_second_get_distinct_names() {
    let first = unique_backup_name("a.txt", "2026-09-22 01-30-05", &vec!["a.txt".to_string()]);
    assert_eq!(first, "a (yerel yedek 2026-09-22 01-30-05).txt");
    let second = unique_backup_name("a.txt", "2026-09-22 01-30-05", &vec!["a.txt".to_string(), first.clone()]);
    assert_ne!(second, first);
    assert_eq!(second, "a (yerel yedek 2026-09-22 01-30-05 (2)).txt");
    let third = unique_backup_name("a.txt", "T", &vec!["a (yerel yedek T).txt".into(), "a (yerel yedek T (2)).txt".into()]);
    assert_eq!(third, "a (yerel yedek T (3)).txt");
}

#[test]
fn the_backup_goes_beside_the_file() {
    let taken = vec!["a (yerel yedek T).txt".to_string()];
    assert_eq!(unique_backup_path("/x/y/a.txt", "T", &taken), "/x/y/a (yerel yedek T (2)).txt");
    assert_eq!(unique_backup_path("a.txt", "T", &vec![]), "a (yerel yedek T).txt");
}

#[test]
fn deferring_a_sync_without_conflicts_changes_nothing() {
    let mut s = ConflictStore::default();
    s.record("s", v(&["a.txt"]));
    s.record("s", v(&[]));
    assert_eq!(s.count("s"), 0);
    s.defer("s");
    s.record("s", v(&["a.txt"]));
    assert!(s.next_to_show().is_some());
}
