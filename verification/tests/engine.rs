use connect_sync::crypto::{decrypt_chunk, derive_keys, encrypt_chunk, hash_chunk_name, seal_with_nonce, Keys};
use connect_sync::engine::pull_may_start;
use connect_sync::drive::{
    backoff, children_query, escape_q, folder_access, folder_query, is_not_found, is_retryable,
    listed_folder_name, multipart_related, retry_after_secs, send_step, DriveError, DriveIndex,
    FolderAccess, FolderInfo, IndexEntry, IndexedFile, SendAction, SendEvent, SendState,
    MAX_RETRIES, NET_MAX_RETRIES,
};
use connect_sync::engine::{
    accept_manifest, apply_removals, check_restored_size, file_outcome, gc_victims,
    is_internal_file, next_revision, open_chunk, open_manifest, plan_pull, plan_push,
    prepare_chunk, pull_targets, rel_path_string, safe_join, salt_from_vault, seal_manifest,
    tmp_path, vault_json, Concurrency, DestState, FileOutcome, LocalFile, PushOptions,
    ScanResult,
};
use connect_sync::limits::{DEFAULT_THREADS, MAX_THREADS, MIN_THREADS};
use connect_sync::manifest::{FileInfo, Manifest};
use connect_sync::strmap::StrMap;
use connect_sync::chunker::{Chunker, CDC_AVG, CDC_MAX, CDC_MIN};
use connect_sync::sync_state::{FileStat, SyncState};
use connect_sync::engine::record_in_sync;
use connect_sync::engine::{record_pull_outcome, record_push_outcome, saved_revision, settle_chunking, should_checkpoint, PullReport, SyncReport};
use connect_sync::drive::{body_retry, registry_multipart};
use connect_sync::drive::{about_url, file_url, list_page_url, media_url, update_media_url};

fn keys() -> Keys {
    Keys { enc_key: [7u8; 32], hmac_key: [9u8; 32] }
}

fn info(path: &str, size: u64, mtime: u64, chunks: Vec<[u8; 32]>) -> FileInfo {
    FileInfo { path: path.into(), size, modified_at: mtime, chunks }
}

fn local(rel: &str, size: u64, mtime: u64) -> LocalFile {
    LocalFile { rel_path: rel.into(), abs_path: format!("/r/{rel}"), size, modified_ms: mtime }
}

fn manifest_with(files: Vec<FileInfo>) -> Manifest {
    let mut m = Manifest::new();
    for f in files {
        let p = f.path.clone();
        m.files.insert(p, f);
    }
    m
}

fn folder_info(json: &str) -> FolderInfo {
    let v: serde_json::Value = serde_json::from_str(json).expect("geçerli JSON");
    let app_properties = v.get("appProperties").and_then(|p| p.as_object()).map(|o| {
        let mut m = StrMap::new();
        for (k, val) in o {
            m.insert(k.clone(), val.as_str().unwrap_or_default().to_string());
        }
        m
    });
    FolderInfo {
        name: v.get("name").and_then(|n| n.as_str()).unwrap_or_default().to_string(),
        trashed: v.get("trashed").and_then(|t| t.as_bool()).unwrap_or(false),
        app_properties,
    }
}

// ── concurrency ─────────────────────────────────────────────────────────

#[test]
fn concurrency_default_matches_previous_constants() {
    let c = Concurrency::from_threads(DEFAULT_THREADS);
    assert_eq!(c, Concurrency { files: 3, uploads: 4 });
}

#[test]
fn concurrency_clamps_out_of_range_values() {
    let low = Concurrency::from_threads(0);
    assert_eq!(low, Concurrency { files: 1, uploads: 1 });
    let high = Concurrency::from_threads(10_000);
    assert_eq!(high.uploads, MAX_THREADS as usize);
}

#[test]
fn concurrency_never_starves_and_is_monotonic() {
    let mut prev = Concurrency::from_threads(MIN_THREADS);
    for t in MIN_THREADS..=MAX_THREADS {
        let c = Concurrency::from_threads(t);
        assert!(c.files >= 1 && c.uploads >= 1, "t={t}");
        assert!(c.files <= c.uploads, "t={t}");
        assert!(c.files >= prev.files && c.uploads >= prev.uploads, "t={t}");
        prev = c;
    }
}

// ── paths ───────────────────────────────────────────────────────────────

#[test]
fn safe_join_rejects_traversal() {
    let base = "/tmp/restore";
    assert!(safe_join(base, "a/b.txt", false).is_some());
    assert!(safe_join(base, "../etc/passwd", false).is_none());
    assert!(safe_join(base, "a/../../x", false).is_none());
    assert!(safe_join(base, "/abs", false).is_none());
    assert!(safe_join(base, "a//b", false).is_none());
    assert!(safe_join(base, "./a", false).is_none());
    assert!(safe_join(base, "", false).is_none());
}

#[test]
fn safe_join_puts_the_file_under_the_base() {
    assert_eq!(safe_join("/tmp/restore", "a/b.txt", false).as_deref(), Some("/tmp/restore/a/b.txt"));
    assert_eq!(safe_join("/tmp/restore/", "c", false).as_deref(), Some("/tmp/restore/c"));
}

#[test]
fn windows_refuses_drive_prefixes_and_device_names() {
    let base = "C:/restore";
    assert!(safe_join(base, "a/b.txt", true).is_some());
    assert!(safe_join(base, "c:/x", true).is_none());
    assert!(safe_join(base, "a/b:stream", true).is_none());
    assert!(safe_join(base, "a/CON", true).is_none());
    assert!(safe_join(base, "nul", true).is_none());
    assert!(safe_join(base, "Aux/x", true).is_none());
    assert!(safe_join(base, "COM1", true).is_none());
    assert!(safe_join(base, "a/lpt9", true).is_none());
    assert!(safe_join(base, "a\\b", true).is_none());
    assert!(safe_join(base, "COM1.txt", true).is_some());
    assert!(safe_join(base, "com", true).is_some());
    assert!(safe_join(base, "comx", true).is_some());
    // The same names are ordinary elsewhere.
    assert!(safe_join(base, "a/CON", false).is_some());
    assert!(safe_join(base, "b:stream", false).is_some());
    // A four-byte piece ending in a multi-byte character is no device name.
    assert!(safe_join(base, "abé", true).is_some());
    assert!(safe_join(base, "x/COé", true).is_some());
}

#[test]
fn rel_path_uses_forward_slashes() {
    let rel = rel_path_string("/r", "/r/a/b.txt");
    assert_eq!(rel.as_deref(), Some("a/b.txt"));
    assert!(rel_path_string("/r", "/r").is_none());
}

#[test]
fn rel_path_follows_path_components() {
    assert_eq!(rel_path_string("/r/", "/r//a/./b").as_deref(), Some("a/b"));
    assert!(rel_path_string("/r", "/rx/a").is_none());
    assert!(rel_path_string("/r", "/r/a/../b").is_none());
}

#[test]
fn tmp_path_appends_suffix() {
    assert_eq!(tmp_path("/x/y/file.txt"), "/x/y/file.txt.connectsync-part");
}

#[test]
fn the_sync_skips_its_own_files() {
    assert!(is_internal_file("/r", "/r/a.txt.connectsync-part"));
    assert!(is_internal_file("/r", "/r/.connectsync-revision"));
    assert!(is_internal_file("/r", "/r/sub/.connectsync-revision"));
    assert!(is_internal_file("/r", "/r/.connectsync-state.json"));
    assert!(is_internal_file("/r/", "/r/.connectsync-state.json"));
    // Only the state file at the folder's root is the sync's own.
    assert!(!is_internal_file("/r", "/r/sub/.connectsync-state.json"));
    assert!(!is_internal_file("/r", "/r/connectsync-state.json"));
    assert!(!is_internal_file("/r", "/r/a.txt"));
    assert!(!is_internal_file("/r", "/r/connectsync-part"));
}

// ── push ────────────────────────────────────────────────────────────────

#[test]
fn a_push_uploads_new_and_changed_files_and_drops_deleted_ones() {
    let chunk = [1u8; 32];
    let m = manifest_with(vec![
        info("same.txt", 10, 100, vec![chunk]),
        info("changed.txt", 10, 100, vec![]),
        info("gone.txt", 5, 5, vec![]),
    ]);
    let mut idx = DriveIndex::new();
    idx.add_listed(hex::encode(chunk), IndexEntry { id: "id1".into(), created_time: None });
    let scan = ScanResult {
        files: vec![local("same.txt", 10, 100), local("changed.txt", 11, 100), local("new.txt", 1, 1)],
        errors: 0,
    };
    let plan = plan_push(&m, &scan, &idx, &PushOptions::default()).unwrap();
    assert_eq!(plan.removed, vec!["gone.txt".to_string()]);
    let work: Vec<&str> = plan.work.iter().map(|f| f.rel_path.as_str()).collect();
    assert_eq!(work, vec!["changed.txt", "new.txt"]);
    assert_eq!((plan.unchanged, plan.repaired), (1, 0));
    assert_eq!(plan.unchanged + plan.work.len(), scan.files.len());
}

#[test]
fn a_file_that_lost_a_chunk_on_drive_is_uploaded_again() {
    let m = manifest_with(vec![info("a.txt", 10, 100, vec![[2u8; 32]])]);
    let idx = DriveIndex::new();
    let scan = ScanResult { files: vec![local("a.txt", 10, 100)], errors: 0 };
    let plan = plan_push(&m, &scan, &idx, &PushOptions::default()).unwrap();
    assert_eq!(plan.work.len(), 1);
    assert_eq!((plan.unchanged, plan.repaired), (0, 1));
}

#[test]
fn scan_errors_keep_every_manifest_entry() {
    let m = manifest_with(vec![info("a.txt", 1, 1, vec![]), info("b.txt", 1, 1, vec![])]);
    let scan = ScanResult { files: vec![local("a.txt", 1, 1)], errors: 1 };
    let plan = plan_push(&m, &scan, &DriveIndex::new(), &PushOptions::default()).unwrap();
    assert!(plan.removed.is_empty());
}

#[test]
fn an_empty_folder_does_not_wipe_the_manifest() {
    let m = manifest_with(vec![info("a.txt", 1, 1, vec![])]);
    let scan = ScanResult { files: vec![], errors: 0 };
    let err = plan_push(&m, &scan, &DriveIndex::new(), &PushOptions::default()).err().unwrap();
    assert!(err.starts_with("Toplu silme engellendi: manifest'te 1 dosya var, yerelde 1 tanesi bulunamadı"), "{err}");
    let allowed = plan_push(&m, &scan, &DriveIndex::new(), &PushOptions { allow_mass_delete: true }).unwrap();
    assert_eq!(allowed.removed.len(), 1);
}

#[test]
fn removing_most_of_a_large_manifest_is_refused() {
    let files: Vec<FileInfo> = (0..30).map(|i| info(&format!("f{i}"), 1, 1, vec![])).collect();
    let m = manifest_with(files);
    let scan = ScanResult { files: vec![local("f0", 1, 1)], errors: 0 };
    assert!(plan_push(&m, &scan, &DriveIndex::new(), &PushOptions::default()).is_err());
    let scan_half = ScanResult { files: (0..15).map(|i| local(&format!("f{i}"), 1, 1)).collect(), errors: 0 };
    let plan = plan_push(&m, &scan_half, &DriveIndex::new(), &PushOptions::default()).unwrap();
    assert_eq!(plan.removed.len(), 15);
}

#[test]
fn removals_drop_only_the_gone_entries() {
    let mut m = manifest_with(vec![info("a", 1, 1, vec![]), info("b", 2, 2, vec![])]);
    apply_removals(&mut m, &vec!["a".to_string(), "zzz".to_string()]);
    assert!(m.files.get("a").is_none());
    assert_eq!(m.files.get("b").map(|f| f.size), Some(2));
}

#[test]
fn a_file_changed_while_read_is_left_for_later() {
    let lf = local("a.txt", 10, 100);
    assert!(matches!(file_outcome(&lf, Some((11, 100)), 10, vec![]), Ok(FileOutcome::ChangedDuringSync)));
    assert!(matches!(file_outcome(&lf, None, 10, vec![]), Ok(FileOutcome::ChangedDuringSync)));
    let err = file_outcome(&lf, Some((10, 100)), 9, vec![]).err().unwrap();
    assert_eq!(err, "okunan bayt sayısı (9) dosya boyutuyla (10) uyuşmuyor");
    match file_outcome(&lf, Some((10, 100)), 10, vec![[3u8; 32]]) {
        Ok(FileOutcome::Synced(i)) => {
            assert_eq!((i.path.as_str(), i.size, i.modified_at, i.chunks.len()), ("a.txt", 10, 100, 1))
        },
        _ => panic!("dosya kaydedilmeliydi"),
    }
}

// ── chunks and keys ─────────────────────────────────────────────────────

#[test]
fn keys_are_derived_deterministically_and_need_a_real_salt() {
    let a = derive_keys("cs-abc-0123", &[5u8; 32]).unwrap();
    let b = derive_keys("cs-abc-0123", &[5u8; 32]).unwrap();
    assert_eq!(a.enc_key, b.enc_key);
    assert_eq!(a.hmac_key, b.hmac_key);
    assert_ne!(a.enc_key, a.hmac_key);
    let c = derive_keys("cs-abc-0124", &[5u8; 32]).unwrap();
    assert_ne!(a.enc_key, c.enc_key);
    assert!(derive_keys("x", &[1u8; 4]).is_err());
}

#[test]
fn a_sealed_chunk_opens_to_its_content() {
    let k = keys();
    let enc = encrypt_chunk(&k.enc_key, "name", b"hello chunk").unwrap();
    assert_eq!(enc.len(), 12 + 11 + 16);
    assert_eq!(decrypt_chunk(&k.enc_key, "name", &enc).unwrap(), b"hello chunk".to_vec());
    assert!(decrypt_chunk(&k.enc_key, "other", &enc).is_err());
    let mut bad = enc.clone();
    bad[20] ^= 1;
    assert!(decrypt_chunk(&k.enc_key, "name", &bad).is_err());
    assert_eq!(
        decrypt_chunk(&k.enc_key, "name", &enc[..5]).unwrap_err(),
        "Geçersiz şifreli veri boyutu (nonce eksik)"
    );
}

#[test]
fn two_seals_of_one_chunk_differ() {
    let k = keys();
    let a = encrypt_chunk(&k.enc_key, "n", b"same").unwrap();
    let b = encrypt_chunk(&k.enc_key, "n", b"same").unwrap();
    assert_ne!(a, b);
}

#[test]
fn a_chunk_is_named_by_its_content_and_checked_on_the_way_back() {
    let k = keys();
    let mut idx = DriveIndex::new();
    let c = prepare_chunk(&k, &idx, b"data").unwrap();
    assert_eq!(c.name, hash_chunk_name(&k.hmac_key, b"data"));
    assert_eq!(c.plain_len, 4);
    let name = hex::encode(c.name);
    let enc = c.sealed.unwrap();
    assert_eq!(open_chunk(&k, &name, &enc).unwrap(), b"data".to_vec());
    let other = prepare_chunk(&k, &idx, b"other").unwrap();
    let swapped = encrypt_chunk(&k.enc_key, &name, b"other").unwrap();
    assert!(open_chunk(&k, &name, &swapped).unwrap_err().starts_with("chunk bütünlük kontrolü başarısız"));
    assert!(other.sealed.is_some());
    idx.add_listed(name.clone(), IndexEntry { id: "x".into(), created_time: None });
    assert!(prepare_chunk(&k, &idx, b"data").unwrap().sealed.is_none());
}

// ── pull ────────────────────────────────────────────────────────────────

#[test]
fn a_pull_restores_missing_files_and_skips_the_rest() {
    let m = manifest_with(vec![
        info("b.txt", 5, 50, vec![]),
        info("../evil", 1, 1, vec![]),
        info("a.txt", 10, 100, vec![]),
        info("c.txt", 1, 1, vec![]),
        info("d", 1, 1, vec![]),
    ]);
    let targets = pull_targets(&m, "/dst", false);
    let rels: Vec<&str> = targets.iter().map(|t| t.rel.as_str()).collect();
    assert_eq!(rels, vec!["../evil", "a.txt", "b.txt", "c.txt", "d"]);
    assert_eq!(targets[1].dest.as_deref(), Some("/dst/a.txt"));
    assert!(targets[0].dest.is_none());
    let states = vec![
        DestState::Missing,
        DestState::File { len: 10, modified_ms: 100 },
        DestState::Missing,
        DestState::File { len: 9, modified_ms: 1 },
        DestState::NotAFile,
    ];
    let plan = plan_pull(&m, &targets, &states, &SyncState::new(), false);
    assert_eq!(plan.report.invalid_paths, vec!["../evil".to_string()]);
    assert_eq!(plan.report.skipped_up_to_date, 1);
    assert_eq!(plan.report.skipped_existing, vec!["c.txt".to_string()]);
    assert_eq!(plan.report.failed_files, vec![("d".to_string(), "hedef yol bir dosya değil".to_string())]);
    let jobs: Vec<(&str, &str)> = plan.jobs.iter().map(|j| (j.rel.as_str(), j.dest.as_str())).collect();
    assert_eq!(jobs, vec![("b.txt", "/dst/b.txt")]);
    assert_eq!(plan.in_sync, vec!["a.txt".to_string()]);
    assert!(plan.report.conflicts.is_empty());
    // With overwriting on but no record of the last synchronisation, the
    // differing file is a conflict, not a download.
    let overwrite = plan_pull(&m, &targets, &states, &SyncState::new(), true);
    assert_eq!(overwrite.jobs.len(), 1);
    assert_eq!(overwrite.report.conflicts, vec!["c.txt".to_string()]);
    assert!(overwrite.report.skipped_existing.is_empty());
}

#[test]
fn a_pull_decides_each_existing_file_three_ways() {
    let m = manifest_with(vec![
        info("remote_changed", 20, 200, vec![]),
        info("local_changed", 10, 100, vec![]),
        info("both_changed", 20, 250, vec![]),
    ]);
    let targets = pull_targets(&m, "/dst", false);
    let rels: Vec<&str> = targets.iter().map(|t| t.rel.as_str()).collect();
    assert_eq!(rels, vec!["both_changed", "local_changed", "remote_changed"]);
    let mut sync = SyncState::new();
    sync.set("remote_changed", FileStat { size: 10, modified_ms: 100 });
    sync.set("local_changed", FileStat { size: 10, modified_ms: 100 });
    sync.set("both_changed", FileStat { size: 10, modified_ms: 100 });
    let states = vec![
        DestState::File { len: 15, modified_ms: 300 },
        DestState::File { len: 15, modified_ms: 300 },
        DestState::File { len: 10, modified_ms: 100 },
    ];
    let plan = plan_pull(&m, &targets, &states, &sync, true);
    let jobs: Vec<&str> = plan.jobs.iter().map(|j| j.rel.as_str()).collect();
    assert_eq!(jobs, vec!["remote_changed"]);
    assert_eq!(plan.report.skipped_existing, vec!["local_changed".to_string()]);
    assert_eq!(plan.report.conflicts, vec!["both_changed".to_string()]);
    assert_eq!(plan.report.skipped_up_to_date, 0);
}

#[test]
fn files_found_in_sync_become_the_recorded_state() {
    let m = manifest_with(vec![info("a", 3, 30, vec![]), info("b", 4, 40, vec![])]);
    let mut sync = SyncState::new();
    sync.set("z", FileStat { size: 1, modified_ms: 1 });
    record_in_sync(&mut sync, &m, &vec!["a".to_string(), "gone".to_string()]);
    assert_eq!(sync.get("a"), Some(FileStat { size: 3, modified_ms: 30 }));
    assert_eq!(sync.get("b"), None);
    assert_eq!(sync.get("gone"), None);
    assert_eq!(sync.get("z"), Some(FileStat { size: 1, modified_ms: 1 }));
    assert_eq!(sync.len(), 2);
}

#[test]
fn a_restored_file_must_have_the_recorded_size() {
    assert!(check_restored_size(10, 10).is_ok());
    assert_eq!(
        check_restored_size(9, 10).unwrap_err(),
        "geri yüklenen boyut (9) manifest'teki boyutla (10) uyuşmuyor"
    );
}

// ── manifest and salt ───────────────────────────────────────────────────

#[test]
fn an_older_or_foreign_manifest_is_refused() {
    let mut m = Manifest::new();
    m.revision = 5;
    assert_eq!(accept_manifest(&m, 5), Ok(5));
    assert_eq!(
        accept_manifest(&m, 6).unwrap_err(),
        "Sunucudaki manifest eski (rollback algılandı). Uzak: 5, Yerel: 6"
    );
    m.schema_version = 2;
    assert_eq!(
        accept_manifest(&m, 0).unwrap_err(),
        "Desteklenmeyen manifest sürümü: 2. Lütfen uygulamayı güncelleyin."
    );
    assert_eq!(next_revision(5), 6);
    assert_eq!(next_revision(u64::MAX), u64::MAX);
}

#[test]
fn a_sealed_manifest_opens_again() {
    let k = keys();
    let enc = seal_manifest(&k, b"manifest bytes").unwrap();
    assert_eq!(open_manifest(&k, &enc).unwrap(), b"manifest bytes".to_vec());
    let wrong = Keys { enc_key: [8u8; 32], hmac_key: [9u8; 32] };
    assert!(open_manifest(&wrong, &enc).unwrap_err().starts_with("Manifest çözülemedi"));
}

#[test]
fn the_salt_file_reads_back_what_was_written() {
    let salt = [0x5au8; 32];
    let json = vault_json(&salt);
    assert_eq!(json, format!("{{\"salt\":\"{}\"}}", "5a".repeat(32)));
    let v: serde_json::Value = serde_json::from_str(&json).unwrap();
    assert_eq!(salt_from_vault(v["salt"].as_str()), Ok(salt));
    assert_eq!(salt_from_vault(None).unwrap_err(), "vault.json 'salt' alanı eksik");
    assert_eq!(salt_from_vault(Some("abcd")).unwrap_err(), "vault.json salt boyutu hatalı: 2");
    assert!(salt_from_vault(Some("zz")).unwrap_err().starts_with("vault.json salt hex decode hatası"));
}

// ── garbage collection ──────────────────────────────────────────────────

#[test]
fn gc_deletes_only_old_orphans() {
    let live = [4u8; 32];
    let m = manifest_with(vec![info("a", 1, 1, vec![live])]);
    let file = |name: &str, created: Option<&str>| IndexedFile {
        name: name.to_string(),
        id: format!("id-{name}"),
        created_time: created.map(|s| s.to_string()),
    };
    let files = vec![
        file("manifest.bin", None),
        file("vault.json", None),
        file(&hex::encode(live), Some("2020-01-01T00:00:00Z")),
        file("old-orphan", Some("2020-01-01T00:00:00Z")),
        file("young-orphan", Some("2020-01-10T12:00:00Z")),
        file("no-time", None),
        file("bad-time", Some("yesterday")),
    ];
    // 2020-01-10T12:00:00Z plus one hour
    let now = 1_578_657_600u64 + 3600;
    assert_eq!(gc_victims(&m, &files, now, 0), vec![3, 5]);
}

// ── drive ───────────────────────────────────────────────────────────────

#[test]
fn the_real_name_written_at_creation_wins() {
    let f = folder_info(r#"{"name":"ConnectSync_938891ca","appProperties":{"cs_name":"Müzik"}}"#);
    assert_eq!(f.display_name(), "Müzik");
}

#[test]
fn falls_back_to_the_drive_name_without_the_random_prefix() {
    assert_eq!(folder_info(r#"{"name":"ConnectSync_938891ca"}"#).display_name(), "938891ca");
    assert_eq!(folder_info(r#"{"name":"Belgelerim"}"#).display_name(), "Belgelerim");
}

#[test]
fn a_blank_real_name_is_ignored() {
    let f = folder_info(r#"{"name":"ConnectSync_abcd1234","appProperties":{"cs_name":"   "}}"#);
    assert_eq!(f.display_name(), "abcd1234");
}

#[test]
fn missing_fields_default_to_a_live_unnamed_folder() {
    let f = folder_info("{}");
    assert!(!f.trashed);
    assert_eq!(f.display_name(), "");
}

#[test]
fn trashed_is_parsed() {
    assert!(folder_info(r#"{"name":"x","trashed":true}"#).trashed);
}

#[test]
fn folder_access_tells_live_trashed_and_invisible_folders_apart() {
    let live = folder_info(r#"{"name":"x"}"#);
    let trashed = folder_info(r#"{"name":"x","trashed":true}"#);
    assert_eq!(folder_access(Some(&live)), FolderAccess::Available);
    assert_eq!(folder_access(Some(&trashed)), FolderAccess::Trashed);
    assert_eq!(folder_access(None), FolderAccess::NotVisible);
}

#[test]
fn the_listed_name_is_not_trimmed() {
    let f = folder_info(r#"{"name":"ConnectSync_ab","appProperties":{"cs_name":" Müzik "}}"#);
    assert_eq!(listed_folder_name(&f.name, &f.app_properties), " Müzik ");
    assert_eq!(listed_folder_name("ConnectSync_ab", &None), "ConnectSync_ab");
}

#[test]
fn only_a_404_counts_as_not_found() {
    let api = |status| DriveError::Api { status, body: String::new() };
    assert!(is_not_found(&api(404)));
    for other in [401, 403, 429, 500] {
        assert!(!is_not_found(&api(other)), "{other}");
    }
    assert!(!is_not_found(&DriveError::Auth("x".into())));
    assert_eq!(api(404).message(), "Drive API hatası (404): ");
}

#[test]
fn query_strings_escape_quotes_and_backslashes() {
    assert_eq!(escape_q(r"it's a\b"), r"it\'s a\\b");
    assert_eq!(
        folder_query("ConnectSync_ab", Some("p'1")),
        "name = 'ConnectSync_ab' and mimeType = 'application/vnd.google-apps.folder' and trashed = false and 'p\\'1' in parents"
    );
    assert_eq!(children_query("F1"), "'F1' in parents and trashed = false");
}

#[test]
fn an_upload_body_frames_the_content() {
    let body = multipart_related("{\"name\":\"x\"}", b"DATA");
    let text = String::from_utf8(body).unwrap();
    assert_eq!(
        text,
        "--connectsync_9f2b7c41d8e5a360\r\nContent-Type: application/json; charset=UTF-8\r\n\r\n{\"name\":\"x\"}\r\n--connectsync_9f2b7c41d8e5a360\r\nContent-Type: application/octet-stream\r\n\r\nDATA\r\n--connectsync_9f2b7c41d8e5a360--"
    );
}

#[test]
fn rate_limits_and_server_errors_are_retried() {
    assert!(is_retryable(429, ""));
    assert!(is_retryable(503, ""));
    assert!(is_retryable(403, "{\"reason\":\"userRateLimitExceeded\"}"));
    assert!(!is_retryable(403, "forbidden"));
    assert!(!is_retryable(404, ""));
    assert_eq!(retry_after_secs("7"), Some(7));
    assert_eq!(retry_after_secs("600"), Some(120));
    assert_eq!(retry_after_secs("soon"), None);
    assert_eq!(backoff(0, 1_234_567), 1567);
    assert_eq!(backoff(9, 0), 32_000);
}

#[test]
fn the_request_loop_refreshes_once_then_gives_up() {
    let start = SendState { attempt: 0, refreshed: false };
    let unauthorized = SendEvent::Status { status: 401, body: "no".into(), retry_after: None };
    let s1 = send_step(start, &unauthorized, true, 0);
    assert!(matches!(s1.action, SendAction::RefreshToken));
    let s2 = send_step(s1.state, &unauthorized, true, 0);
    assert!(matches!(s2.action, SendAction::FailApi { status: 401, .. }));
    let busy = SendEvent::Status { status: 429, body: String::new(), retry_after: Some("3".into()) };
    let s3 = send_step(start, &busy, false, 0);
    assert!(matches!(s3.action, SendAction::Wait { millis: 3000 }));
    let late = SendState { attempt: MAX_RETRIES, refreshed: false };
    assert!(matches!(send_step(late, &busy, false, 0).action, SendAction::FailApi { .. }));
    let offline = SendEvent::NetError { transient: true };
    let s4 = send_step(start, &offline, false, 500);
    assert_eq!(s4.net_retry, 1);
    assert!(matches!(s4.action, SendAction::Wait { millis: 1500 }));
    let spent = SendState { attempt: NET_MAX_RETRIES, refreshed: false };
    assert!(matches!(send_step(spent, &offline, false, 0).action, SendAction::FailNet));
    let long_body = SendEvent::Status { status: 400, body: "x".repeat(600), retry_after: None };
    match send_step(start, &long_body, false, 0).action {
        SendAction::FailApi { body, .. } => assert_eq!(body.len(), 500),
        _ => panic!("istek başarısız olmalıydı"),
    }
}

#[test]
fn the_index_keeps_the_first_file_of_a_name() {
    let mut idx = DriveIndex::new();
    idx.add_listed("a".into(), IndexEntry { id: "1".into(), created_time: None });
    idx.add_listed("a".into(), IndexEntry { id: "2".into(), created_time: None });
    assert_eq!(idx.file_id("a").as_deref(), Some("1"));
    idx.add_created("a", "3".into());
    assert_eq!(idx.file_id("a").as_deref(), Some("1"));
    idx.set_file("a", "4".into());
    assert_eq!(idx.file_id("a").as_deref(), Some("4"));
    assert!(idx.has("a") && !idx.has("b"));
    assert_eq!(idx.len(), 1);
    assert_eq!(idx.all_names(), vec![("a".to_string(), "4".to_string())]);
}

#[test]
fn request_addresses_encode_their_parts() {
    assert_eq!(media_url("a b/ç"), "https://www.googleapis.com/drive/v3/files/a%20b%2F%C3%A7?alt=media");
    assert_eq!(file_url("id-1_~.", None), "https://www.googleapis.com/drive/v3/files/id-1_~.");
    assert_eq!(file_url("F", Some("id")), "https://www.googleapis.com/drive/v3/files/F?fields=id");
    assert_eq!(update_media_url("X"), "https://www.googleapis.com/upload/drive/v3/files/X?uploadType=media&fields=id");
    assert_eq!(about_url(), "https://www.googleapis.com/drive/v3/about?fields=user%28emailAddress%29");
    assert_eq!(
        list_page_url("F1", Some("t=1")),
        "https://www.googleapis.com/drive/v3/files?q=%27F1%27%20in%20parents%20and%20trashed%20%3D%20false&spaces=drive&pageSize=1000&fields=nextPageToken%2Cfiles%28id%2Cname%2CcreatedTime%29&orderBy=modifiedTime%20desc&pageToken=t%3D1"
    );
}

#[test]
fn only_a_synced_file_enters_the_manifest() {
    let mut m = manifest_with(vec![info("a", 1, 1, vec![])]);
    let mut r = SyncReport::default();
    let mut s = SyncState::new();
    assert!(!record_push_outcome(&mut m, &mut r, &mut s, "b".into(), Err("chunk yüklenemedi: x".into())));
    assert!(m.files.get("b").is_none());
    assert_eq!(r.failed_files, vec![("b".to_string(), "chunk yüklenemedi: x".to_string())]);
    assert!(!record_push_outcome(&mut m, &mut r, &mut s, "c".into(), Ok(FileOutcome::ChangedDuringSync)));
    assert!(m.files.get("c").is_none());
    assert_eq!(r.changed_during_sync, vec!["c".to_string()]);
    assert!(s.is_empty());
    assert!(record_push_outcome(&mut m, &mut r, &mut s, "b".into(), Ok(FileOutcome::Synced(info("b", 5, 6, vec![[1u8; 32]])))));
    assert_eq!(m.files.get("b").map(|f| (f.size, f.modified_at)), Some((5, 6)));
    assert_eq!(r.uploaded_files, 1);
    assert_eq!(m.files.len(), 2);
    assert_eq!(s.get("b"), Some(FileStat { size: 5, modified_ms: 6 }));
    assert_eq!(s.len(), 1);
}

#[test]
fn a_pull_books_written_bytes_and_failures() {
    let m = manifest_with(vec![info("a", 10, 1, vec![]), info("b", 2, 2, vec![]), info("c", 5, 3, vec![])]);
    let mut r = PullReport::default();
    let mut s = SyncState::new();
    record_pull_outcome(&mut r, &mut s, &m, "a".into(), Ok(10));
    record_pull_outcome(&mut r, &mut s, &m, "b".into(), Err("yazma hatası".into()));
    record_pull_outcome(&mut r, &mut s, &m, "c".into(), Ok(5));
    assert_eq!(r.restored_files, 2);
    assert_eq!(r.bytes_written, 15);
    assert_eq!(r.failed_files, vec![("b".to_string(), "yazma hatası".to_string())]);
    assert_eq!(s.get("a"), Some(FileStat { size: 10, modified_ms: 1 }));
    assert_eq!(s.get("b"), None);
    assert_eq!(s.get("c"), Some(FileStat { size: 5, modified_ms: 3 }));
}

#[test]
fn the_manifest_is_checkpointed_after_many_files_or_a_minute() {
    assert!(!should_checkpoint(0, 1000));
    assert!(!should_checkpoint(199, 59));
    assert!(should_checkpoint(200, 0));
    assert!(should_checkpoint(1, 60));
}

#[test]
fn an_upload_failure_hides_the_readers_complaint() {
    assert_eq!(settle_chunking(Some("chunk yüklenemedi: 500".into()), Err("alıcı kapandı".into())), Err("chunk yüklenemedi: 500".to_string()));
    assert_eq!(settle_chunking(None, Err("okuma hatası".into())), Err("okuma hatası".to_string()));
    assert_eq!(settle_chunking(None, Ok(42)), Ok(42));
}

fn pseudo_random(n: usize, seed: u64) -> Vec<u8> {
    let mut x = seed;
    (0..n)
        .map(|_| {
            x ^= x << 13;
            x ^= x >> 7;
            x ^= x << 17;
            (x >> 24) as u8
        })
        .collect()
}

fn chunk_all(data: &[u8], piece: usize) -> Vec<Vec<u8>> {
    let mut c = Chunker::new();
    let mut out = Vec::new();
    let mut at = 0;
    loop {
        while c.wants_input() {
            if at == data.len() {
                c.end_input();
            } else {
                let end = (at + piece).min(data.len());
                c.feed(&data[at..end]);
                at = end;
            }
        }
        match c.next_chunk() {
            Some(chunk) => out.push(chunk),
            None if c.finished() => break,
            None => {}
        }
    }
    out
}

#[test]
fn a_small_file_is_one_chunk() {
    assert_eq!(chunk_all(b"merhaba", 3), vec![b"merhaba".to_vec()]);
    assert!(chunk_all(b"", 3).is_empty());
}

#[test]
fn chunks_join_back_into_the_file_and_respect_the_sizes() {
    let data = pseudo_random(9 * 1024 * 1024 + 123, 0x9e3779b97f4a7c15);
    let chunks = chunk_all(&data, 65536);
    assert!(chunks.len() > 2);
    assert_eq!(chunks.concat(), data);
    for (i, c) in chunks.iter().enumerate() {
        assert!(c.len() <= CDC_MAX as usize);
        if i + 1 < chunks.len() {
            assert!(c.len() >= CDC_MIN as usize);
        }
    }
}

#[test]
fn the_chunker_cuts_where_fastcdc_streaming_cuts() {
    let data = pseudo_random(7 * 1024 * 1024 + 5, 42);
    let ours: Vec<usize> = chunk_all(&data, 10_000).iter().map(|c| c.len()).collect();
    let theirs: Vec<usize> = fastcdc::v2020::StreamCDC::new(&data[..], CDC_MIN, CDC_AVG, CDC_MAX)
        .map(|c| c.unwrap().length)
        .collect();
    assert_eq!(ours, theirs);
}

#[test]
fn equal_content_gives_equal_chunks_whatever_the_read_size() {
    let data = pseudo_random(6 * 1024 * 1024, 7);
    assert_eq!(chunk_all(&data, 4096), chunk_all(&data, 1 << 20));
}

#[test]
fn the_key_registry_is_created_with_a_two_part_body() {
    let body = registry_multipart(r#"{"name":"k"}"#, r#"{"F":"1"}"#);
    assert_eq!(
        body,
        "--foo_bar_baz\r\nContent-Type: application/json; charset=UTF-8\r\n\r\n{\"name\":\"k\"}\r\n--foo_bar_baz\r\nContent-Type: application/json\r\n\r\n{\"F\":\"1\"}\r\n--foo_bar_baz--"
    );
}

#[test]
fn a_pushed_file_pulls_back_unchanged() {
    let k = keys();
    let index = DriveIndex::new();
    let data = pseudo_random(5 * 1024 * 1024 + 77, 3);
    let mut restored = Vec::new();
    for chunk in chunk_all(&data, 65536) {
        let prepared = prepare_chunk(&k, &index, &chunk).unwrap();
        let name = connect_sync::codec::to_hex(&prepared.name);
        let sealed = prepared.sealed.expect("a chunk the index lacks is sealed");
        restored.extend(open_chunk(&k, &name, &sealed).unwrap());
    }
    assert_eq!(restored, data);
}

#[test]
fn a_broken_download_is_fetched_again_five_times() {
    assert_eq!(body_retry(0), Some((1, 2000)));
    assert_eq!(body_retry(4), Some((5, 2000)));
    assert_eq!(body_retry(5), None);
}

#[test]
fn chunk_names_are_the_hmac_sha256_of_the_content() {
    let name = hash_chunk_name(&[9u8; 32], b"data");
    assert_eq!(
        connect_sync::codec::to_hex(&name),
        "14508c69de97081fe9b2e239c96a1c722fda47bf8b3c0d6132216a83c6f0dd76"
    );
}

#[test]
fn the_saved_revision_is_read_back_or_zero() {
    assert_eq!(saved_revision(Some(" 42\n")), 42);
    assert_eq!(saved_revision(Some("+7")), 7);
    assert_eq!(saved_revision(Some("yedi")), 0);
    assert_eq!(saved_revision(Some("")), 0);
    assert_eq!(saved_revision(None), 0);
}

#[test]
fn a_chunk_sealed_under_a_given_nonce_starts_with_it_and_opens_again() {
    let k = keys();
    let nonce = [3u8; 12];
    let a = seal_with_nonce(&k.enc_key, &nonce, "name", b"hello chunk").unwrap();
    assert_eq!(&a[..12], &nonce);
    assert_eq!(a.len(), 12 + 11 + 16);
    assert_eq!(decrypt_chunk(&k.enc_key, "name", &a).unwrap(), b"hello chunk".to_vec());
    // The same nonce, key, name and data seal the same way; another nonce does not.
    assert_eq!(seal_with_nonce(&k.enc_key, &nonce, "name", b"hello chunk").unwrap(), a);
    let b = seal_with_nonce(&k.enc_key, &[4u8; 12], "name", b"hello chunk").unwrap();
    assert_ne!(a[12..], b[12..]);
    assert!(decrypt_chunk(&k.enc_key, "other", &a).is_err());
}

#[test]
fn a_pull_needs_a_manifest_on_drive() {
    let mut idx = DriveIndex::new();
    assert_eq!(
        pull_may_start(&idx).unwrap_err(),
        "Drive'da manifest bulunamadı; geri yüklenecek bir şey yok."
    );
    idx.add_listed("manifest.bin".to_string(), IndexEntry { id: "m".into(), created_time: None });
    assert!(pull_may_start(&idx).is_ok());
}
