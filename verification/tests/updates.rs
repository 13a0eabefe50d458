use connect_sync::updater::check_download;
use connect_sync::update_ui::{
    can_start_check, download_target, update_view, DownloadProgress, UpdatePhase, UpdateState, UpdateStore,
};
use connect_sync::i18n::Translations;
use connect_sync::strmap::StrMap;
use connect_sync::updater::{
    check_digest, checksum_url, clean_exe_path, current_version, expected_checksum, format_version,
    is_cargo_target_dir, is_newer, offer_release, parse_sha256, parse_version, platform_asset_name,
    release_from_gh, staging_path, GhAsset, GhRelease, Release, UpdateError, CURRENT_VERSION,
};

const RELEASE_JSON: &str = r#"{
    "tag_name": "v1.0.42",
    "assets": [
        {"name": "ConnectSync-Linux", "browser_download_url": "https://x/ConnectSync-Linux", "size": 1234},
        {"name": "ConnectSync-Linux.sha256", "browser_download_url": "https://x/ConnectSync-Linux.sha256", "size": 90},
        {"name": "ConnectSync-Windows-Portable.exe", "browser_download_url": "https://x/win.exe", "size": 999}
    ]
}"#;

/// GitHub's answer read into the fields an update needs, the way the
/// application reads it before handing it to the library.
fn gh_from_json(json: &str) -> Result<GhRelease, UpdateError> {
    let v: serde_json::Value = serde_json::from_str(json).map_err(|e| UpdateError::Release(e.to_string()))?;
    let tag_name = v
        .get("tag_name")
        .and_then(|t| t.as_str())
        .ok_or_else(|| UpdateError::Release("tag_name yok".into()))?
        .to_string();
    let mut assets = Vec::new();
    if let Some(list) = v.get("assets").and_then(|a| a.as_array()) {
        for a in list {
            assets.push(GhAsset {
                name: a.get("name").and_then(|x| x.as_str()).unwrap_or_default().to_string(),
                browser_download_url: a
                    .get("browser_download_url")
                    .and_then(|x| x.as_str())
                    .unwrap_or_default()
                    .to_string(),
                size: a.get("size").and_then(|x| x.as_u64()).unwrap_or(0),
            });
        }
    }
    Ok(GhRelease { tag_name, assets })
}

fn release_from_json(json: &str, asset_name: &str) -> Result<Release, UpdateError> {
    gh_from_json(json).and_then(|gh| release_from_gh(&gh, asset_name))
}

fn release() -> Release {
    Release {
        tag: "v1.0.42".into(),
        version: (1, 0, 42),
        asset_name: "ConnectSync-Linux".into(),
        asset_url: "https://x/a".into(),
        sha256_url: Some("https://x/a.sha256".into()),
        size: 100,
    }
}

fn ready(dev_build: bool) -> UpdatePhase {
    UpdatePhase::Ready { exe: "/bin/x".into(), dev_build }
}

// ── versions ────────────────────────────────────────────────────────────

#[test]
fn parses_release_tags_and_plain_versions() {
    assert_eq!(parse_version("v1.0.12"), Some((1, 0, 12)));
    assert_eq!(parse_version("1.0.12"), Some((1, 0, 12)));
    assert_eq!(parse_version(" V0.2.0 "), Some((0, 2, 0)));
    assert_eq!(parse_version("1.2.3-beta+build5"), Some((1, 2, 3)));
}

#[test]
fn rejects_malformed_versions() {
    for bad in ["", "v", "1.0", "1.0.0.0", "a.b.c", "1..2", "latest"] {
        assert_eq!(parse_version(bad), None, "{bad:?}");
    }
}

#[test]
fn versions_compare_numerically_not_lexically() {
    assert!(parse_version("v1.0.10") > parse_version("v1.0.9"));
    assert!(parse_version("v1.1.0") > parse_version("v1.0.99"));
    assert!(parse_version("v2.0.0") > parse_version("v1.99.99"));
}

#[test]
fn crate_version_is_parseable() {
    assert!(parse_version(CURRENT_VERSION).is_some(), "{CURRENT_VERSION}");
}

#[test]
fn a_formatted_version_parses_back() {
    assert_eq!(format_version((1, 0, 42)), "1.0.42");
    assert_eq!(parse_version(&format_version((12, 3, 0))), Some((12, 3, 0)));
    assert_eq!(current_version(), (0, 1, 0));
}

#[test]
fn only_newer_releases_are_offered() {
    let r = release();
    assert!(is_newer(&r, (1, 0, 41)));
    assert!(!is_newer(&r, (1, 0, 42)));
    assert!(!is_newer(&r, (2, 0, 0)));
    assert_eq!(offer_release(r.clone(), (0, 9, 9)), Some(r.clone()));
    assert_eq!(offer_release(r, (1, 0, 42)), None);
}

#[test]
fn each_platform_has_its_binary() {
    assert_eq!(platform_asset_name("linux"), Some("ConnectSync-Linux"));
    assert_eq!(platform_asset_name("windows"), Some("ConnectSync-Windows-Portable.exe"));
    assert_eq!(platform_asset_name("macos"), None);
}

// ── GitHub answer ───────────────────────────────────────────────────────

#[test]
fn picks_the_asset_and_checksum_for_this_platform() {
    let r = release_from_json(RELEASE_JSON, "ConnectSync-Linux").unwrap();
    assert_eq!(r.version, (1, 0, 42));
    assert_eq!(r.tag, "v1.0.42");
    assert_eq!(r.asset_url, "https://x/ConnectSync-Linux");
    assert_eq!(r.sha256_url.as_deref(), Some("https://x/ConnectSync-Linux.sha256"));
    assert_eq!(r.size, 1234);
}

#[test]
fn checksum_is_optional_in_the_json_but_flagged_missing() {
    let r = release_from_json(RELEASE_JSON, "ConnectSync-Windows-Portable.exe").unwrap();
    assert_eq!(r.sha256_url, None);
    assert_eq!(checksum_url(&r), Err(UpdateError::NoChecksum("ConnectSync-Windows-Portable.exe".into())));
}

#[test]
fn missing_asset_and_bad_json_are_errors() {
    assert_eq!(
        release_from_json(RELEASE_JSON, "ConnectSync-MacOS").unwrap_err(),
        UpdateError::NoAsset("ConnectSync-MacOS".into())
    );
    assert!(matches!(release_from_json("{", "x"), Err(UpdateError::Release(_))));
    assert!(matches!(
        release_from_json(r#"{"tag_name": "nightly", "assets": []}"#, "x"),
        Err(UpdateError::Release(_))
    ));
}

#[test]
fn an_unreadable_tag_is_named_in_the_error() {
    let gh = GhRelease { tag_name: "nightly".into(), assets: Vec::new() };
    assert_eq!(release_from_gh(&gh, "x"), Err(UpdateError::Release("anlaşılmayan sürüm etiketi: nightly".into())));
}

// ── checksum ────────────────────────────────────────────────────────────

#[test]
fn parses_sha256sum_output() {
    let h = "a".repeat(64);
    assert_eq!(parse_sha256(&format!("{h}  ConnectSync-Linux\n")), Some(h.clone()));
    assert_eq!(parse_sha256(&format!("{}  x", h.to_uppercase())), Some(h.clone()));
    assert_eq!(parse_sha256(&format!("{h} *ConnectSync-Linux")), Some(h.clone()));
    assert_eq!(parse_sha256(&h), Some(h));
}

#[test]
fn rejects_malformed_sha256() {
    assert_eq!(parse_sha256(""), None);
    assert_eq!(parse_sha256("deadbeef  x"), None);
    assert_eq!(parse_sha256(&format!("{}  x", "g".repeat(64))), None);
}

#[test]
fn an_unreadable_checksum_file_counts_as_missing() {
    let r = release();
    assert_eq!(
        expected_checksum(&r, "not a hash"),
        Err(UpdateError::NoChecksum("ConnectSync-Linux (biçim geçersiz)".into()))
    );
    let h = "b".repeat(64);
    assert_eq!(expected_checksum(&r, &format!("{h}  x")), Ok(h));
}

#[test]
fn a_download_is_accepted_only_with_the_expected_digest() {
    let digest = [0xabu8; 32];
    assert_eq!(check_digest(&digest, &"ab".repeat(32)), Ok(()));
    assert_eq!(check_digest(&digest, &"ac".repeat(32)), Err(UpdateError::Checksum));
}

// ── paths ───────────────────────────────────────────────────────────────

#[test]
fn strips_the_deleted_suffix_linux_adds_after_replacement() {
    assert_eq!(clean_exe_path("/home/u/.local/bin/connectsync (deleted)"), "/home/u/.local/bin/connectsync");
    assert_eq!(clean_exe_path("/a/b"), "/a/b");
}

#[test]
fn detects_cargo_build_directories_only() {
    assert!(is_cargo_target_dir("/home/u/ConnectSync/target/debug/connect_sync", false));
    assert!(is_cargo_target_dir("/home/u/ConnectSync/target/release/connect_sync", false));
    assert!(is_cargo_target_dir("/w/target/x86_64-unknown-linux-gnu/release/app", false));
    assert!(!is_cargo_target_dir("/home/u/.local/bin/connectsync", false));
    assert!(!is_cargo_target_dir("/home/u/target/notes/app", false));
    assert!(!is_cargo_target_dir("/opt/release/connectsync", false));
    assert!(is_cargo_target_dir("C:\\dev\\app\\target\\debug\\app.exe", true));
    assert!(is_cargo_target_dir("C:\\dev/target\\x86_64-pc-windows-msvc\\release\\app.exe", true));
    assert!(!is_cargo_target_dir("C:\\Program Files\\ConnectSync\\app.exe", true));
    assert!(!is_cargo_target_dir("/w/target\\debug/app", false));
}

#[test]
fn staging_file_sits_next_to_the_exe() {
    assert_eq!(staging_path("/home/u/.local/bin/connectsync"), "/home/u/.local/bin/.connectsync.update");
}

// ── update flow ─────────────────────────────────────────────────────────

#[test]
fn a_new_check_is_blocked_while_busy_but_allowed_after_results() {
    assert!(can_start_check(&UpdatePhase::Idle));
    assert!(can_start_check(&UpdatePhase::Available(release())));
    assert!(can_start_check(&UpdatePhase::Failed("x".into())));
    assert!(can_start_check(&UpdatePhase::Latest));
    assert!(!can_start_check(&UpdatePhase::Checking));
    assert!(!can_start_check(&UpdatePhase::Downloading(release())));
    assert!(!can_start_check(&ready(false)));
}

#[test]
fn only_an_available_update_can_be_downloaded() {
    assert_eq!(download_target(&UpdatePhase::Available(release())), Some(release()));
    for p in [UpdatePhase::Idle, UpdatePhase::Checking, UpdatePhase::Downloading(release()), ready(false), UpdatePhase::Latest] {
        assert_eq!(download_target(&p), None, "{p:?}");
    }
}

#[test]
fn a_late_check_result_does_not_overwrite_a_download() {
    let mut s = UpdateStore::default();
    assert!(s.begin_check());
    assert!(!s.begin_check());
    s.finish_check(UpdatePhase::Available(release()));
    assert!(matches!(s.phase, UpdatePhase::Available(_)));
    assert_eq!(s.begin_download(), Some(release()));
    s.finish_check(UpdatePhase::Latest);
    assert!(matches!(s.phase, UpdatePhase::Downloading(_)));
    assert!(s.take_refresh());
    assert!(s.take_refresh(), "a running download keeps refreshing the bar");
}

#[test]
fn download_counters_start_over_and_count_up() {
    let mut p = DownloadProgress::default();
    p.start(1000);
    p.add(250);
    p.add(250);
    assert_eq!(p.snapshot(), (500, 1000));
}

#[test]
fn update_errors_read_as_sentences() {
    assert_eq!(
        UpdateError::NoAsset("ConnectSync-MacOS".into()).message(),
        "Bu sürümde bu sistem için dosya yok (ConnectSync-MacOS)"
    );
    assert_eq!(
        UpdateError::NoChecksum("x".into()).message(),
        "x için .sha256 dosyası yok; doğrulanamadığından indirme reddedildi"
    );
    assert_eq!(UpdateError::Checksum.message(), "İndirilen dosya bozuk (SHA-256 uyuşmuyor)");
    assert_eq!(UpdateError::Network("kapalı".into()).message(), "GitHub'a ulaşılamadı: kapalı");
    assert_eq!(UpdateError::Unsupported.message(), "Bu sistemde uygulama içi güncelleme desteklenmiyor");
}

/// The update dialog's texts as the Turkish table words them.
fn texts() -> Translations {
    let mut table = StrMap::new();
    for (k, v) in [
        ("update_checking", "Güncellemeler denetleniyor…"),
        ("update_available_title", "Yeni sürüm var"),
        ("update_available_body", "ConnectSync {v} yayında (şu anki sürüm: {cur})."),
        ("update_downloading_title", "Güncelleme indiriliyor"),
        ("update_ready_title", "Güncelleme hazır"),
        ("update_ready_body", "Yeni sürüm kuruldu. Yeniden başlatın."),
        ("update_dev_note", "Bu bir geliştirme derlemesi; dosya değiştirilmedi."),
        ("update_failed_title", "Güncelleme başarısız"),
        ("update_latest_title", "En güncel sürüm"),
        ("update_latest_body", "ConnectSync {cur} en güncel sürüm."),
    ] {
        table.insert(k.to_string(), v.to_string());
    }
    let mut tr = Translations::new();
    tr.add_table("tr".to_string(), table);
    tr.set_language("tr");
    tr
}

#[test]
fn only_downloading_and_ready_force_the_dialog_open() {
    let tr = texts();
    let cases = [
        (UpdatePhase::Idle, false),
        (UpdatePhase::Checking, false),
        (UpdatePhase::Available(release()), false),
        (UpdatePhase::Downloading(release()), true),
        (ready(false), true),
        (UpdatePhase::Failed("x".into()), false),
        (UpdatePhase::Latest, false),
    ];
    for (phase, forced) in cases {
        assert_eq!(update_view(&tr, &phase, 0, 0).force_open, forced, "{phase:?}");
    }
}

#[test]
fn available_view_names_the_new_and_current_versions() {
    let v = update_view(&texts(), &UpdatePhase::Available(release()), 0, 0);
    assert_eq!(v.state, UpdateState::Available);
    assert!(v.body.contains("1.0.42"), "{}", v.body);
    assert!(v.body.contains(CURRENT_VERSION), "{}", v.body);
    assert!(!v.body.contains('{'), "doldurulmamış yer tutucu: {}", v.body);
}

#[test]
fn downloading_view_reports_fraction_and_percent() {
    let v = update_view(&texts(), &UpdatePhase::Downloading(release()), 50, 200);
    assert_eq!(v.state, UpdateState::Downloading);
    assert_eq!(v.percent, 25);
}

#[test]
fn downloading_view_survives_unknown_or_overshooting_totals() {
    let unknown = update_view(&texts(), &UpdatePhase::Downloading(release()), 10, 0);
    assert_eq!(unknown.percent, 0);
    let over = update_view(&texts(), &UpdatePhase::Downloading(release()), 300, 100);
    assert_eq!(over.percent, 100);
}

#[test]
fn ready_view_warns_only_for_development_builds() {
    let tr = texts();
    let release_build = update_view(&tr, &ready(false), 0, 0);
    let dev_build = update_view(&tr, &ready(true), 0, 0);
    assert_eq!(release_build.state, UpdateState::Ready);
    assert!(dev_build.body.len() > release_build.body.len());
    assert!(dev_build.body.starts_with(&release_build.body));
}

#[test]
fn failed_view_shows_the_error_verbatim() {
    let v = update_view(&texts(), &UpdatePhase::Failed("GitHub'a ulaşılamadı: x".into()), 0, 0);
    assert_eq!(v.state, UpdateState::Failed);
    assert_eq!(v.body, "GitHub'a ulaşılamadı: x");
}

#[test]
fn latest_view_names_the_current_version() {
    let v = update_view(&texts(), &UpdatePhase::Latest, 0, 0);
    assert_eq!(v.state, UpdateState::Latest);
    assert!(v.body.contains(CURRENT_VERSION), "{}", v.body);
}

#[test]
fn the_download_percent_rounds_to_the_nearest_whole() {
    let tr = texts();
    assert_eq!(update_view(&tr, &UpdatePhase::Downloading(release()), 1, 8).percent, 13);
    assert_eq!(update_view(&tr, &UpdatePhase::Downloading(release()), 1, 3).percent, 33);
    assert_eq!(update_view(&tr, &UpdatePhase::Downloading(release()), 2, 3).percent, 67);
}

#[test]
fn a_download_is_accepted_only_with_its_own_checksum() {
    let good = "ba7816bf8f01cfea414140de5dae2223b00361a396177a9cb410ff61f20015ad";
    assert_eq!(check_download(b"abc", good), Ok(()));
    assert_eq!(check_download(b"abd", good), Err(UpdateError::Checksum));
    assert_eq!(check_download(b"abc", &good.to_uppercase()), Err(UpdateError::Checksum));
}
