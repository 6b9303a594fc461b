use edman::acceptor::{AcceptStep, AcceptorPhase, CreateOutcome, PipeAcceptor};
use edman::backend::{
    config_from_record, config_to_record, default_config, ensure_db, error_prisma_to_tonic,
    join_lines, split_lines, DbErrorKind, StatusKind,
};
use edman::dispatch::Config;
use edman::manifest::{AppManifest, BrowserKind, BrowserStrain};
use edman::paths::{
    edman_unique_name, get_link_path, manifest_path_chromium_in, manifest_path_firefox_in,
    sock_path_in,
};

fn test_config() -> Config {
    Config {
        download_directory: b"/home/u/Downloads".to_vec(),
        download_subdirectory: b"edman".to_vec(),
        save_file_directory: b"/home/u/files".to_vec(),
        allowed_origins: vec![b"chrome-extension://abc/".to_vec()],
        allowed_extensions: vec![b"edman@example.org".to_vec()],
    }
}

// --- acceptor and backoff ---

#[test]
fn acceptor_retries_busy_with_monotone_capped_backoff() {
    let mut acc = PipeAcceptor::new();
    assert!(matches!(acc.step(), AcceptStep::Create { first: true }));

    let n = 5;
    let mut waits: Vec<u64> = Vec::new();
    for _ in 0..n {
        match acc.on_create(CreateOutcome::Busy) {
            AcceptStep::Wait { millis } => waits.push(millis),
            _ => panic!("busy must be retried"),
        }
    }
    assert_eq!(waits.len(), n);
    for w in waits.windows(2) {
        assert!(w[0] <= w[1], "backoff must not shrink");
    }
    for w in &waits {
        assert!(*w <= 10000, "backoff must stay capped");
    }
    assert_eq!(waits, vec![50, 2500, 10000, 10000, 10000]);

    // The next accept still succeeds, with no error surfaced.
    assert!(matches!(acc.on_create(CreateOutcome::Created), AcceptStep::WaitClient));
    assert!(matches!(acc.on_client_connected(), AcceptStep::HandOff));
    // The recycled instance is no longer the address's first.
    assert!(matches!(acc.step(), AcceptStep::Create { first: false }));
}

#[test]
fn acceptor_fatal_error_is_terminal() {
    let mut acc = PipeAcceptor::new();
    assert!(matches!(acc.on_create(CreateOutcome::Fatal), AcceptStep::Stop));
    assert_eq!(acc.phase, AcceptorPhase::Failed);
    assert!(matches!(acc.step(), AcceptStep::Stop));
}

// --- configuration storage ---

#[test]
fn split_lines_drops_empty_entries() {
    let col = b"a\n\nb\n".to_vec();
    assert_eq!(split_lines(&col), vec![b"a".to_vec(), b"b".to_vec()]);
    assert_eq!(split_lines(&b"".to_vec()), Vec::<Vec<u8>>::new());
    assert_eq!(split_lines(&b"\n\n".to_vec()), Vec::<Vec<u8>>::new());
    assert_eq!(split_lines(&b"solo".to_vec()), vec![b"solo".to_vec()]);
}

#[test]
fn config_record_round_trip() {
    let cfg = test_config();
    let (ext_col, orig_col) = config_to_record(&cfg);
    assert_eq!(ext_col, b"edman@example.org".to_vec());
    assert_eq!(orig_col, b"chrome-extension://abc/".to_vec());
    let back = config_from_record(
        cfg.download_directory.clone(),
        cfg.download_subdirectory.clone(),
        cfg.save_file_directory.clone(),
        &ext_col,
        &orig_col,
    );
    assert_eq!(back.allowed_origins, cfg.allowed_origins);
    assert_eq!(back.allowed_extensions, cfg.allowed_extensions);

    let joined = join_lines(&vec![b"a".to_vec(), b"b".to_vec()]);
    assert_eq!(joined, b"a\nb".to_vec());
    assert_eq!(split_lines(&joined), vec![b"a".to_vec(), b"b".to_vec()]);
}

#[test]
fn default_config_fields() {
    let c = default_config(Some(b"/home/u/Downloads".to_vec()), Some(b"/srv".to_vec()));
    assert_eq!(c.download_directory, b"/home/u/Downloads".to_vec());
    assert_eq!(c.download_subdirectory, b"edman".to_vec());
    assert_eq!(c.save_file_directory, b"/srv".to_vec());
    assert!(c.allowed_origins.is_empty());
    assert!(c.allowed_extensions.is_empty());

    let c = default_config(None, None);
    assert_eq!(c.download_directory, b"".to_vec());
    assert_eq!(c.save_file_directory, b"".to_vec());
}

#[test]
fn ensure_db_uses_stored_or_writes_fallback() {
    let stored = test_config();
    let fallback = default_config(None, None);
    let (used, must_write) = ensure_db(Some(stored), fallback);
    assert!(!must_write);
    assert_eq!(used.download_directory, b"/home/u/Downloads".to_vec());

    let fallback = default_config(None, None);
    let (used, must_write) = ensure_db(None, fallback);
    assert!(must_write);
    assert_eq!(used.download_subdirectory, b"edman".to_vec());
}

#[test]
fn db_errors_map_to_statuses() {
    let cases = [
        (DbErrorKind::PoolTimeout, StatusKind::Unavailable, &b"Database timeout"[..]),
        (DbErrorKind::UniqueKeyViolation, StatusKind::AlreadyExists, b"Unique key violation"),
        (DbErrorKind::RecordNotFound, StatusKind::NotFound, b"Record not found"),
        (
            DbErrorKind::ForeignKeyViolation,
            StatusKind::FailedPrecondition,
            b"Foreign key violation",
        ),
    ];
    for (kind, status, msg) in cases {
        let (s, m) = error_prisma_to_tonic(kind, &Vec::new());
        assert_eq!(s, status);
        assert_eq!(m, msg.to_vec());
    }
    let (s, m) = error_prisma_to_tonic(DbErrorKind::Other, &b"oops".to_vec());
    assert_eq!(s, StatusKind::Internal);
    assert_eq!(m, b"Database error: oops".to_vec());
}

// --- paths ---

#[test]
fn fixed_paths_join_correctly() {
    assert_eq!(
        sock_path_in(&b"/run/user/1000/edman".to_vec()),
        b"/run/user/1000/edman/edman.sock".to_vec()
    );
    assert_eq!(
        sock_path_in(&b"/run/user/1000/edman/".to_vec()),
        b"/run/user/1000/edman/edman.sock".to_vec()
    );
    assert_eq!(
        manifest_path_firefox_in(&b"/home/u/.config/edman".to_vec()),
        b"/home/u/.config/edman/manifest_firefox.json".to_vec()
    );
    assert_eq!(
        manifest_path_chromium_in(&b"/home/u/.config/edman".to_vec()),
        b"/home/u/.config/edman/manifest_chromium.json".to_vec()
    );
    assert_eq!(edman_unique_name(), b"io.github.femshima.edman".to_vec());
}

#[test]
fn link_paths_per_browser() {
    let home = b"/home/u".to_vec();
    assert_eq!(
        get_link_path(&BrowserKind::Chrome, &home),
        b"/home/u/.config/chrome/NativeMessagingHosts/io.github.femshima.edman.json".to_vec()
    );
    assert_eq!(
        get_link_path(&BrowserKind::Chromium, &home),
        b"/home/u/.config/chromium/NativeMessagingHosts/io.github.femshima.edman.json".to_vec()
    );
    assert_eq!(
        get_link_path(&BrowserKind::Vivaldi, &home),
        b"/home/u/.config/vivaldi/NativeMessagingHosts/io.github.femshima.edman.json".to_vec()
    );
    assert_eq!(
        get_link_path(&BrowserKind::Firefox, &home),
        b"/home/u/.mozilla/native-messaging-hosts/io.github.femshima.edman.json".to_vec()
    );
}

// --- manifest ---

#[test]
fn manifest_per_strain() {
    let cfg = test_config();
    let m = AppManifest::new(&BrowserKind::Chrome, &cfg, b"/usr/bin/edman-ce".to_vec());
    assert_eq!(m.name, b"io.github.femshima.edman".to_vec());
    assert_eq!(m.description, b"Manages files".to_vec());
    assert_eq!(m.messaging_type, b"stdio".to_vec());
    assert_eq!(m.path, b"/usr/bin/edman-ce".to_vec());
    assert_eq!(m.allowed_origins, Some(vec![b"chrome-extension://abc/".to_vec()]));
    assert!(m.allowed_extensions.is_none());

    let m = AppManifest::new(&BrowserKind::Firefox, &cfg, b"/usr/bin/edman-ce".to_vec());
    assert!(m.allowed_origins.is_none());
    assert_eq!(m.allowed_extensions, Some(vec![b"edman@example.org".to_vec()]));

    assert!(matches!(BrowserStrain::of(&BrowserKind::Vivaldi), BrowserStrain::Chromium));
    assert!(matches!(BrowserStrain::of(&BrowserKind::Firefox), BrowserStrain::Firefox));
}
