use std::cell::RefCell;
use std::collections::HashMap;

use wallpaper_manager::{
    BatchSetReport, DisplayFingerprint, FileKind, FsErrorKind, ImageFileSystem, ScreenDescriptor,
    ScreenFrame, ScreenId, ScreenMatchQuality, ScreenSize, WallpaperAssignment, WallpaperBackend,
    WallpaperError, WallpaperManager, WallpaperOptions, WallpaperScaling, WallpaperSetRequest,
    WallpaperState,
};

struct MockWallpaperBackend {
    screens: Vec<ScreenDescriptor>,
    states: RefCell<HashMap<ScreenId, WallpaperState>>,
    fail_on_set: RefCell<Vec<ScreenId>>,
    mismatch_on_read_after_write: RefCell<Vec<ScreenId>>,
}

impl MockWallpaperBackend {
    fn new(screens: Vec<ScreenDescriptor>, states: Vec<WallpaperState>) -> Self {
        Self {
            screens,
            states: RefCell::new(
                states
                    .into_iter()
                    .map(|state| (state.screen_id.clone(), state))
                    .collect(),
            ),
            fail_on_set: RefCell::new(Vec::new()),
            mismatch_on_read_after_write: RefCell::new(Vec::new()),
        }
    }

    fn fail_for(&self, screen_id: ScreenId) {
        self.fail_on_set.borrow_mut().push(screen_id);
    }

    fn mismatch_after_set_for(&self, screen_id: ScreenId) {
        self.mismatch_on_read_after_write.borrow_mut().push(screen_id);
    }
}

impl WallpaperBackend for MockWallpaperBackend {
    fn list_screens(&self) -> Result<Vec<ScreenDescriptor>, WallpaperError> {
        Ok(self.screens.clone())
    }

    fn get_wallpaper(&self, screen_id: &ScreenId) -> Result<WallpaperState, WallpaperError> {
        self.states
            .borrow()
            .get(screen_id)
            .cloned()
            .ok_or_else(|| WallpaperError::ScreenNotFound(screen_id.clone()))
    }

    fn set_wallpaper(&self, assignment: &WallpaperAssignment) -> Result<(), WallpaperError> {
        if self.fail_on_set.borrow().contains(&assignment.screen_id) {
            return Err(WallpaperError::PlatformApiError(
                "simulated set failure".to_string(),
            ));
        }

        let target_path = if self
            .mismatch_on_read_after_write
            .borrow()
            .contains(&assignment.screen_id)
        {
            "different.png".to_string()
        } else {
            assignment.image_path.clone()
        };

        self.states.borrow_mut().insert(
            assignment.screen_id.clone(),
            WallpaperState {
                screen_id: assignment.screen_id.clone(),
                image_path: Some(target_path),
                options: assignment.options,
            },
        );

        Ok(())
    }
}

/// A file system holding regular, readable files at the registered paths.
#[derive(Default)]
struct MockFiles {
    files: RefCell<Vec<String>>,
}

impl MockFiles {
    fn add(&self, path: &str) {
        self.files.borrow_mut().push(path.to_string());
    }

    fn has(&self, path: &str) -> bool {
        self.files.borrow().iter().any(|file| file == path)
    }
}

impl ImageFileSystem for MockFiles {
    fn symlink_metadata(&self, path: &str) -> Result<FileKind, FsErrorKind> {
        if self.has(path) {
            Ok(FileKind { is_symlink: false, is_file: true })
        } else {
            Err(FsErrorKind::Other)
        }
    }

    fn metadata(&self, path: &str) -> Result<FileKind, FsErrorKind> {
        self.symlink_metadata(path)
    }

    fn open_for_reading(&self, path: &str) -> Result<(), FsErrorKind> {
        if self.has(path) {
            Ok(())
        } else {
            Err(FsErrorKind::Other)
        }
    }
}

fn screen(id: &str) -> ScreenDescriptor {
    ScreenDescriptor {
        screen_id: ScreenId::new(id),
        localized_name: id.to_string(),
        is_builtin: id == "main",
        is_primary: id == "main",
        frame: ScreenFrame { x: 0, y: 0, width: 1920, height: 1080 },
        native_size: ScreenSize { width: 1920, height: 1080 },
        vendor_id: Some(1),
        model_id: Some(2),
        serial_number: Some(3),
        fingerprint: DisplayFingerprint {
            vendor_id: Some(1),
            model_id: Some(2),
            serial_number: Some(3),
            is_builtin: id == "main",
        },
        match_quality: ScreenMatchQuality::Exact,
    }
}

fn state(id: &str, image_path: Option<&str>) -> WallpaperState {
    WallpaperState {
        screen_id: ScreenId::new(id),
        image_path: image_path.map(|p| p.to_string()),
        options: WallpaperOptions { scaling: WallpaperScaling::Fill, allow_clipping: true },
    }
}

fn temp_image(files: &MockFiles, name: &str) -> String {
    let path = format!("/tmp/{name}");
    files.add(&path);
    path
}

fn temp_file(files: &MockFiles, name: &str) -> String {
    let path = format!("/tmp/{name}");
    files.add(&path);
    path
}

fn cached_path(
    manager: &WallpaperManager<MockWallpaperBackend, MockFiles>,
    id: &str,
) -> Option<String> {
    manager
        .store()
        .get_state(&ScreenId::new(id))
        .and_then(|state| state.image_path.clone())
}

#[test]
fn refresh_updates_snapshot() {
    let screens = vec![screen("main"), screen("external")];
    let states = vec![state("main", Some("main.jpg")), state("external", None)];
    let backend = MockWallpaperBackend::new(screens, states);
    let mut manager = WallpaperManager::new(backend, MockFiles::default());

    let refreshed = manager.refresh().expect("refresh should succeed");

    assert_eq!(refreshed.len(), 2);
    assert_eq!(manager.store().snapshot().screens.len(), 2);
    assert_eq!(cached_path(&manager, "main"), Some("main.jpg".to_string()));
}

#[test]
fn set_for_screen_updates_cached_state() {
    let backend = MockWallpaperBackend::new(vec![screen("main")], vec![state("main", None)]);
    let files = MockFiles::default();
    let image_path = temp_image(&files, "single-screen.jpg");
    let mut manager = WallpaperManager::new(backend, files);

    manager
        .set_for_screen(WallpaperAssignment {
            screen_id: ScreenId::new("main"),
            image_path: image_path.clone(),
            options: WallpaperOptions::default(),
        })
        .expect("set should succeed");

    assert_eq!(cached_path(&manager, "main"), Some(image_path));
}

#[test]
fn set_for_screen_rejects_unknown_screen() {
    let backend = MockWallpaperBackend::new(vec![screen("main")], vec![state("main", None)]);
    let files = MockFiles::default();
    let image_path = temp_image(&files, "missing-screen.png");
    let mut manager = WallpaperManager::new(backend, files);

    let error = manager
        .set_for_screen(WallpaperAssignment {
            screen_id: ScreenId::new("external"),
            image_path,
            options: WallpaperOptions::default(),
        })
        .expect_err("unknown screen should fail");

    assert!(matches!(error, WallpaperError::ScreenNotFound(_)));
}

#[test]
fn set_batch_collects_partial_failures() {
    let backend = MockWallpaperBackend::new(
        vec![screen("main"), screen("external")],
        vec![state("main", None), state("external", None)],
    );
    backend.fail_for(ScreenId::new("external"));
    let files = MockFiles::default();
    let first = temp_image(&files, "batch-main.png");
    let second = temp_image(&files, "batch-external.png");
    let mut manager = WallpaperManager::new(backend, files);

    let error = manager
        .set_batch(vec![
            WallpaperAssignment {
                screen_id: ScreenId::new("main"),
                image_path: first.clone(),
                options: WallpaperOptions::default(),
            },
            WallpaperAssignment {
                screen_id: ScreenId::new("external"),
                image_path: second,
                options: WallpaperOptions::default(),
            },
        ])
        .expect_err("one failing screen should return partial failure");

    match error {
        WallpaperError::PartialFailure(report) => {
            assert_eq!(report.succeeded, vec![ScreenId::new("main")]);
            assert_eq!(report.failed.len(), 1);
            assert_eq!(report.failed[0].screen_id, ScreenId::new("external"));
        }
        other => panic!("unexpected error: {}", other.message()),
    }

    assert_eq!(cached_path(&manager, "main"), Some(first));
}

#[test]
fn set_batch_rejects_empty_requests() {
    let backend = MockWallpaperBackend::new(vec![screen("main")], vec![state("main", None)]);
    let mut manager = WallpaperManager::new(backend, MockFiles::default());

    let error = manager
        .set_batch(Vec::new())
        .expect_err("empty batch should be rejected");

    assert!(matches!(error, WallpaperError::EmptyBatchRequest));
}

#[test]
fn set_batch_rejects_duplicate_screen_assignments() {
    let backend = MockWallpaperBackend::new(vec![screen("main")], vec![state("main", None)]);
    let files = MockFiles::default();
    let first = temp_image(&files, "duplicate-1.png");
    let second = temp_image(&files, "duplicate-2.png");
    let mut manager = WallpaperManager::new(backend, files);

    let error = manager
        .set_batch(vec![
            WallpaperAssignment {
                screen_id: ScreenId::new("main"),
                image_path: first,
                options: WallpaperOptions::default(),
            },
            WallpaperAssignment {
                screen_id: ScreenId::new("main"),
                image_path: second,
                options: WallpaperOptions::default(),
            },
        ])
        .expect_err("duplicate screen ids should fail");

    assert!(matches!(
        error,
        WallpaperError::DuplicateScreenAssignment(screen_id) if screen_id == ScreenId::new("main")
    ));
}

#[test]
fn set_for_screen_rejects_read_after_write_mismatch() {
    let backend = MockWallpaperBackend::new(vec![screen("main")], vec![state("main", None)]);
    backend.mismatch_after_set_for(ScreenId::new("main"));
    let files = MockFiles::default();
    let image_path = temp_image(&files, "mismatch.png");
    let mut manager = WallpaperManager::new(backend, files);

    let error = manager
        .set_for_screen(WallpaperAssignment {
            screen_id: ScreenId::new("main"),
            image_path: image_path.clone(),
            options: WallpaperOptions::default(),
        })
        .expect_err("mismatch should fail");

    assert!(matches!(
        error,
        WallpaperError::ReadAfterWriteMismatch { screen_id, expected, actual }
            if screen_id == ScreenId::new("main")
                && expected == image_path
                && actual == Some("different.png".to_string())
    ));
    assert_eq!(cached_path(&manager, "main"), Some("different.png".to_string()));
}

#[test]
fn set_for_screen_rejects_unsupported_extensions() {
    let backend = MockWallpaperBackend::new(vec![screen("main")], vec![state("main", None)]);
    let files = MockFiles::default();
    let invalid_path = temp_file(&files, "not-image.txt");
    let mut manager = WallpaperManager::new(backend, files);

    let error = manager
        .set_for_screen(WallpaperAssignment {
            screen_id: ScreenId::new("main"),
            image_path: invalid_path,
            options: WallpaperOptions::default(),
        })
        .expect_err("unsupported image extension should fail");

    assert!(matches!(error, WallpaperError::UnsupportedImageFormat(_)));
}

#[test]
fn set_for_screen_rejects_missing_file() {
    let backend = MockWallpaperBackend::new(vec![screen("main")], vec![state("main", None)]);
    let mut manager = WallpaperManager::new(backend, MockFiles::default());

    let error = manager
        .set_for_screen(WallpaperAssignment {
            screen_id: ScreenId::new("main"),
            image_path: "/tmp/absent.png".to_string(),
            options: WallpaperOptions::default(),
        })
        .expect_err("a missing file should fail");

    assert!(matches!(error, WallpaperError::InvalidImagePath(p) if p == "/tmp/absent.png"));
    assert_eq!(manager.store().snapshot().wallpapers.len(), 0);
}

#[test]
fn failed_set_reads_the_screen_again() {
    let backend = MockWallpaperBackend::new(vec![screen("main")], vec![state("main", Some("old.png"))]);
    backend.fail_for(ScreenId::new("main"));
    let files = MockFiles::default();
    let image_path = temp_image(&files, "never-shown.png");
    let mut manager = WallpaperManager::new(backend, files);

    let error = manager
        .set_for_screen(WallpaperAssignment {
            screen_id: ScreenId::new("main"),
            image_path,
            options: WallpaperOptions::default(),
        })
        .expect_err("the backend refuses");

    assert_eq!(error.code(), "platform_api_error");
    assert_eq!(cached_path(&manager, "main"), Some("old.png".to_string()));
}

#[test]
fn apply_to_screen_reports_the_screen() {
    let backend = MockWallpaperBackend::new(vec![screen("main")], vec![state("main", None)]);
    let files = MockFiles::default();
    let image_path = temp_image(&files, "apply-one.heic");
    let mut manager = WallpaperManager::new(backend, files);

    let report = manager
        .apply(WallpaperSetRequest::ApplyToScreen(WallpaperAssignment {
            screen_id: ScreenId::new("main"),
            image_path: image_path.clone(),
            options: WallpaperOptions::default(),
        }))
        .expect("apply should succeed");

    assert_eq!(
        report,
        BatchSetReport { succeeded: vec![ScreenId::new("main")], failed: Vec::new() }
    );
    assert!(report.is_success());
    assert_eq!(cached_path(&manager, "main"), Some(image_path));
}

#[test]
fn apply_to_all_screens_sets_every_screen() {
    let backend = MockWallpaperBackend::new(
        vec![screen("main"), screen("external")],
        vec![state("main", None), state("external", None)],
    );
    let files = MockFiles::default();
    let image_path = temp_image(&files, "everywhere.PNG");
    let mut manager = WallpaperManager::new(backend, files);

    let report = manager
        .apply(WallpaperSetRequest::ApplyToAllScreens {
            image_path: image_path.clone(),
            options: WallpaperOptions::default(),
        })
        .expect("apply should succeed");

    assert_eq!(report.succeeded, vec![ScreenId::new("main"), ScreenId::new("external")]);
    assert!(report.failed.is_empty());
    assert_eq!(cached_path(&manager, "external"), Some(image_path));
}

#[test]
fn apply_per_screen_reports_failure_codes_and_messages() {
    let backend = MockWallpaperBackend::new(
        vec![screen("main"), screen("external")],
        vec![state("main", None), state("external", None)],
    );
    let files = MockFiles::default();
    let good = temp_image(&files, "per-screen.jpeg");
    let mut manager = WallpaperManager::new(backend, files);

    let error = manager
        .apply(WallpaperSetRequest::ApplyPerScreen(vec![
            WallpaperAssignment {
                screen_id: ScreenId::new("main"),
                image_path: good,
                options: WallpaperOptions::default(),
            },
            WallpaperAssignment {
                screen_id: ScreenId::new("ghost"),
                image_path: "/tmp/ghost.png".to_string(),
                options: WallpaperOptions::default(),
            },
        ]))
        .expect_err("the unknown screen fails");

    match error {
        WallpaperError::PartialFailure(report) => {
            assert_eq!(report.succeeded, vec![ScreenId::new("main")]);
            assert_eq!(report.failed.len(), 1);
            assert_eq!(report.failed[0].image_path, "/tmp/ghost.png");
            assert_eq!(report.failed[0].error_code, "screen_not_found");
            assert_eq!(report.failed[0].message, "screen not found: ghost");
        }
        other => panic!("unexpected error: {}", other.message()),
    }
}

#[test]
fn apply_to_all_screens_with_no_screens_is_an_empty_batch() {
    let backend = MockWallpaperBackend::new(Vec::new(), Vec::new());
    let mut manager = WallpaperManager::new(backend, MockFiles::default());

    let error = manager
        .set_for_all("/tmp/any.png".to_string(), WallpaperOptions::default())
        .expect_err("no screen to set");

    assert!(matches!(error, WallpaperError::EmptyBatchRequest));
}

#[test]
fn refresh_with_no_screens_succeeds() {
    let backend = MockWallpaperBackend::new(Vec::new(), Vec::new());
    let mut manager = WallpaperManager::new(backend, MockFiles::default());

    let refreshed = manager.refresh().expect("nothing to read");

    assert!(refreshed.is_empty());
    assert!(manager.store().snapshot().screens.is_empty());
}

#[test]
fn refresh_reports_the_first_failed_read_and_keeps_the_store() {
    let backend = MockWallpaperBackend::new(
        vec![screen("main"), screen("left"), screen("right")],
        vec![state("main", Some("main.jpg"))],
    );
    let mut manager = WallpaperManager::new(backend, MockFiles::default());

    let error = manager.refresh().expect_err("two reads fail");

    assert!(matches!(error, WallpaperError::ScreenNotFound(ref id) if *id == ScreenId::new("left")));
    assert!(manager.store().snapshot().screens.is_empty());
    assert!(manager.store().get_state(&ScreenId::new("main")).is_none());
}

#[test]
fn refresh_twice_gives_the_same_result() {
    let screens = vec![screen("main"), screen("external")];
    let states = vec![state("main", Some("main.jpg")), state("external", None)];
    let backend = MockWallpaperBackend::new(screens, states);
    let mut manager = WallpaperManager::new(backend, MockFiles::default());

    let first = manager.refresh().expect("refresh should succeed");
    let wallpapers = manager.store().snapshot().wallpapers.clone();
    let second = manager.refresh().expect("refresh should succeed");

    assert_eq!(first, second);
    assert_eq!(manager.store().snapshot().wallpapers, wallpapers);
    assert_eq!(manager.store().snapshot().screens.len(), 2);
}

#[test]
fn set_for_screen_twice_gives_the_same_result() {
    let backend = MockWallpaperBackend::new(vec![screen("main")], vec![state("main", None)]);
    let files = MockFiles::default();
    let image_path = temp_image(&files, "twice.jpg");
    let mut manager = WallpaperManager::new(backend, files);
    let assignment = WallpaperAssignment {
        screen_id: ScreenId::new("main"),
        image_path: image_path.clone(),
        options: WallpaperOptions::default(),
    };

    manager.set_for_screen(assignment.clone()).expect("first set should succeed");
    let wallpapers = manager.store().snapshot().wallpapers.clone();
    manager.set_for_screen(assignment).expect("second set should succeed");

    assert_eq!(manager.store().snapshot().wallpapers, wallpapers);
    assert_eq!(cached_path(&manager, "main"), Some(image_path));
}
