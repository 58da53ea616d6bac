use wallpaper_manager::application::record_outcome;
use wallpaper_manager::{WallpaperAssignment, WallpaperOptions};
use wallpaper_manager::{
    BatchSetReport, ScreenId, ScreenOperationError, SwiftAppKitBridgeBackend, WallpaperBackend,
    WallpaperError,
};

#[test]
fn error_codes_and_messages() {
    let cases: Vec<(WallpaperError, &str, &str)> = vec![
        (WallpaperError::ScreenNotFound(ScreenId::new("ext")), "screen_not_found", "screen not found: ext"),
        (WallpaperError::InvalidImagePath("/a b.png".to_string()), "invalid_image_path", "invalid image path: /a b.png"),
        (WallpaperError::UnsupportedImageFormat("x.gif".to_string()), "unsupported_image_format", "unsupported image format: x.gif"),
        (WallpaperError::PermissionDenied("/p.png".to_string()), "permission_denied", "permission denied: /p.png"),
        (WallpaperError::ImageDecodeFailed("d.png".to_string()), "image_decode_failed", "image decode failed: d.png"),
        (WallpaperError::DuplicateScreenAssignment(ScreenId::new("main")), "duplicate_screen_assignment", "duplicate screen assignment: main"),
        (WallpaperError::EmptyBatchRequest, "empty_batch_request", "batch request must include at least one assignment"),
        (WallpaperError::MainThreadViolation, "main_thread_violation", "main thread violation"),
        (WallpaperError::PlatformApiError("boom".to_string()), "platform_api_error", "platform API error: boom"),
        (WallpaperError::ScreenTopologyChanged, "screen_topology_changed", "screen topology changed"),
        (WallpaperError::AmbiguousScreenMapping, "ambiguous_screen_mapping", "ambiguous screen mapping"),
        (
            WallpaperError::ReadAfterWriteMismatch {
                screen_id: ScreenId::new("main"),
                expected: "/x.png".to_string(),
                actual: Some("y.png".to_string()),
            },
            "read_after_write_mismatch",
            "read after write mismatch for main: expected \"/x.png\", actual Some(\"y.png\")",
        ),
        (
            WallpaperError::ReadAfterWriteMismatch {
                screen_id: ScreenId::new("main"),
                expected: "/x.png".to_string(),
                actual: None,
            },
            "read_after_write_mismatch",
            "read after write mismatch for main: expected \"/x.png\", actual None",
        ),
    ];
    for (error, code, message) in cases {
        assert_eq!(error.code(), code);
        assert_eq!(error.message(), message);
    }
}

#[test]
fn partial_failure_message_shows_the_report() {
    let report = BatchSetReport {
        succeeded: vec![ScreenId::new("main")],
        failed: vec![ScreenOperationError {
            screen_id: ScreenId::new("ext"),
            image_path: "e.png".to_string(),
            error_code: "platform_api_error".to_string(),
            message: "platform API error: boom".to_string(),
        }],
    };
    let error = WallpaperError::PartialFailure(report.clone());
    assert_eq!(error.code(), "partial_failure");
    assert_eq!(error.message(), format!("partial failure: {report:?}"));
    assert!(!report.is_success());
    assert!(BatchSetReport::default().is_success());
}

#[test]
fn swift_bridge_is_not_connected() {
    let backend = SwiftAppKitBridgeBackend::new();
    let error = backend.list_screens().expect_err("not connected");
    assert_eq!(error.message(), "platform API error: Swift AppKit bridge is not wired into this crate yet");
    assert!(backend.get_wallpaper(&ScreenId::new("main")).is_err());
}

#[test]
fn screen_id_text() {
    let id = ScreenId::new("display-1");
    assert_eq!(id.as_str(), "display-1");
    assert_eq!(ScreenId::from_string("display-1".to_string()), id);
    assert_ne!(ScreenId::new("display-2"), id);
}

#[test]
fn report_debug_shows_paths_as_paths() {
    let report = BatchSetReport {
        succeeded: vec![ScreenId::new("a"), ScreenId::new("b")],
        failed: vec![ScreenOperationError {
            screen_id: ScreenId::new("ext"),
            image_path: "it's.png".to_string(),
            error_code: "platform_api_error".to_string(),
            message: "platform API error: \"x\"".to_string(),
        }],
    };
    let path_debug = format!("{:?}", std::path::Path::new("it's.png"));
    assert_eq!(
        wallpaper_manager::text::report_debug(&report),
        format!(
            "BatchSetReport {{ succeeded: [ScreenId(\"a\"), ScreenId(\"b\")], failed: [ScreenOperationError {{ screen_id: ScreenId(\"ext\"), image_path: {path_debug}, error_code: \"platform_api_error\", message: \"platform API error: \\\"x\\\"\" }}] }}"
        )
    );
    assert_eq!(
        wallpaper_manager::text::report_debug(&BatchSetReport::default()),
        "BatchSetReport { succeeded: [], failed: [] }"
    );
}

#[test]
fn screen_id_conversions() {
    assert_eq!(ScreenId::from("main"), ScreenId::new("main"));
    assert_eq!(ScreenId::from("main".to_string()), ScreenId::new("main"));
}

#[test]
fn record_outcome_adds_one_entry() {
    let mut report = BatchSetReport::default();
    let assignment = WallpaperAssignment {
        screen_id: ScreenId::new("ext"),
        image_path: "/e.png".to_string(),
        options: WallpaperOptions::default(),
    };
    record_outcome(&mut report, &assignment, Ok(()));
    record_outcome(&mut report, &assignment, Err(WallpaperError::MainThreadViolation));
    assert_eq!(report.succeeded, vec![ScreenId::new("ext")]);
    assert_eq!(report.failed.len(), 1);
    assert_eq!(report.failed[0].error_code, "main_thread_violation");
    assert_eq!(report.failed[0].message, "main thread violation");
    assert_eq!(report.failed[0].image_path, "/e.png");
}
