use wallpaper_manager::status::backend_status;
use wallpaper_manager::text::{decimal, same_ignoring_ascii_case};
use wallpaper_manager::{ScreenId, WallpaperError, WallpaperOptions, WallpaperScaling, WallpaperState};

#[test]
fn status_counts_screens() {
    let states = vec![
        WallpaperState { screen_id: ScreenId::new("a"), image_path: None, options: WallpaperOptions::default() },
        WallpaperState {
            screen_id: ScreenId::new("b"),
            image_path: Some("b.png".to_string()),
            options: WallpaperOptions { scaling: WallpaperScaling::Tile, allow_clipping: false },
        },
    ];
    let status = backend_status(&Ok(states));
    assert!(status.integrated);
    assert_eq!(status.message, "Wallpaper manager is ready. 2 screen(s) detected.");
}

#[test]
fn status_reports_the_error() {
    let status = backend_status(&Err(WallpaperError::PlatformApiError("down".to_string())));
    assert!(!status.integrated);
    assert_eq!(status.message, "Wallpaper module loaded. Backend status: platform API error: down");
}

#[test]
fn decimal_and_case_folding() {
    assert_eq!(decimal(0), "0");
    assert_eq!(decimal(1204), "1204");
    assert_eq!(decimal(usize::MAX), usize::MAX.to_string());
    assert!(same_ignoring_ascii_case("JpEg", "jpeg"));
    assert!(!same_ignoring_ascii_case("jpg", "jpeg"));
    assert!(!same_ignoring_ascii_case("é", "É"));
    let options = WallpaperOptions::default();
    assert_eq!(options.scaling, WallpaperScaling::Fill);
    assert!(options.allow_clipping);
}

#[derive(Default)]
struct NoFiles;

impl wallpaper_manager::ImageFileSystem for NoFiles {
    fn symlink_metadata(&self, _path: &str) -> Result<wallpaper_manager::FileKind, wallpaper_manager::FsErrorKind> {
        Err(wallpaper_manager::FsErrorKind::Other)
    }

    fn metadata(&self, _path: &str) -> Result<wallpaper_manager::FileKind, wallpaper_manager::FsErrorKind> {
        Err(wallpaper_manager::FsErrorKind::Other)
    }

    fn open_for_reading(&self, _path: &str) -> Result<(), wallpaper_manager::FsErrorKind> {
        Err(wallpaper_manager::FsErrorKind::Other)
    }
}

#[test]
fn bridge_status_reports_the_unconnected_bridge() {
    let status = wallpaper_manager::status::bridge_status(NoFiles);
    assert!(!status.integrated);
    assert_eq!(
        status.message,
        "Wallpaper module loaded. Backend status: platform API error: Swift AppKit bridge is not wired into this crate yet"
    );
}
