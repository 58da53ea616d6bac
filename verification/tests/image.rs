use std::cell::RefCell;

use wallpaper_manager::image::{check_image, is_supported_image, validate_image_path, FsAnswers};
use wallpaper_manager::text::same_path;
use wallpaper_manager::{FileKind, FsErrorKind, ImageFileSystem, WallpaperError};

/// A file system that answers every query the same way.
struct FixedFiles {
    link: Result<FileKind, FsErrorKind>,
    target: Result<FileKind, FsErrorKind>,
    open: Result<(), FsErrorKind>,
    queries: RefCell<usize>,
}

impl FixedFiles {
    fn regular() -> Self {
        FixedFiles {
            link: Ok(FileKind { is_symlink: false, is_file: true }),
            target: Ok(FileKind { is_symlink: false, is_file: true }),
            open: Ok(()),
            queries: RefCell::new(0),
        }
    }
}

impl ImageFileSystem for FixedFiles {
    fn symlink_metadata(&self, _path: &str) -> Result<FileKind, FsErrorKind> {
        *self.queries.borrow_mut() += 1;
        self.link
    }

    fn metadata(&self, _path: &str) -> Result<FileKind, FsErrorKind> {
        *self.queries.borrow_mut() += 1;
        self.target
    }

    fn open_for_reading(&self, _path: &str) -> Result<(), FsErrorKind> {
        *self.queries.borrow_mut() += 1;
        self.open
    }
}

#[test]
fn supported_extensions_ignore_case() {
    for path in ["a.jpg", "b.JPEG", "/x/c.Png", "d.heic", "e.HEIF", "f.tiff", "g.bmp"] {
        assert!(is_supported_image(path), "{path}");
    }
    for path in ["a.gif", "b.webp", "noext", ".png", "dir.png/", "a.png.txt", "a.tif"] {
        assert_eq!(is_supported_image(path), path == "dir.png/", "{path}");
    }
}

#[test]
fn validation_accepts_a_readable_image() {
    let files = FixedFiles::regular();
    assert!(validate_image_path(&files, "/tmp/ok.jpg").is_ok());
    assert_eq!(*files.queries.borrow(), 3);
}

#[test]
fn validation_maps_file_system_failures() {
    let mut files = FixedFiles::regular();
    files.link = Err(FsErrorKind::PermissionDenied);
    assert!(matches!(
        validate_image_path(&files, "/p.png"),
        Err(WallpaperError::PermissionDenied(p)) if p == "/p.png"
    ));

    let mut files = FixedFiles::regular();
    files.link = Err(FsErrorKind::Other);
    assert!(matches!(validate_image_path(&files, "/p.png"), Err(WallpaperError::InvalidImagePath(_))));

    let mut files = FixedFiles::regular();
    files.link = Ok(FileKind { is_symlink: true, is_file: false });
    files.target = Err(FsErrorKind::PermissionDenied);
    assert!(matches!(validate_image_path(&files, "/p.png"), Err(WallpaperError::InvalidImagePath(_))));

    let mut files = FixedFiles::regular();
    files.target = Ok(FileKind { is_symlink: false, is_file: false });
    assert!(matches!(validate_image_path(&files, "/dir.png"), Err(WallpaperError::InvalidImagePath(_))));

    let mut files = FixedFiles::regular();
    files.open = Err(FsErrorKind::PermissionDenied);
    assert!(matches!(validate_image_path(&files, "/p.png"), Err(WallpaperError::PermissionDenied(_))));

    let files = FixedFiles::regular();
    assert!(matches!(
        validate_image_path(&files, "/p.gif"),
        Err(WallpaperError::UnsupportedImageFormat(p)) if p == "/p.gif"
    ));
}

#[test]
fn check_image_decides_from_answers() {
    let file = FileKind { is_symlink: false, is_file: true };
    let link = FileKind { is_symlink: true, is_file: false };
    let dir = FileKind { is_symlink: false, is_file: false };
    let answers = |link, link_target, target, open| FsAnswers { link, link_target, target, open };

    assert!(check_image("/a.png", answers(Ok(file), Err(FsErrorKind::Other), Ok(file), Ok(()))).is_ok());
    assert!(matches!(
        check_image("/x.txt", answers(Err(FsErrorKind::Other), Ok(file), Ok(file), Ok(()))),
        Err(WallpaperError::InvalidImagePath(p)) if p == "/x.txt"
    ));
    assert!(matches!(
        check_image("/a.png", answers(Ok(link), Err(FsErrorKind::Other), Ok(file), Ok(()))),
        Err(WallpaperError::InvalidImagePath(_))
    ));
    assert!(matches!(
        check_image("/a.png", answers(Ok(file), Ok(file), Ok(dir), Ok(()))),
        Err(WallpaperError::InvalidImagePath(_))
    ));
    assert!(matches!(
        check_image("/a.png", answers(Ok(file), Ok(file), Err(FsErrorKind::PermissionDenied), Ok(()))),
        Err(WallpaperError::PermissionDenied(_))
    ));
    assert!(matches!(
        check_image("/x.txt", answers(Ok(file), Ok(file), Ok(file), Ok(()))),
        Err(WallpaperError::UnsupportedImageFormat(p)) if p == "/x.txt"
    ));
}

#[test]
fn paths_compare_by_component() {
    assert!(same_path("/tmp//x.png", "/tmp/x.png"));
    assert!(same_path("/tmp/x.png", "/tmp/x.png"));
    assert!(!same_path("/tmp/x.png", "/tmp/y.png"));
}
