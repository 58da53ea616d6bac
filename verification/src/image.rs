use vstd::prelude::*;

use crate::error::WallpaperError;
use crate::text::{eq_ignoring_ascii_case, extension_of, path_extension, same_ignoring_ascii_case};

verus! {

/// Why a file-system query failed.
#[derive(Debug, Clone, Copy, PartialEq, Eq, Structural)]
pub enum FsErrorKind {
    PermissionDenied,
    Other,
}

/// The kind of a file-system entry.
#[derive(Debug, Clone, Copy, PartialEq, Eq, Structural)]
pub struct FileKind {
    pub is_symlink: bool,
    pub is_file: bool,
}

/// The file-system queries that image validation needs.
pub trait ImageFileSystem {
    /// The kind of the entry at `path` itself, not following a symbolic link.
    fn symlink_metadata(&self, path: &str) -> Result<FileKind, FsErrorKind>;

    /// The kind of the entry that `path` leads to, following symbolic links.
    fn metadata(&self, path: &str) -> Result<FileKind, FsErrorKind>;

    /// Opens the file at `path` for reading and closes it again.
    fn open_for_reading(&self, path: &str) -> Result<(), FsErrorKind>;
}

/// An extension of the image formats that can become a wallpaper
/// (jpg, jpeg, png, heic, heif, tiff, bmp), ignoring ASCII case.
pub open spec fn is_image_extension(ext: Seq<char>) -> bool {
    ||| eq_ignoring_ascii_case(ext, "jpg"@)
    ||| eq_ignoring_ascii_case(ext, "jpeg"@)
    ||| eq_ignoring_ascii_case(ext, "png"@)
    ||| eq_ignoring_ascii_case(ext, "heic"@)
    ||| eq_ignoring_ascii_case(ext, "heif"@)
    ||| eq_ignoring_ascii_case(ext, "tiff"@)
    ||| eq_ignoring_ascii_case(ext, "bmp"@)
}

/// A path whose extension names a supported image format.
pub open spec fn is_image_path(path: Seq<char>) -> bool {
    match path_extension(path) {
        Some(ext) => is_image_extension(ext),
        None => false,
    }
}

/// The error for a failed file-system query on `path`.
pub open spec fn fs_failure_spec(path: Seq<char>, kind: FsErrorKind, error: WallpaperError) -> bool {
    match kind {
        FsErrorKind::PermissionDenied => error matches WallpaperError::PermissionDenied(p) && p@
            == path,
        FsErrorKind::Other => error matches WallpaperError::InvalidImagePath(p) && p@ == path,
    }
}

/// The errors that validating the image at `path` can give.
pub open spec fn image_path_error(path: Seq<char>, error: WallpaperError) -> bool {
    ||| error matches WallpaperError::InvalidImagePath(p) && p@ == path
    ||| error matches WallpaperError::PermissionDenied(p) && p@ == path
    ||| error matches WallpaperError::UnsupportedImageFormat(p) && p@ == path && !is_image_path(
        path,
    )
}

/// The answers of the file system to the queries of an image check; the
/// answers to queries that the check did not make play no part.
#[derive(Debug, Clone, Copy)]
pub struct FsAnswers {
    /// The entry at the path itself.
    pub link: Result<FileKind, FsErrorKind>,
    /// The entry a symbolic link leads to, asked when the path is a link.
    pub link_target: Result<FileKind, FsErrorKind>,
    /// The entry the path leads to.
    pub target: Result<FileKind, FsErrorKind>,
    /// Opening the file for reading.
    pub open: Result<(), FsErrorKind>,
}

/// The outcome of checking the image at `path` when the file system answers
/// with `fs`: the first failing query decides the error (a link whose target
/// cannot be read and a target that is not a regular file are invalid paths);
/// when all pass, the extension decides.
pub open spec fn image_check_result(
    path: Seq<char>,
    fs: FsAnswers,
    result: Result<(), WallpaperError>,
) -> bool {
    match fs.link {
        Err(k) => result matches Err(e) && fs_failure_spec(path, k, e),
        Ok(link) => if link.is_symlink && fs.link_target is Err {
            result matches Err(e) && (e matches WallpaperError::InvalidImagePath(p) && p@ == path)
        } else {
            match fs.target {
                Err(k) => result matches Err(e) && fs_failure_spec(path, k, e),
                Ok(target) => if !target.is_file {
                    result matches Err(e) && (e matches WallpaperError::InvalidImagePath(p) && p@
                        == path)
                } else {
                    match fs.open {
                        Err(k) => result matches Err(e) && fs_failure_spec(path, k, e),
                        Ok(_) => if is_image_path(path) {
                            result is Ok
                        } else {
                            result matches Err(e) && (e matches WallpaperError::UnsupportedImageFormat(
                                p,
                            ) && p@ == path)
                        },
                    }
                },
            }
        },
    }
}

/// An image check succeeds exactly when the entry at the path can be read,
/// a symbolic link there leads somewhere, what the path leads to is a
/// regular file that opens for reading, and its extension names a supported
/// format: a link to a valid image is accepted like the image itself.
pub proof fn lemma_image_accepted_exactly(path: Seq<char>, fs: FsAnswers, result: Result<(), WallpaperError>)
    requires
        image_check_result(path, fs, result),
    ensures
        result is Ok <==> {
            &&& fs.link matches Ok(link)
            &&& link.is_symlink ==> fs.link_target is Ok
            &&& fs.target matches Ok(target)
            &&& target.is_file
            &&& fs.open is Ok
            &&& is_image_path(path)
        },
{
}

/// Whether the extension of `path` names a supported image format.
pub fn is_supported_image(path: &str) -> (supported: bool)
    ensures
        supported == is_image_path(path@),
{
    match extension_of(path) {
        Some(ext) => {
            let e = ext.as_str();
            same_ignoring_ascii_case(e, "jpg") || same_ignoring_ascii_case(e, "jpeg")
                || same_ignoring_ascii_case(e, "png") || same_ignoring_ascii_case(e, "heic")
                || same_ignoring_ascii_case(e, "heif") || same_ignoring_ascii_case(e, "tiff")
                || same_ignoring_ascii_case(e, "bmp")
        },
        None => false,
    }
}

/// The error for a failed file-system query on `path`: permission problems
/// are reported as such, everything else as an invalid path.
pub fn fs_failure(path: &str, kind: FsErrorKind) -> (error: WallpaperError)
    ensures
        fs_failure_spec(path@, kind, error),
{
    match kind {
        FsErrorKind::PermissionDenied => WallpaperError::PermissionDenied(path.to_string()),
        FsErrorKind::Other => WallpaperError::InvalidImagePath(path.to_string()),
    }
}

/// The check asks for the entry a symbolic link leads to.
pub open spec fn asks_link_target(answers: FsAnswers) -> bool {
    answers.link matches Ok(link) && link.is_symlink
}

/// The check asks for the entry the path leads to.
pub open spec fn asks_target(answers: FsAnswers) -> bool {
    answers.link matches Ok(link) && !(link.is_symlink && answers.link_target is Err)
}

/// The check opens the file.
pub open spec fn asks_open(answers: FsAnswers) -> bool {
    asks_target(answers) && (answers.target matches Ok(target) && target.is_file)
}

/// Every answer the check uses is one that `files` gave for a path with the text `path`.
pub open spec fn answered_by<F: ImageFileSystem>(files: F, path: Seq<char>, answers: FsAnswers) -> bool {
    exists|p: &str|
        p@ == path && #[trigger] call_ensures(F::symlink_metadata, (&files, p), answers.link) && (
        asks_link_target(answers) ==> call_ensures(F::metadata, (&files, p), answers.link_target))
            && (asks_target(answers) ==> call_ensures(F::metadata, (&files, p), answers.target)) && (
        asks_open(answers) ==> call_ensures(F::open_for_reading, (&files, p), answers.open))
}

/// Decides the image check from the file system's answers: the first
/// failing query decides the error; when all pass, the extension decides.
pub fn check_image(path: &str, answers: FsAnswers) -> (result: Result<(), WallpaperError>)
    ensures
        image_check_result(path@, answers, result),
{
    match answers.link {
        Err(kind) => return Err(fs_failure(path, kind)),
        Ok(link) => {
            if link.is_symlink && answers.link_target.is_err() {
                return Err(WallpaperError::InvalidImagePath(path.to_string()));
            }
        },
    }
    match answers.target {
        Err(kind) => return Err(fs_failure(path, kind)),
        Ok(target) => {
            if !target.is_file {
                return Err(WallpaperError::InvalidImagePath(path.to_string()));
            }
        },
    }
    if let Err(kind) = answers.open {
        return Err(fs_failure(path, kind));
    }
    if !is_supported_image(path) {
        return Err(WallpaperError::UnsupportedImageFormat(path.to_string()));
    }
    Ok(())
}

/// Checks that `path` is a readable regular file (a symbolic link must lead
/// to one) with a supported image extension, asking `files` in turn for the
/// entry at the path, the entry a link leads to, the entry the path leads to,
/// and opening the file, each only while the earlier answers pass.
pub fn validate_image_path<F: ImageFileSystem>(files: &F, path: &str) -> (result: Result<
    (),
    WallpaperError,
>)
    ensures
        exists|answers: FsAnswers|
            answered_by(*files, path@, answers) && #[trigger] image_check_result(
                path@,
                answers,
                result,
            ),
        result is Ok ==> is_image_path(path@),
        !is_image_path(path@) ==> result is Err,
        result matches Err(e) ==> image_path_error(path@, e),
{
    let link = files.symlink_metadata(path);
    let asks_link_target = match link {
        Ok(kind) => kind.is_symlink,
        Err(_) => false,
    };
    let link_target = if asks_link_target {
        files.metadata(path)
    } else {
        Err(FsErrorKind::Other)
    };
    let asks_target = match link {
        Ok(kind) => !(kind.is_symlink && link_target.is_err()),
        Err(_) => false,
    };
    let target = if asks_target {
        files.metadata(path)
    } else {
        Err(FsErrorKind::Other)
    };
    let asks_open = asks_target && match target {
        Ok(kind) => kind.is_file,
        Err(_) => false,
    };
    let open = if asks_open {
        files.open_for_reading(path)
    } else {
        Err(FsErrorKind::Other)
    };
    let answers = FsAnswers { link, link_target, target, open };
    let result = check_image(path, answers);
    assert(call_ensures(F::symlink_metadata, (files, path), answers.link));
    assert(answered_by(*files, path@, answers));
    proof {
        lemma_image_check_facts(path@, answers, result);
    }
    result
}

/// What any image check result says about the path.
proof fn lemma_image_check_facts(path: Seq<char>, answers: FsAnswers, result: Result<(), WallpaperError>)
    requires
        image_check_result(path, answers, result),
    ensures
        result is Ok ==> is_image_path(path),
        !is_image_path(path) ==> result is Err,
        result matches Err(e) ==> image_path_error(path, e),
{
}

} // verus!
