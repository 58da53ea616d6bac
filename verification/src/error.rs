use vstd::prelude::*;

use crate::domain::{BatchSetReport, ScreenId};
use crate::text::{joined, path_debug, path_debug_text, report_debug, report_debug_text};

verus! {

/// Everything that can go wrong while managing wallpapers.
#[derive(Debug)]
pub enum WallpaperError {
    ScreenNotFound(ScreenId),
    InvalidImagePath(String),
    UnsupportedImageFormat(String),
    PermissionDenied(String),
    ImageDecodeFailed(String),
    DuplicateScreenAssignment(ScreenId),
    EmptyBatchRequest,
    MainThreadViolation,
    PlatformApiError(String),
    ScreenTopologyChanged,
    AmbiguousScreenMapping,
    ReadAfterWriteMismatch { screen_id: ScreenId, expected: String, actual: Option<String> },
    PartialFailure(BatchSetReport),
}

/// The stable machine-readable code of an error.
pub open spec fn error_code_text(error: WallpaperError) -> Seq<char> {
    match error {
        WallpaperError::ScreenNotFound(_) => "screen_not_found"@,
        WallpaperError::InvalidImagePath(_) => "invalid_image_path"@,
        WallpaperError::UnsupportedImageFormat(_) => "unsupported_image_format"@,
        WallpaperError::PermissionDenied(_) => "permission_denied"@,
        WallpaperError::ImageDecodeFailed(_) => "image_decode_failed"@,
        WallpaperError::DuplicateScreenAssignment(_) => "duplicate_screen_assignment"@,
        WallpaperError::EmptyBatchRequest => "empty_batch_request"@,
        WallpaperError::MainThreadViolation => "main_thread_violation"@,
        WallpaperError::PlatformApiError(_) => "platform_api_error"@,
        WallpaperError::ScreenTopologyChanged => "screen_topology_changed"@,
        WallpaperError::AmbiguousScreenMapping => "ambiguous_screen_mapping"@,
        WallpaperError::ReadAfterWriteMismatch { .. } => "read_after_write_mismatch"@,
        WallpaperError::PartialFailure(_) => "partial_failure"@,
    }
}

/// How `Debug` shows an optional path: `Some(..)` around the path's debug text, or `None`.
pub open spec fn optional_path_debug_text(path: Option<String>) -> Seq<char> {
    match path {
        Some(p) => "Some("@ + path_debug_text(p@) + ")"@,
        None => "None"@,
    }
}

/// The human-readable message of an error.
pub open spec fn error_message_text(error: WallpaperError) -> Seq<char> {
    match error {
        WallpaperError::ScreenNotFound(id) => "screen not found: "@ + id@,
        WallpaperError::InvalidImagePath(p) => "invalid image path: "@ + p@,
        WallpaperError::UnsupportedImageFormat(p) => "unsupported image format: "@ + p@,
        WallpaperError::PermissionDenied(p) => "permission denied: "@ + p@,
        WallpaperError::ImageDecodeFailed(p) => "image decode failed: "@ + p@,
        WallpaperError::DuplicateScreenAssignment(id) => "duplicate screen assignment: "@ + id@,
        WallpaperError::EmptyBatchRequest => "batch request must include at least one assignment"@,
        WallpaperError::MainThreadViolation => "main thread violation"@,
        WallpaperError::PlatformApiError(m) => "platform API error: "@ + m@,
        WallpaperError::ScreenTopologyChanged => "screen topology changed"@,
        WallpaperError::AmbiguousScreenMapping => "ambiguous screen mapping"@,
        WallpaperError::ReadAfterWriteMismatch { screen_id, expected, actual } => "read after write mismatch for "@
            + screen_id@ + ": expected "@ + path_debug_text(expected@) + ", actual "@
            + optional_path_debug_text(actual),
        WallpaperError::PartialFailure(report) => "partial failure: "@ + report_debug_text(report),
    }
}

impl WallpaperError {
    /// The stable code of this error, for logs and per-screen reports.
    pub fn code(&self) -> (code: &'static str)
        ensures
            code@ == error_code_text(*self),
    {
        match self {
            WallpaperError::ScreenNotFound(_) => "screen_not_found",
            WallpaperError::InvalidImagePath(_) => "invalid_image_path",
            WallpaperError::UnsupportedImageFormat(_) => "unsupported_image_format",
            WallpaperError::PermissionDenied(_) => "permission_denied",
            WallpaperError::ImageDecodeFailed(_) => "image_decode_failed",
            WallpaperError::DuplicateScreenAssignment(_) => "duplicate_screen_assignment",
            WallpaperError::EmptyBatchRequest => "empty_batch_request",
            WallpaperError::MainThreadViolation => "main_thread_violation",
            WallpaperError::PlatformApiError(_) => "platform_api_error",
            WallpaperError::ScreenTopologyChanged => "screen_topology_changed",
            WallpaperError::AmbiguousScreenMapping => "ambiguous_screen_mapping",
            WallpaperError::ReadAfterWriteMismatch { .. } => "read_after_write_mismatch",
            WallpaperError::PartialFailure(_) => "partial_failure",
        }
    }

    /// The human-readable message of this error (what `Display` shows).
    pub fn message(&self) -> (text: String)
        ensures
            text@ == error_message_text(*self),
    {
        match self {
            WallpaperError::ScreenNotFound(id) => joined("screen not found: ", id.as_str()),
            WallpaperError::InvalidImagePath(p) => joined("invalid image path: ", p.as_str()),
            WallpaperError::UnsupportedImageFormat(p) => joined(
                "unsupported image format: ",
                p.as_str(),
            ),
            WallpaperError::PermissionDenied(p) => joined("permission denied: ", p.as_str()),
            WallpaperError::ImageDecodeFailed(p) => joined("image decode failed: ", p.as_str()),
            WallpaperError::DuplicateScreenAssignment(id) => joined(
                "duplicate screen assignment: ",
                id.as_str(),
            ),
            WallpaperError::EmptyBatchRequest => String::from_str(
                "batch request must include at least one assignment",
            ),
            WallpaperError::MainThreadViolation => String::from_str("main thread violation"),
            WallpaperError::PlatformApiError(m) => joined("platform API error: ", m.as_str()),
            WallpaperError::ScreenTopologyChanged => String::from_str("screen topology changed"),
            WallpaperError::AmbiguousScreenMapping => String::from_str("ambiguous screen mapping"),
            WallpaperError::ReadAfterWriteMismatch { screen_id, expected, actual } => {
                let mut text = joined("read after write mismatch for ", screen_id.as_str());
                text.append(": expected ");
                let expected_text = path_debug(expected.as_str());
                text.append(expected_text.as_str());
                text.append(", actual ");
                match actual {
                    Some(p) => {
                        text.append("Some(");
                        let actual_text = path_debug(p.as_str());
                        text.append(actual_text.as_str());
                        text.append(")");
                    },
                    None => {
                        text.append("None");
                    },
                }
                text
            },
            WallpaperError::PartialFailure(report) => {
                let report_text = report_debug(report);
                joined("partial failure: ", report_text.as_str())
            },
        }
    }
}

} // verus!
