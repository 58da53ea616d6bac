use vstd::prelude::*;

use crate::application::{refresh_given, WallpaperManager};
use crate::bridge::swift_backend::{bridge_unavailable, SwiftAppKitBridgeBackend};
use crate::domain::{ScreenDescriptor, WallpaperState};
use crate::error::{error_message_text, WallpaperError};
use crate::image::ImageFileSystem;
use crate::text::{decimal, decimal_text, joined};

verus! {

/// Whether the wallpaper backend is usable, with a message for the user.
#[derive(Debug, Clone, PartialEq, Eq)]
pub struct BackendStatus {
    pub integrated: bool,
    pub message: String,
}

/// The status message for the outcome of a first refresh.
pub open spec fn backend_message_text(result: Result<Vec<WallpaperState>, WallpaperError>) -> Seq<
    char,
> {
    match result {
        Ok(states) => "Wallpaper manager is ready. "@ + decimal_text(states@.len()) + " screen(s) detected."@,
        Err(e) => "Wallpaper module loaded. Backend status: "@ + error_message_text(e),
    }
}

/// The backend status after a first refresh: integrated exactly when the
/// refresh read the screens, with the number of screens or the error.
pub fn backend_status(result: &Result<Vec<WallpaperState>, WallpaperError>) -> (status:
    BackendStatus)
    ensures
        status.integrated == result is Ok,
        status.message@ == backend_message_text(*result),
{
    match result {
        Ok(states) => {
            let count = decimal(states.len());
            let mut message = joined("Wallpaper manager is ready. ", count.as_str());
            message.append(" screen(s) detected.");
            BackendStatus { integrated: true, message }
        },
        Err(error) => {
            let text = error.message();
            BackendStatus {
                integrated: false,
                message: joined("Wallpaper module loaded. Backend status: ", text.as_str()),
            }
        },
    }
}

/// The status of a wallpaper manager on the AppKit bridge, found by a first
/// refresh: the bridge is not connected, so the refresh fails with its
/// platform error and the status reports that error.
pub fn bridge_status<F: ImageFileSystem>(files: F) -> (status: BackendStatus)
    ensures
        !status.integrated,
        status.message@ == "Wallpaper module loaded. Backend status: "@ + "platform API error: "@
            + "Swift AppKit bridge is not wired into this crate yet"@,
{
    let mut manager = WallpaperManager::new(SwiftAppKitBridgeBackend::new(), files);
    let ghost before = manager.cached();
    let refreshed = manager.refresh();
    proof {
        let listing = choose|l: Result<Vec<ScreenDescriptor>, WallpaperError>|
            #[trigger] refresh_given(manager.backend_of(), before, manager.cached(), l, refreshed);
        assert(listing matches Err(e) && bridge_unavailable(e));
    }
    backend_status(&refreshed)
}

} // verus!
