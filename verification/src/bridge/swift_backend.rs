use vstd::prelude::*;

use crate::backend::WallpaperBackend;
use crate::domain::{ScreenDescriptor, ScreenId, WallpaperAssignment, WallpaperState};
use crate::error::WallpaperError;

verus! {

/// The platform error of the AppKit bridge while it is not connected.
pub open spec fn bridge_unavailable(error: WallpaperError) -> bool {
    error matches WallpaperError::PlatformApiError(m) && m@
        == "Swift AppKit bridge is not wired into this crate yet"@
}

/// The backend that will talk to AppKit through a Swift bridge; it is not
/// connected yet, so every request fails with a platform error.
#[derive(Debug, Default, Clone, Copy)]
pub struct SwiftAppKitBridgeBackend;

impl SwiftAppKitBridgeBackend {
    pub fn new() -> (backend: Self) {
        SwiftAppKitBridgeBackend
    }

    fn unavailable() -> (error: WallpaperError)
        ensures
            bridge_unavailable(error),
    {
        WallpaperError::PlatformApiError(
            String::from_str("Swift AppKit bridge is not wired into this crate yet"),
        )
    }
}

impl WallpaperBackend for SwiftAppKitBridgeBackend {
    fn list_screens(&self) -> (result: Result<Vec<ScreenDescriptor>, WallpaperError>)
        ensures
            result matches Err(e) && bridge_unavailable(e),
    {
        Err(Self::unavailable())
    }

    fn get_wallpaper(&self, screen_id: &ScreenId) -> (result: Result<WallpaperState, WallpaperError>)
        ensures
            result matches Err(e) && bridge_unavailable(e),
    {
        Err(Self::unavailable())
    }

    fn set_wallpaper(&self, assignment: &WallpaperAssignment) -> (result: Result<(), WallpaperError>)
        ensures
            result matches Err(e) && bridge_unavailable(e),
    {
        Err(Self::unavailable())
    }
}

} // verus!
