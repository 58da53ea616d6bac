use vstd::prelude::*;

use crate::domain::{ScreenDescriptor, ScreenId, WallpaperAssignment, WallpaperState};
use crate::error::WallpaperError;

verus! {

/// The platform layer that reads and sets the system's wallpapers.
///
/// The answers depend on the system and may change between calls; the
/// manager promises what holds whatever they are.
pub trait WallpaperBackend {
    /// The screens of the current topology.
    fn list_screens(&self) -> Result<Vec<ScreenDescriptor>, WallpaperError>;

    /// What a screen currently shows.
    fn get_wallpaper(&self, screen_id: &ScreenId) -> Result<WallpaperState, WallpaperError>;

    /// Asks the system to show an image on a screen.
    fn set_wallpaper(&self, assignment: &WallpaperAssignment) -> Result<(), WallpaperError>;
}

} // verus!
