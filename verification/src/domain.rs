use vstd::prelude::*;
use vstd::std_specs::cmp::PartialEqSpecImpl;
use vstd::std_specs::convert::FromSpecImpl;

verus! {

/// Identifier of a screen in the current display topology.
///
/// Two identifiers are the same screen exactly when their texts are equal.
#[derive(Debug, Eq, Hash, PartialOrd, Ord)]
pub struct ScreenId(String);

impl View for ScreenId {
    type V = Seq<char>;

    closed spec fn view(&self) -> Seq<char> {
        self.0@
    }
}

impl ScreenId {
    pub fn new(value: &str) -> (id: ScreenId)
        ensures
            id@ == value@,
    {
        ScreenId(value.to_string())
    }

    /// Builds an identifier that owns the given text.
    pub fn from_string(value: String) -> (id: ScreenId)
        ensures
            id@ == value@,
    {
        ScreenId(value)
    }

    pub fn as_str(&self) -> (s: &str)
        ensures
            s@ == self@,
    {
        self.0.as_str()
    }
}

impl From<String> for ScreenId {
    fn from(value: String) -> (id: ScreenId)
        ensures
            id@ == value@,
    {
        ScreenId(value)
    }
}

impl FromSpecImpl<String> for ScreenId {
    /// The identifier's text is the given text (see `from`); no single value is promised.
    open spec fn obeys_from_spec() -> bool {
        false
    }

    open spec fn from_spec(value: String) -> ScreenId {
        choose|id: ScreenId| id@ == value@
    }
}

impl<'a> From<&'a str> for ScreenId {
    fn from(value: &'a str) -> (id: ScreenId)
        ensures
            id@ == value@,
    {
        ScreenId(value.to_string())
    }
}

impl<'a> FromSpecImpl<&'a str> for ScreenId {
    /// The identifier's text is the given text; no single value is promised.
    open spec fn obeys_from_spec() -> bool {
        false
    }

    open spec fn from_spec(value: &'a str) -> ScreenId {
        choose|id: ScreenId| id@ == value@
    }
}

impl Clone for ScreenId {
    fn clone(&self) -> (id: Self)
        ensures
            id == *self,
    {
        ScreenId(self.0.clone())
    }
}

impl PartialEq for ScreenId {
    fn eq(&self, other: &Self) -> (same: bool) {
        self.0 == other.0
    }
}

impl PartialEqSpecImpl for ScreenId {
    open spec fn obeys_eq_spec() -> bool {
        true
    }

    open spec fn eq_spec(&self, other: &ScreenId) -> bool {
        self@ == other@
    }
}

/// How an image is fitted onto a screen.
#[derive(Debug, Clone, Copy, PartialEq, Eq, Structural)]
pub enum WallpaperScaling {
    Fill,
    Fit,
    Stretch,
    Center,
    Tile,
}

/// Display options of a wallpaper.
#[derive(Debug, Clone, Copy, PartialEq, Eq, Structural)]
pub struct WallpaperOptions {
    pub scaling: WallpaperScaling,
    pub allow_clipping: bool,
}

impl Default for WallpaperOptions {
    /// Fill the screen, clipping allowed.
    fn default() -> (options: Self)
        ensures
            options.scaling == WallpaperScaling::Fill,
            options.allow_clipping,
    {
        WallpaperOptions { scaling: WallpaperScaling::Fill, allow_clipping: true }
    }
}

/// A request to show the image at `image_path` on one screen.
#[derive(Debug, PartialEq, Eq)]
pub struct WallpaperAssignment {
    pub screen_id: ScreenId,
    pub image_path: String,
    pub options: WallpaperOptions,
}

impl Clone for WallpaperAssignment {
    fn clone(&self) -> (copy: Self)
        ensures
            copy == *self,
    {
        WallpaperAssignment {
            screen_id: self.screen_id.clone(),
            image_path: self.image_path.clone(),
            options: self.options,
        }
    }
}

/// What a screen currently shows.
#[derive(Debug, PartialEq, Eq)]
pub struct WallpaperState {
    pub screen_id: ScreenId,
    pub image_path: Option<String>,
    pub options: WallpaperOptions,
}

impl Clone for WallpaperState {
    fn clone(&self) -> (copy: Self)
        ensures
            copy == *self,
    {
        let image_path = match &self.image_path {
            Some(path) => Some(path.clone()),
            None => None,
        };
        WallpaperState { screen_id: self.screen_id.clone(), image_path, options: self.options }
    }
}

/// Position and extent of a screen in global coordinates.
#[derive(Debug, Clone, Copy, PartialEq, Eq, Structural)]
pub struct ScreenFrame {
    pub x: i32,
    pub y: i32,
    pub width: u32,
    pub height: u32,
}

/// Native pixel size of a screen.
#[derive(Debug, Clone, Copy, PartialEq, Eq, Structural)]
pub struct ScreenSize {
    pub width: u32,
    pub height: u32,
}

/// Hardware identity of a display, used to recognise it across reconnections.
#[derive(Debug, Clone, Copy, PartialEq, Eq, Structural)]
pub struct DisplayFingerprint {
    pub vendor_id: Option<u32>,
    pub model_id: Option<u32>,
    pub serial_number: Option<u32>,
    pub is_builtin: bool,
}

/// How confidently a screen was matched to a known display.
#[derive(Debug, Clone, Copy, PartialEq, Eq, Structural)]
pub enum ScreenMatchQuality {
    Exact,
    Fuzzy,
    Ambiguous,
}

/// Everything known about one screen of the current topology.
#[derive(Debug, PartialEq, Eq)]
pub struct ScreenDescriptor {
    pub screen_id: ScreenId,
    pub localized_name: String,
    pub is_builtin: bool,
    pub is_primary: bool,
    pub frame: ScreenFrame,
    pub native_size: ScreenSize,
    pub vendor_id: Option<u32>,
    pub model_id: Option<u32>,
    pub serial_number: Option<u32>,
    pub fingerprint: DisplayFingerprint,
    pub match_quality: ScreenMatchQuality,
}

impl Clone for ScreenDescriptor {
    fn clone(&self) -> (copy: Self)
        ensures
            copy == *self,
    {
        ScreenDescriptor {
            screen_id: self.screen_id.clone(),
            localized_name: self.localized_name.clone(),
            is_builtin: self.is_builtin,
            is_primary: self.is_primary,
            frame: self.frame,
            native_size: self.native_size,
            vendor_id: self.vendor_id,
            model_id: self.model_id,
            serial_number: self.serial_number,
            fingerprint: self.fingerprint,
            match_quality: self.match_quality,
        }
    }
}

/// Whether some screen of `screens` carries the identifier `id`.
pub open spec fn lists_screen(screens: Seq<ScreenDescriptor>, id: Seq<char>) -> bool {
    exists|i: int| 0 <= i < screens.len() && (#[trigger] screens[i]).screen_id@ == id
}

/// Whether some screen of `screens` carries the identifier `id`.
pub fn screen_listed(screens: &Vec<ScreenDescriptor>, id: &ScreenId) -> (found: bool)
    ensures
        found == lists_screen(screens@, id@),
{
    let mut i: usize = 0;
    while i < screens.len()
        invariant
            i <= screens@.len(),
            forall|j: int| 0 <= j < i ==> (#[trigger] screens@[j]).screen_id@ != id@,
        decreases screens@.len() - i,
    {
        if screens[i].screen_id == *id {
            return true;
        }
        i = i + 1;
    }
    false
}

/// Some identifier of `ids` is `id`.
pub open spec fn names(ids: Seq<ScreenId>, id: Seq<char>) -> bool {
    exists|t: int| 0 <= t < ids.len() && (#[trigger] ids[t])@ == id
}

/// Whether some identifier of `ids` equals `id`.
pub fn contains_id(ids: &Vec<ScreenId>, id: &ScreenId) -> (found: bool)
    ensures
        found == names(ids@, id@),
{
    let mut i: usize = 0;
    while i < ids.len()
        invariant
            i <= ids@.len(),
            forall|j: int| 0 <= j < i ==> (#[trigger] ids@[j])@ != id@,
        decreases ids@.len() - i,
    {
        if ids[i] == *id {
            return true;
        }
        i = i + 1;
    }
    false
}

/// The three ways of asking for wallpapers to be set.
#[derive(Debug, Clone, PartialEq, Eq)]
pub enum WallpaperSetRequest {
    ApplyToScreen(WallpaperAssignment),
    ApplyToAllScreens { image_path: String, options: WallpaperOptions },
    ApplyPerScreen(Vec<WallpaperAssignment>),
}

/// The failure of one screen within a batch.
#[derive(Debug, Clone, PartialEq, Eq)]
pub struct ScreenOperationError {
    pub screen_id: ScreenId,
    pub image_path: String,
    pub error_code: String,
    pub message: String,
}

/// Per-screen outcome of a batch: the screens that took their wallpaper, in
/// request order, and the failures, in request order.
#[derive(Debug, Clone, PartialEq, Eq)]
pub struct BatchSetReport {
    pub succeeded: Vec<ScreenId>,
    pub failed: Vec<ScreenOperationError>,
}

impl Default for BatchSetReport {
    fn default() -> (report: Self)
        ensures
            report.succeeded@.len() == 0,
            report.failed@.len() == 0,
    {
        BatchSetReport { succeeded: Vec::new(), failed: Vec::new() }
    }
}

impl BatchSetReport {
    /// A batch succeeded when no screen failed.
    pub fn is_success(&self) -> (ok: bool)
        ensures
            ok == (self.failed@.len() == 0),
    {
        self.failed.is_empty()
    }
}

} // verus!
