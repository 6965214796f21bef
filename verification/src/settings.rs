//! Application-level settings (window resolution, fullscreen mode, vsync),
//! saved as `AppSettings.json` in the data directory: the persisted values
//! plus their on-disk shape.
use vstd::prelude::*;

verus! {

/// The windowing modes, with the integer values used on disk (there is no
/// mode 2).
#[derive(Debug, Clone, Copy, PartialEq, Eq, Structural, Hash)]
pub enum FullScreenMode {
    ExclusiveFullScreen,
    FullScreenWindow,
    MaximizedWindow,
    Windowed,
}

/// On-disk integer of each mode.
pub open spec fn mode_int(m: FullScreenMode) -> i32 {
    match m {
        FullScreenMode::ExclusiveFullScreen => 0,
        FullScreenMode::FullScreenWindow => 1,
        FullScreenMode::MaximizedWindow => 3,
        FullScreenMode::Windowed => 4,
    }
}

/// The mode an on-disk integer denotes; unknown values read as the default
/// mode, `FullScreenWindow`.
pub open spec fn mode_of_int(v: i32) -> FullScreenMode {
    if v == 0 {
        FullScreenMode::ExclusiveFullScreen
    } else if v == 3 {
        FullScreenMode::MaximizedWindow
    } else if v == 4 {
        FullScreenMode::Windowed
    } else {
        FullScreenMode::FullScreenWindow
    }
}

impl FullScreenMode {
    /// The integer representation used on disk.
    pub fn to_int(&self) -> (r: i32)
        ensures
            r == mode_int(*self),
    {
        match self {
            FullScreenMode::ExclusiveFullScreen => 0,
            FullScreenMode::FullScreenWindow => 1,
            FullScreenMode::MaximizedWindow => 3,
            FullScreenMode::Windowed => 4,
        }
    }

    /// The mode of an on-disk integer; unknown values fall back to the
    /// default mode.
    pub fn from_int(v: i32) -> (m: Self)
        ensures
            m == mode_of_int(v),
    {
        if v == 0 {
            FullScreenMode::ExclusiveFullScreen
        } else if v == 3 {
            FullScreenMode::MaximizedWindow
        } else if v == 4 {
            FullScreenMode::Windowed
        } else {
            FullScreenMode::FullScreenWindow
        }
    }
}

impl Default for FullScreenMode {
    fn default() -> (m: Self)
        ensures
            m == FullScreenMode::FullScreenWindow,
    {
        FullScreenMode::FullScreenWindow
    }
}

/// Reading back the integer of a mode gives the mode.
pub proof fn lemma_mode_int_round_trip(m: FullScreenMode)
    ensures
        mode_of_int(mode_int(m)) == m,
{
}

#[derive(Debug, Clone, Copy, PartialEq, Eq, Structural)]
pub struct AppSettings {
    pub resolution_x: i32,
    pub resolution_y: i32,
    pub fullscreen_mode: FullScreenMode,
    pub vsync_enabled: bool,
}

/// 1920x1080, borderless fullscreen window, vsync on.
pub open spec fn default_app_settings() -> AppSettings {
    AppSettings {
        resolution_x: 1920,
        resolution_y: 1080,
        fullscreen_mode: FullScreenMode::FullScreenWindow,
        vsync_enabled: true,
    }
}

impl AppSettings {
    /// The settings used before any have been saved.
    pub fn default_settings() -> (s: Self)
        ensures
            s == default_app_settings(),
    {
        Self {
            resolution_x: 1920,
            resolution_y: 1080,
            fullscreen_mode: FullScreenMode::FullScreenWindow,
            vsync_enabled: true,
        }
    }
}

impl Default for AppSettings {
    fn default() -> (s: Self)
        ensures
            s == default_app_settings(),
    {
        Self::default_settings()
    }
}

/// On-disk shape of `AppSettings.json`: the mode is kept as its integer.
#[derive(Debug, Clone, Copy, PartialEq, Eq, Structural)]
pub struct JsonAppSettings {
    pub resolution_x: i32,
    pub resolution_y: i32,
    pub fullscreen_mode: i32,
    pub vsync_enabled: bool,
}

/// Value of `ResolutionX` when the file has none.
pub fn default_resolution_x() -> (r: i32)
    ensures
        r == 1920,
{
    1920
}

/// Value of `ResolutionY` when the file has none.
pub fn default_resolution_y() -> (r: i32)
    ensures
        r == 1080,
{
    1080
}

/// Value of `fullscreenMode` when the file has none.
pub fn default_fullscreen_mode() -> (r: i32)
    ensures
        r == mode_int(FullScreenMode::FullScreenWindow),
{
    FullScreenMode::FullScreenWindow.to_int()
}

/// Value of `VSyncEnabled` when the file has none.
pub fn default_vsync() -> (r: bool)
    ensures
        r,
{
    true
}

/// The on-disk shape of `s`.
pub open spec fn json_of(s: AppSettings) -> JsonAppSettings {
    JsonAppSettings {
        resolution_x: s.resolution_x,
        resolution_y: s.resolution_y,
        fullscreen_mode: mode_int(s.fullscreen_mode),
        vsync_enabled: s.vsync_enabled,
    }
}

/// The settings an on-disk record denotes.
pub open spec fn settings_of(j: JsonAppSettings) -> AppSettings {
    AppSettings {
        resolution_x: j.resolution_x,
        resolution_y: j.resolution_y,
        fullscreen_mode: mode_of_int(j.fullscreen_mode),
        vsync_enabled: j.vsync_enabled,
    }
}

impl From<AppSettings> for JsonAppSettings {
    fn from(s: AppSettings) -> (j: Self) {
        JsonAppSettings {
            resolution_x: s.resolution_x,
            resolution_y: s.resolution_y,
            fullscreen_mode: s.fullscreen_mode.to_int(),
            vsync_enabled: s.vsync_enabled,
        }
    }
}

impl vstd::std_specs::convert::FromSpecImpl<AppSettings> for JsonAppSettings {
    open spec fn obeys_from_spec() -> bool {
        true
    }

    open spec fn from_spec(s: AppSettings) -> Self {
        json_of(s)
    }
}

impl From<JsonAppSettings> for AppSettings {
    fn from(j: JsonAppSettings) -> (s: Self) {
        AppSettings {
            resolution_x: j.resolution_x,
            resolution_y: j.resolution_y,
            fullscreen_mode: FullScreenMode::from_int(j.fullscreen_mode),
            vsync_enabled: j.vsync_enabled,
        }
    }
}

impl vstd::std_specs::convert::FromSpecImpl<JsonAppSettings> for AppSettings {
    open spec fn obeys_from_spec() -> bool {
        true
    }

    open spec fn from_spec(j: JsonAppSettings) -> Self {
        settings_of(j)
    }
}

/// Settings survive being written in their on-disk shape and read back.
pub proof fn lemma_settings_round_trip(s: AppSettings)
    ensures
        settings_of(json_of(s)) == s,
{
    lemma_mode_int_round_trip(s.fullscreen_mode);
}

} // verus!
