use logic_sim::settings::{
    default_fullscreen_mode, default_resolution_x, default_resolution_y, default_vsync, AppSettings, FullScreenMode, JsonAppSettings,
};
use logic_sim::version::{dls_version, dls_version_earliest_compatible, Version};

#[test]
fn versions_print_and_parse_back() {
    assert_eq!(dls_version().to_string(), "2.1.6");
    assert_eq!(dls_version_earliest_compatible().to_string(), "2.0.0");
    assert_eq!(Version::parse("2.1.6"), Ok(Version::new(2, 1, 6)));
    assert_eq!(Version::parse(" 2 . 1 .+6"), Ok(Version::new(2, 1, 6)));
    assert!(Version::parse("2.1").is_err());
    assert!(Version::parse("2.1.6.0").is_err());
    assert!(Version::parse("2.x.6").is_err());
    assert!(Version::parse("2..6").is_err());
    assert!(Version::parse("4294967296.0.0").is_err());
    assert_eq!(Version::try_parse("garbage"), None);
    let v = Version::new(4294967295, 0, 12);
    assert_eq!(Version::parse(&v.to_string()), Ok(v));
}

#[test]
fn versions_order_by_major_minor_then_patch() {
    assert!(Version::new(2, 1, 4).is_at_most(&Version::new(2, 1, 4)));
    assert!(Version::new(2, 0, 9).is_at_most(&Version::new(2, 1, 0)));
    assert!(!Version::new(3, 0, 0).is_at_most(&Version::new(2, 9, 9)));
    assert_eq!(Version::new(2, 1, 6).to_int(), 201_006);
}

#[test]
fn fullscreen_modes_round_trip_through_their_numbers() {
    for m in [FullScreenMode::ExclusiveFullScreen, FullScreenMode::FullScreenWindow, FullScreenMode::MaximizedWindow, FullScreenMode::Windowed] {
        assert_eq!(FullScreenMode::from_int(m.to_int()), m);
    }
    assert_eq!(FullScreenMode::from_int(2), FullScreenMode::FullScreenWindow, "there is no mode 2");
    assert_eq!(FullScreenMode::from_int(-5), FullScreenMode::FullScreenWindow);
}

#[test]
fn settings_defaults_and_their_on_disk_shape() {
    let s = AppSettings::default_settings();
    assert_eq!((s.resolution_x, s.resolution_y), (default_resolution_x(), default_resolution_y()));
    assert_eq!(s.fullscreen_mode.to_int(), default_fullscreen_mode());
    assert_eq!(s.vsync_enabled, default_vsync());
    assert_eq!(AppSettings::default(), s);
    let on_disk = JsonAppSettings::from(s);
    assert_eq!(on_disk.fullscreen_mode, s.fullscreen_mode.to_int());
    assert_eq!(AppSettings::from(on_disk), s);
    let odd = JsonAppSettings { resolution_x: 640, resolution_y: 480, fullscreen_mode: 2, vsync_enabled: false };
    assert_eq!(AppSettings::from(odd).fullscreen_mode, FullScreenMode::FullScreenWindow);
}

#[test]
fn the_packed_integer_orders_versions_like_the_versions() {
    assert_eq!(Version::new(2, 1, 6).to_int(), 201_006);
    let list = [Version::new(1, 99, 999), Version::new(2, 0, 0), Version::new(2, 0, 1), Version::new(2, 1, 0), Version::new(3, 0, 0)];
    for a in list {
        for b in list {
            assert_eq!(a.is_at_most(&b), a.to_int() <= b.to_int());
            assert_eq!(a == b, a.to_int() == b.to_int());
        }
    }
}
