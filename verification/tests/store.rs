use wallpaper_manager::{
    DisplayFingerprint, ScreenDescriptor, ScreenFrame, ScreenId, ScreenMatchQuality, ScreenSize,
    WallpaperOptions, WallpaperState, WallpaperStateStore,
};

fn screen(id: &str) -> ScreenDescriptor {
    ScreenDescriptor {
        screen_id: ScreenId::new(id),
        localized_name: format!("Display {id}"),
        is_builtin: false,
        is_primary: false,
        frame: ScreenFrame { x: -1920, y: 0, width: 1920, height: 1080 },
        native_size: ScreenSize { width: 3840, height: 2160 },
        vendor_id: None,
        model_id: None,
        serial_number: None,
        fingerprint: DisplayFingerprint {
            vendor_id: None,
            model_id: None,
            serial_number: None,
            is_builtin: false,
        },
        match_quality: ScreenMatchQuality::Fuzzy,
    }
}

fn state(id: &str, path: Option<&str>) -> WallpaperState {
    WallpaperState {
        screen_id: ScreenId::new(id),
        image_path: path.map(|p| p.to_string()),
        options: WallpaperOptions::default(),
    }
}

#[test]
fn store_starts_empty() {
    let store = WallpaperStateStore::new();
    assert!(store.snapshot().screens.is_empty());
    assert!(store.snapshot().wallpapers.is_empty());
    assert!(store.get_state(&ScreenId::new("main")).is_none());
    assert!(!store.contains_screen(&ScreenId::new("main")));
}

#[test]
fn store_replace_then_lookup() {
    let mut store = WallpaperStateStore::new();
    store.replace(
        vec![screen("left"), screen("right")],
        vec![state("left", Some("a.png")), state("right", None), state("left", Some("b.png"))],
    );
    assert_eq!(store.screens().len(), 2);
    assert!(store.contains_screen(&ScreenId::new("right")));
    assert_eq!(store.get_screen(&ScreenId::new("left")), Some(&screen("left")));
    assert!(store.get_screen(&ScreenId::new("middle")).is_none());
    assert_eq!(store.get_state(&ScreenId::new("left")), Some(&state("left", Some("b.png"))));
    assert_eq!(store.snapshot().wallpapers.len(), 3);
}

#[test]
fn store_upsert_then_get() {
    let mut store = WallpaperStateStore::new();
    store.replace(vec![screen("left")], vec![state("left", None)]);
    store.upsert_state(state("left", Some("new.png")));
    store.upsert_state(state("right", Some("other.png")));
    assert_eq!(store.get_state(&ScreenId::new("left")), Some(&state("left", Some("new.png"))));
    assert_eq!(store.get_state(&ScreenId::new("right")), Some(&state("right", Some("other.png"))));
    assert_eq!(
        store.snapshot().wallpapers,
        vec![state("left", Some("new.png")), state("right", Some("other.png"))]
    );
    assert!(!store.contains_screen(&ScreenId::new("right")));
}

#[test]
fn store_latest_read_wins() {
    let mut store = WallpaperStateStore::new();
    store.upsert_state(state("left", Some("first.png")));
    store.upsert_state(state("left", Some("second.png")));
    assert_eq!(store.snapshot().wallpapers, vec![state("left", Some("second.png"))]);
    assert_eq!(store.get_state(&ScreenId::new("left")), Some(&state("left", Some("second.png"))));
}

#[test]
fn store_replace_states_keeps_screens() {
    let mut store = WallpaperStateStore::new();
    store.replace(vec![screen("left")], vec![state("left", None)]);
    store.replace_states(vec![state("right", Some("r.png"))]);
    assert!(store.contains_screen(&ScreenId::new("left")));
    assert!(store.get_state(&ScreenId::new("left")).is_none());
    assert_eq!(store.get_state(&ScreenId::new("right")), Some(&state("right", Some("r.png"))));
    let copy = store.clone();
    assert_eq!(copy.snapshot().wallpapers, store.snapshot().wallpapers);
}

#[test]
fn store_screens_survive_state_reads() {
    let mut store = WallpaperStateStore::new();
    let mut second_left = screen("left");
    second_left.localized_name = "Left again".to_string();
    store.replace(
        vec![screen("left"), screen("right"), second_left.clone()],
        vec![state("left", None)],
    );
    store.upsert_state(state("left", Some("a.png")));
    store.replace_states(vec![state("right", Some("r.png"))]);
    store.upsert_state(state("middle", Some("m.png")));
    assert!(store.contains_screen(&ScreenId::new("left")));
    assert!(store.contains_screen(&ScreenId::new("right")));
    assert!(!store.contains_screen(&ScreenId::new("middle")));
    assert!(store.get_screen(&ScreenId::new("middle")).is_none());
    assert_eq!(store.get_screen(&ScreenId::new("left")), Some(&second_left));
    assert_eq!(store.screens().len(), 3);
}

#[test]
fn store_upsert_keeps_one_wallpaper_per_screen() {
    let mut store = WallpaperStateStore::new();
    store.replace(
        vec![screen("left"), screen("right")],
        vec![state("left", None), state("right", None)],
    );
    store.upsert_state(state("right", Some("r.png")));
    store.upsert_state(state("left", Some("l.png")));
    store.upsert_state(state("right", Some("r2.png")));
    let wallpapers = &store.snapshot().wallpapers;
    assert_eq!(wallpapers, &vec![state("left", Some("l.png")), state("right", Some("r2.png"))]);
    for wallpaper in wallpapers {
        assert_eq!(store.get_state(&wallpaper.screen_id), Some(wallpaper));
    }
}
