use wallpaper_manager::display_watcher::diff_screens;
use wallpaper_manager::{
    DisplayChangeEvent, DisplayFingerprint, DisplayWatcher, ScreenDescriptor, ScreenFrame, ScreenId,
    ScreenMatchQuality, ScreenSize, SnapshotDisplayWatcher,
};

fn screen(id: &str, quality: ScreenMatchQuality, serial_number: Option<u32>) -> ScreenDescriptor {
    ScreenDescriptor {
        screen_id: ScreenId::new(id),
        localized_name: id.to_string(),
        is_builtin: id.contains("main"),
        is_primary: id.contains("main"),
        frame: ScreenFrame { x: 0, y: 0, width: 1920, height: 1080 },
        native_size: ScreenSize { width: 1920, height: 1080 },
        vendor_id: Some(1),
        model_id: Some(2),
        serial_number,
        fingerprint: DisplayFingerprint {
            vendor_id: Some(1),
            model_id: Some(2),
            serial_number,
            is_builtin: id.contains("main"),
        },
        match_quality: quality,
    }
}

#[test]
fn watcher_emits_reidentify_and_ambiguous_events() {
    let mut watcher = SnapshotDisplayWatcher::new();
    watcher.push_snapshot(vec![screen("old-main", ScreenMatchQuality::Exact, Some(100))]);
    assert!(watcher.poll_changes().is_empty());

    watcher.push_snapshot(vec![
        screen("new-main", ScreenMatchQuality::Exact, Some(100)),
        screen("unclear", ScreenMatchQuality::Ambiguous, Some(200)),
    ]);

    let events = watcher.poll_changes();

    assert!(events.contains(&DisplayChangeEvent::ScreenReidentified {
        from: ScreenId::new("old-main"),
        to: ScreenId::new("new-main"),
    }));
    assert!(events.contains(&DisplayChangeEvent::ScreenAmbiguous(ScreenId::new("unclear"))));
}

#[test]
fn watcher_reports_changes_in_order() {
    let mut watcher = SnapshotDisplayWatcher::default();
    watcher.push_snapshot(vec![
        screen("old-main", ScreenMatchQuality::Exact, Some(100)),
        screen("desk", ScreenMatchQuality::Exact, Some(300)),
    ]);
    watcher.push_snapshot(vec![
        screen("unclear", ScreenMatchQuality::Ambiguous, Some(200)),
        screen("new-main", ScreenMatchQuality::Exact, Some(100)),
    ]);

    assert_eq!(
        watcher.poll_changes(),
        vec![
            DisplayChangeEvent::ScreenAmbiguous(ScreenId::new("unclear")),
            DisplayChangeEvent::ScreenAdded(ScreenId::new("unclear")),
            DisplayChangeEvent::ScreenReidentified {
                from: ScreenId::new("old-main"),
                to: ScreenId::new("new-main"),
            },
            DisplayChangeEvent::ScreenRemoved(ScreenId::new("desk")),
        ]
    );
}

#[test]
fn watcher_poll_forgets_changes() {
    let mut watcher = SnapshotDisplayWatcher::new();
    watcher.push_snapshot(vec![screen("a", ScreenMatchQuality::Exact, Some(1))]);
    watcher.push_snapshot(vec![screen("b", ScreenMatchQuality::Exact, Some(2))]);
    assert_eq!(
        watcher.poll_changes(),
        vec![
            DisplayChangeEvent::ScreenAdded(ScreenId::new("b")),
            DisplayChangeEvent::ScreenRemoved(ScreenId::new("a")),
        ]
    );
    assert!(watcher.poll_changes().is_empty());
}

#[test]
fn watcher_unchanged_topology_reports_only_ambiguity() {
    let mut watcher = SnapshotDisplayWatcher::new();
    let snapshot = vec![
        screen("main", ScreenMatchQuality::Exact, Some(1)),
        screen("twin", ScreenMatchQuality::Ambiguous, None),
    ];
    watcher.push_snapshot(snapshot.clone());
    watcher.push_snapshot(snapshot);
    assert_eq!(
        watcher.poll_changes(),
        vec![DisplayChangeEvent::ScreenAmbiguous(ScreenId::new("twin"))]
    );
}

#[test]
fn diff_of_same_snapshot_lists_only_ambiguous_screens() {
    let snapshot = vec![
        screen("main", ScreenMatchQuality::Exact, Some(1)),
        screen("twin", ScreenMatchQuality::Ambiguous, None),
        screen("other-twin", ScreenMatchQuality::Ambiguous, None),
    ];
    assert_eq!(
        diff_screens(&snapshot, &snapshot),
        vec![
            DisplayChangeEvent::ScreenAmbiguous(ScreenId::new("twin")),
            DisplayChangeEvent::ScreenAmbiguous(ScreenId::new("other-twin")),
        ]
    );
    let exact = vec![screen("main", ScreenMatchQuality::Exact, Some(1))];
    assert!(diff_screens(&exact, &exact).is_empty());
}

#[test]
fn diff_does_not_depend_on_current_order() {
    let previous = vec![
        screen("old-main", ScreenMatchQuality::Exact, Some(100)),
        screen("desk", ScreenMatchQuality::Exact, Some(300)),
    ];
    let current = vec![
        screen("unclear", ScreenMatchQuality::Ambiguous, Some(200)),
        screen("new-main", ScreenMatchQuality::Exact, Some(100)),
        screen("fresh", ScreenMatchQuality::Exact, Some(400)),
    ];
    let reordered = vec![current[2].clone(), current[1].clone(), current[0].clone()];
    let first = diff_screens(&previous, &current);
    let second = diff_screens(&previous, &reordered);
    assert_eq!(first.len(), 5);
    assert_eq!(first.len(), second.len());
    for event in &first {
        let in_first = first.iter().filter(|e| *e == event).count();
        let in_second = second.iter().filter(|e| *e == event).count();
        assert_eq!(in_first, in_second);
    }
}
