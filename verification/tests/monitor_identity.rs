use glazewm::geometry::Rect;
use glazewm::monitor::Monitor;
use glazewm::monitor_identity::{HomeMatch, MonitorIdentity};

fn bounds(x: i32) -> Rect {
    Rect::from_xy(x, 0, 1000, 800)
}

fn mock_layout(bounds: &[Rect]) -> Vec<Monitor> {
    bounds
        .iter()
        .enumerate()
        .map(|(index, rect)| Monitor {
            id: index as u128 + 1,
            device_name: format!("DISPLAY{index}"),
            device_path: None,
            bounds: *rect,
            workspace_area: *rect,
            workspaces: Vec::new(),
            focus_order: Vec::new(),
        })
        .collect()
}

#[test]
fn captures_position_within_layout() {
    let monitors = mock_layout(&[bounds(0), bounds(1000), bounds(2000)]);
    let identity = MonitorIdentity::of(&monitors, 1);

    assert_eq!(identity.index, 1);
    assert_eq!(identity.monitor_count, 3);
    assert_eq!(identity.bounds, bounds(1000));
}

#[test]
fn matches_by_bounds() {
    let old_layout = mock_layout(&[bounds(0), bounds(1000)]);
    let identity = MonitorIdentity::of(&old_layout, 1);

    // Same bounds at a different position and monitor count.
    let new_layout = mock_layout(&[bounds(-1000), bounds(0), bounds(1000)]);

    assert_eq!(identity.matches(&new_layout, 2), Some(HomeMatch::Bounds));
    assert_eq!(identity.matches(&new_layout, 1), None);
}

#[test]
fn matches_by_index_only_with_same_monitor_count() {
    let old_layout = mock_layout(&[bounds(0), bounds(1000)]);
    let identity = MonitorIdentity::of(&old_layout, 1);

    // Different resolutions, same monitor count.
    let same_count =
        mock_layout(&[Rect::from_xy(0, 0, 500, 400), Rect::from_xy(500, 0, 500, 400)]);
    assert_eq!(identity.matches(&same_count, 1), Some(HomeMatch::Index));
    assert_eq!(identity.matches(&same_count, 0), None);

    let other_count = mock_layout(&[
        Rect::from_xy(0, 0, 500, 400),
        Rect::from_xy(500, 0, 500, 400),
        Rect::from_xy(1000, 0, 500, 400),
    ]);
    assert_eq!(identity.matches(&other_count, 1), None);
}

#[test]
fn matches_by_device_path() {
    let device_path = r"\\?\DISPLAY#A#UID257".to_string();

    let mut old_layout = mock_layout(&[bounds(0), bounds(1000)]);
    old_layout[1].device_path = Some(device_path.clone());
    let identity = MonitorIdentity::of(&old_layout, 1);

    let mut new_layout = mock_layout(&[Rect::from_xy(0, 0, 500, 400)]);
    new_layout[0].device_path = Some(device_path);

    assert_eq!(identity.matches(&new_layout, 0), Some(HomeMatch::Device));

    // Missing device paths never match each other (and neither bounds nor position match here).
    let unknown =
        mock_layout(&[Rect::from_xy(0, 0, 640, 480), Rect::from_xy(640, 0, 640, 480)]);
    let identity = MonitorIdentity::of(&unknown, 1);
    assert_eq!(identity.matches(&new_layout, 0), None);
}

#[test]
fn same_device_at_same_bounds_is_the_strongest_match() {
    let device_path = r"\\?\DISPLAY#A#UID257".to_string();

    let mut old_layout = mock_layout(&[bounds(0), bounds(1000)]);
    old_layout[1].device_path = Some(device_path.clone());
    let identity = MonitorIdentity::of(&old_layout, 1);

    let mut new_layout = mock_layout(&[bounds(0), bounds(1000)]);
    new_layout[1].device_path = Some(device_path);

    assert_eq!(identity.matches(&new_layout, 1), Some(HomeMatch::DeviceAndBounds));
}

#[test]
fn bounds_beat_a_reassigned_device_path() {
    // An RDP session re-assigns its generic device paths on reconnect: the portrait monitor's
    // old path now belongs to the wide one.
    let portrait = Rect::from_xy(-1080, 0, 1080, 1920);
    let wide = Rect::from_xy(0, 0, 3840, 1600);
    let path_a = r"\\?\DISPLAY#Default_Monitor#UID258".to_string();
    let path_b = r"\\?\DISPLAY#Default_Monitor#UID259".to_string();

    let mut old_layout = mock_layout(&[portrait, wide]);
    old_layout[0].device_path = Some(path_a.clone());
    let identity = MonitorIdentity::of(&old_layout, 0);

    let mut new_layout = mock_layout(&[portrait, wide]);
    new_layout[0].device_path = Some(path_b);
    new_layout[1].device_path = Some(path_a);

    assert_eq!(identity.matches(&new_layout, 0), Some(HomeMatch::Bounds));
    assert_eq!(identity.matches(&new_layout, 1), Some(HomeMatch::Device));
    assert!(HomeMatch::Bounds > HomeMatch::Device);
}

#[test]
fn match_strength_is_ordered() {
    assert!(HomeMatch::DeviceAndBounds > HomeMatch::Bounds);
    assert!(HomeMatch::Bounds > HomeMatch::Device);
    assert!(HomeMatch::Device > HomeMatch::Index);

    assert!(HomeMatch::DeviceAndBounds.strength() > HomeMatch::Bounds.strength());
    assert!(HomeMatch::Bounds.strength() > HomeMatch::Device.strength());
    assert!(HomeMatch::Device.strength() > HomeMatch::Index.strength());
}

#[test]
fn monitor_matches_its_own_identity() {
    let mut layout = mock_layout(&[bounds(0), bounds(1000)]);
    layout[0].device_path = Some("a".to_string());

    assert_eq!(
        MonitorIdentity::of(&layout, 0).matches(&layout, 0),
        Some(HomeMatch::DeviceAndBounds)
    );
    assert_eq!(MonitorIdentity::of(&layout, 1).matches(&layout, 1), Some(HomeMatch::Bounds));
}
