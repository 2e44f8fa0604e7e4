use std::collections::HashMap;

use glazewm::geometry::{Rect, TilingDirection};
use glazewm::monitor::Monitor;
use glazewm::monitor_identity::MonitorIdentity;
use glazewm::page_placement::assign_pages;
use glazewm::workspace::Workspace;
use glazewm::workspace_config::{MonitorSelector, WorkspaceConfig};

/// Monitor bounds of a 4-monitor layout.
fn bounds(index: usize) -> Rect {
    let x = i32::try_from(1000 * index).expect("Index fits.");
    Rect::from_xy(x, 0, 1000, 800)
}

/// Layouts get identifiers from different ranges, so that no two monitors share one.
fn mock_monitor_layout(first_id: u128, bounds: &[Rect]) -> Vec<Monitor> {
    bounds
        .iter()
        .enumerate()
        .map(|(index, rect)| Monitor {
            id: first_id + index as u128,
            device_name: format!("DISPLAY{index}"),
            device_path: None,
            bounds: *rect,
            workspace_area: *rect,
            workspaces: Vec::new(),
            focus_order: Vec::new(),
        })
        .collect()
}

/// Mocks an instance of spanning group `1` attached to `host`, with the given home (`None` for an
/// extra screen without a home) and page.
fn mock_instance(
    name: &str,
    host: &Monitor,
    home: Option<(&[Monitor], usize)>,
    page: usize,
) -> Workspace {
    let config = WorkspaceConfig {
        name: name.to_string(),
        display_name: None,
        bind_to_monitor: None,
        keep_alive: false,
        monitors: Some(MonitorSelector::All),
        spanning_group: Some("1".to_string()),
        spanning_page: page,
    };
    let id = name.bytes().fold(0, |id, byte| id * 256 + u128::from(byte));
    let mut workspace = Workspace::new(id, config, TilingDirection::Horizontal);
    workspace.monitor = Some(host.id);
    workspace.home = home.map(|(layout, index)| MonitorIdentity::of(layout, index));
    workspace
}

/// Placements keyed by workspace name: (monitor index, page, `is_home`).
fn placements_by_name(
    instances: &[Workspace],
    monitors: &[Monitor],
) -> HashMap<String, (usize, usize, bool)> {
    let borrowed = instances.iter().collect::<Vec<_>>();

    assign_pages(&borrowed, monitors)
        .into_iter()
        .map(|placement| {
            let instance = &instances[placement.instance];
            assert_eq!(placement.workspace, instance.id);

            (
                instance.config.name.clone(),
                (placement.monitor, placement.page, placement.is_home),
            )
        })
        .collect()
}

#[test]
fn full_layout_keeps_every_instance_at_home() {
    let monitors = mock_monitor_layout(1, &[bounds(0), bounds(1), bounds(2)]);

    let instances = (0..3)
        .map(|i| mock_instance(&format!("s{i}"), &monitors[i], Some((&monitors, i)), 1))
        .collect::<Vec<_>>();

    let placements = placements_by_name(&instances, &monitors);

    assert_eq!(placements["s0"], (0, 1, true));
    assert_eq!(placements["s1"], (1, 1, true));
    assert_eq!(placements["s2"], (2, 1, true));
}

#[test]
fn disconnected_monitors_form_further_pages() {
    let old_layout = mock_monitor_layout(101, &[bounds(0), bounds(1), bounds(2), bounds(3)]);
    // Monitors 2 and 3 disconnected; their instances were parked on the first surviving monitor.
    let monitors = mock_monitor_layout(1, &[bounds(0), bounds(1)]);

    let instances = vec![
        mock_instance("s0", &monitors[0], Some((&old_layout, 0)), 1),
        mock_instance("s1", &monitors[1], Some((&old_layout, 1)), 1),
        mock_instance("s2", &monitors[0], Some((&old_layout, 2)), 1),
        mock_instance("s3", &monitors[0], Some((&old_layout, 3)), 1),
    ];

    let placements = placements_by_name(&instances, &monitors);

    assert_eq!(placements["s0"], (0, 1, true));
    assert_eq!(placements["s1"], (1, 1, true));
    assert_eq!(placements["s2"], (0, 2, false));
    assert_eq!(placements["s3"], (1, 2, false));
}

#[test]
fn reconnected_monitors_take_their_instances_back() {
    let old_layout = mock_monitor_layout(101, &[bounds(0), bounds(1), bounds(2), bounds(3)]);
    let reduced_layout = mock_monitor_layout(201, &[bounds(0), bounds(1)]);
    let monitors = mock_monitor_layout(1, &[bounds(0), bounds(1), bounds(2), bounds(3)]);

    // Homes of the first two instances were refreshed while the layout was reduced; the paged
    // instances kept their original homes.
    let instances = vec![
        mock_instance("s0", &monitors[0], Some((&reduced_layout, 0)), 1),
        mock_instance("s1", &monitors[1], Some((&reduced_layout, 1)), 1),
        mock_instance("s2", &monitors[0], Some((&old_layout, 2)), 2),
        mock_instance("s3", &monitors[1], Some((&old_layout, 3)), 2),
    ];

    let placements = placements_by_name(&instances, &monitors);

    for (name, index) in [("s0", 0), ("s1", 1), ("s2", 2), ("s3", 3)] {
        assert_eq!(placements[name], (index, 1, true), "{name}");
    }
}

#[test]
fn unknown_monitors_are_filled_by_position() {
    // Same monitor count but entirely different monitors (e.g. an RDP session): instances match
    // by position only.
    let old_layout = mock_monitor_layout(101, &[bounds(0), bounds(1), bounds(2), bounds(3)]);
    let monitors = mock_monitor_layout(
        1,
        &[
            Rect::from_xy(0, 0, 500, 400),
            Rect::from_xy(500, 0, 500, 400),
            Rect::from_xy(1000, 0, 500, 400),
            Rect::from_xy(1500, 0, 500, 400),
        ],
    );

    let instances = vec![
        mock_instance("s0", &monitors[0], Some((&old_layout, 0)), 1),
        mock_instance("s1", &monitors[1], Some((&old_layout, 1)), 1),
        mock_instance("s2", &monitors[0], Some((&old_layout, 2)), 2),
        mock_instance("s3", &monitors[1], Some((&old_layout, 3)), 2),
    ];

    let placements = placements_by_name(&instances, &monitors);

    for (name, index) in [("s0", 0), ("s1", 1), ("s2", 2), ("s3", 3)] {
        assert_eq!(placements[name], (index, 1, true), "{name}");
    }
}

#[test]
fn fewer_unknown_monitors_page_by_home_position() {
    let old_layout = mock_monitor_layout(101, &[bounds(0), bounds(1), bounds(2), bounds(3)]);
    let monitors = mock_monitor_layout(
        1,
        &[Rect::from_xy(0, 0, 500, 400), Rect::from_xy(500, 0, 500, 400)],
    );

    // Parked in arbitrary order on the surviving monitors.
    let instances = vec![
        mock_instance("s3", &monitors[0], Some((&old_layout, 3)), 1),
        mock_instance("s1", &monitors[1], Some((&old_layout, 1)), 1),
        mock_instance("s0", &monitors[0], Some((&old_layout, 0)), 1),
        mock_instance("s2", &monitors[1], Some((&old_layout, 2)), 1),
    ];

    let placements = placements_by_name(&instances, &monitors);

    assert_eq!(placements["s0"], (0, 1, false));
    assert_eq!(placements["s1"], (1, 1, false));
    assert_eq!(placements["s2"], (0, 2, false));
    assert_eq!(placements["s3"], (1, 2, false));
}

#[test]
fn pages_are_repacked_after_a_transient_layout() {
    let old_layout = mock_monitor_layout(101, &[bounds(0), bounds(1), bounds(2), bounds(3)]);
    let monitors = mock_monitor_layout(1, &[bounds(0), bounds(1)]);

    // While only monitor 0 was connected, every instance needed its own page. With monitor 1
    // back, the pages are packed again instead of keeping one half-empty page per instance.
    let instances = vec![
        mock_instance("s0", &monitors[0], Some((&old_layout, 0)), 1),
        mock_instance("s1", &monitors[1], Some((&old_layout, 1)), 1),
        mock_instance("s2", &monitors[0], Some((&old_layout, 2)), 2),
        mock_instance("s3", &monitors[0], Some((&old_layout, 3)), 3),
    ];

    let placements = placements_by_name(&instances, &monitors);

    assert_eq!(placements["s0"], (0, 1, true));
    assert_eq!(placements["s1"], (1, 1, true));
    assert_eq!(placements["s2"], (0, 2, false));
    assert_eq!(placements["s3"], (1, 2, false));
}

#[test]
fn page_numbers_are_compacted() {
    let old_layout = mock_monitor_layout(101, &[bounds(0), bounds(1), bounds(2), bounds(3)]);
    let monitors = mock_monitor_layout(1, &[bounds(0), bounds(1)]);

    // Page 2 was emptied and destroyed; page 3 moves up.
    let instances = vec![
        mock_instance("s0", &monitors[0], Some((&old_layout, 0)), 1),
        mock_instance("s1", &monitors[1], Some((&old_layout, 1)), 1),
        mock_instance("s3", &monitors[1], Some((&old_layout, 3)), 3),
    ];

    let placements = placements_by_name(&instances, &monitors);

    assert_eq!(placements["s3"], (0, 2, false));
}

#[test]
fn conflicting_claims_prefer_the_current_host() {
    let old_layout = mock_monitor_layout(101, &[bounds(0), bounds(1)]);
    let monitors = mock_monitor_layout(1, &[bounds(0), bounds(1)]);

    // Both instances match monitor 0 by bounds equally well.
    let instances = vec![
        mock_instance("a", &monitors[1], Some((&old_layout, 0)), 1),
        mock_instance("b", &monitors[0], Some((&old_layout, 0)), 1),
    ];

    let placements = placements_by_name(&instances, &monitors);

    assert_eq!(placements["b"], (0, 1, true));
    assert_eq!(placements["a"], (1, 1, false));
}

#[test]
fn extra_screens_never_claim_a_home_slot() {
    let monitors = mock_monitor_layout(1, &[bounds(0), bounds(1)]);

    // Monitor 1 came back: its own screen `s1` was parked on monitor 0, while an extra screen `x`
    // (created on a further page while monitor 1 hosted it) has no home and must not take
    // monitor 1's first page.
    let instances = vec![
        mock_instance("x", &monitors[1], None, 3),
        mock_instance("s0", &monitors[0], Some((&monitors, 0)), 1),
        mock_instance("s1", &monitors[0], Some((&monitors, 1)), 1),
    ];

    let placements = placements_by_name(&instances, &monitors);

    assert_eq!(placements["s0"], (0, 1, true));
    assert_eq!(placements["s1"], (1, 1, true));
    assert_eq!(placements["x"], (0, 2, false));
}

#[test]
fn extra_screens_follow_screens_of_disconnected_monitors() {
    let old_layout = mock_monitor_layout(101, &[bounds(0), bounds(1), bounds(2), bounds(3)]);
    let monitors = mock_monitor_layout(1, &[bounds(0), bounds(1)]);

    let instances = vec![
        mock_instance("s0", &monitors[0], Some((&old_layout, 0)), 1),
        mock_instance("s1", &monitors[1], Some((&old_layout, 1)), 1),
        mock_instance("x", &monitors[1], None, 2),
        mock_instance("y", &monitors[0], None, 3),
        mock_instance("s3", &monitors[0], Some((&old_layout, 3)), 4),
    ];

    let placements = placements_by_name(&instances, &monitors);

    assert_eq!(placements["s3"], (0, 2, false));
    assert_eq!(placements["x"], (1, 2, false));
    assert_eq!(placements["y"], (0, 3, false));
}

#[test]
fn extra_screens_fill_free_first_page_slots() {
    let monitors = mock_monitor_layout(1, &[bounds(0), bounds(1)]);

    // A monitor without a screen of its own takes the extra screen.
    let instances = vec![
        mock_instance("s0", &monitors[0], Some((&monitors, 0)), 1),
        mock_instance("x", &monitors[0], None, 2),
    ];

    let placements = placements_by_name(&instances, &monitors);

    assert_eq!(placements["s0"], (0, 1, true));
    assert_eq!(placements["x"], (1, 1, false));
}

#[test]
fn instances_without_home_are_treated_as_orphans() {
    let monitors = mock_monitor_layout(1, &[bounds(0)]);

    let workspace = mock_instance("x", &monitors[0], None, 1);

    let placements = placements_by_name(&[workspace], &monitors);

    assert_eq!(placements["x"], (0, 1, false));
}

#[test]
fn nothing_is_placed_without_monitors() {
    let monitors = mock_monitor_layout(1, &[bounds(0)]);
    let workspace = mock_instance("x", &monitors[0], None, 1);

    assert!(placements_by_name(&[workspace], &[]).is_empty());
    assert!(placements_by_name(&[], &monitors).is_empty());
}

#[test]
fn assigning_pages_again_changes_nothing() {
    let old_layout = mock_monitor_layout(101, &[bounds(0), bounds(1), bounds(2), bounds(3)]);
    let monitors = mock_monitor_layout(1, &[bounds(0), bounds(1)]);

    let mut instances = vec![
        mock_instance("s3", &monitors[0], Some((&old_layout, 3)), 1),
        mock_instance("x", &monitors[1], None, 2),
        mock_instance("s0", &monitors[1], Some((&old_layout, 0)), 1),
        mock_instance("y", &monitors[0], None, 2),
        mock_instance("s2", &monitors[1], Some((&old_layout, 2)), 1),
    ];

    let first = placements_by_name(&instances, &monitors);

    for instance in &mut instances {
        let (monitor, page, is_home) = first[&instance.config.name];
        instance.monitor = Some(monitors[monitor].id);
        instance.config.spanning_page = page;
        if is_home {
            instance.home = Some(MonitorIdentity::of(&monitors, monitor));
        }
    }
    instances.reverse();

    assert_eq!(placements_by_name(&instances, &monitors), first);
}

#[test]
fn every_slot_is_filled_once_and_without_gaps() {
    let old_layout = mock_monitor_layout(101, &[bounds(0), bounds(1), bounds(2), bounds(3)]);
    let monitors = mock_monitor_layout(1, &[bounds(1), bounds(2), bounds(3)]);

    let mut instances = (0..4)
        .map(|i| mock_instance(&format!("s{i}"), &monitors[0], Some((&old_layout, i)), 1))
        .collect::<Vec<_>>();
    for i in 0..4 {
        instances.push(mock_instance(&format!("x{i}"), &monitors[i % 3], None, 2 + i / 3));
    }

    let placements = placements_by_name(&instances, &monitors);
    let mut slots = placements
        .values()
        .map(|&(monitor, page, _)| (page, monitor))
        .collect::<Vec<_>>();
    slots.sort();

    assert_eq!(
        slots,
        vec![(1, 0), (1, 1), (1, 2), (2, 0), (2, 1), (2, 2), (3, 0), (3, 1)]
    );
    assert_eq!(placements["s1"], (0, 1, true));
    assert_eq!(placements["s0"], (0, 2, false));
}

#[test]
fn hosts_and_pages_do_not_matter_without_ties() {
    let old_layout = mock_monitor_layout(101, &[bounds(0), bounds(1), bounds(2), bounds(3)]);
    let monitors = mock_monitor_layout(1, &[bounds(0), bounds(1)]);
    let instances = |host: usize, page: usize| {
        (0..4)
            .map(|i| {
                mock_instance(&format!("s{i}"), &monitors[host], Some((&old_layout, i)), page)
            })
            .collect::<Vec<_>>()
    };

    assert_eq!(
        placements_by_name(&instances(0, 1), &monitors),
        placements_by_name(&instances(1, 7), &monitors)
    );
}

#[test]
fn order_of_instances_does_not_matter_without_ties() {
    let old_layout = mock_monitor_layout(101, &[bounds(0), bounds(1), bounds(2), bounds(3)]);
    let monitors = mock_monitor_layout(1, &[bounds(0), bounds(3)]);
    let listed = |order: [usize; 4], host: usize, page: usize| {
        order
            .iter()
            .map(|&i| {
                mock_instance(&format!("s{i}"), &monitors[host], Some((&old_layout, i)), page)
            })
            .collect::<Vec<_>>()
    };

    let placements = placements_by_name(&listed([0, 1, 2, 3], 0, 1), &monitors);
    assert_eq!(placements["s0"], (0, 1, true));
    assert_eq!(placements["s1"], (0, 2, false));
    assert_eq!(placements["s2"], (1, 2, false));
    assert_eq!(placements["s3"], (1, 1, true));

    assert_eq!(placements_by_name(&listed([3, 1, 0, 2], 1, 4), &monitors), placements);
    assert_eq!(placements_by_name(&listed([2, 3, 1, 0], 0, 2), &monitors), placements);
}
