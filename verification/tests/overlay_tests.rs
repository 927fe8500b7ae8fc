use serpentines::monitor::{MonitorRect, MonitorSnapshot};
use serpentines::overlay::{snapshot_ids_unique, OverlayAction, OverlayTopology};

fn rect(x: i32, y: i32, width: i32, height: i32, dpi: u32) -> MonitorRect {
    MonitorRect { x, y, width, height, dpi }
}

fn snapshot(monitor_id: i64, r: MonitorRect) -> MonitorSnapshot {
    MonitorSnapshot { monitor_id, rect: r }
}

#[test]
fn empty_topology_plans_one_create_per_monitor() {
    let topology = OverlayTopology::new();
    let monitors = vec![
        snapshot(1, rect(0, 0, 1920, 1080, 96)),
        snapshot(2, rect(1920, 0, 800, 600, 120)),
    ];
    let plan = topology.plan_refresh(&monitors);
    assert_eq!(
        plan,
        vec![
            OverlayAction::Create { monitor_id: 1, rect: rect(0, 0, 1920, 1080, 96) },
            OverlayAction::Create { monitor_id: 2, rect: rect(1920, 0, 800, 600, 120) },
        ]
    );
}

#[test]
fn full_refresh_covers_every_monitor() {
    let mut topology = OverlayTopology::new();
    let monitors = vec![
        snapshot(1, rect(0, 0, 1920, 1080, 96)),
        snapshot(2, rect(1920, 0, 800, 600, 120)),
    ];
    let plan = topology.plan_refresh(&monitors);
    let mut next_handle = 100;
    for action in plan {
        match action {
            OverlayAction::Destroy { monitor_id, .. } => topology.note_destroyed(monitor_id),
            OverlayAction::Update { monitor_id, rect, .. } => topology.note_updated(monitor_id, rect),
            OverlayAction::Create { monitor_id, rect } => {
                topology.note_created(monitor_id, next_handle, rect);
                next_handle += 1;
            }
        }
    }
    topology.commit_layout(&monitors);
    assert_eq!(topology.overlay_count(), 2);
    assert!(topology.covers(1));
    assert!(topology.covers(2));
    assert!(!topology.covers(3));
    assert_eq!(topology.entry_at(0).window_handle, 100);
    assert_eq!(topology.entry_at(1).window_handle, 101);
    assert_eq!(
        topology.monitors(),
        vec![rect(0, 0, 1920, 1080, 96), rect(1920, 0, 800, 600, 120)]
    );
}

#[test]
fn unplugged_monitor_is_destroyed_and_survivor_updated() {
    let mut topology = OverlayTopology::new();
    topology.note_created(1, 100, rect(0, 0, 1920, 1080, 96));
    topology.note_created(2, 200, rect(1920, 0, 800, 600, 120));

    let monitors = vec![snapshot(2, rect(0, 0, 800, 600, 144))];
    let plan = topology.plan_refresh(&monitors);
    assert_eq!(
        plan,
        vec![
            OverlayAction::Destroy { monitor_id: 1, window_handle: 100 },
            OverlayAction::Update {
                monitor_id: 2,
                window_handle: 200,
                rect: rect(0, 0, 800, 600, 144),
            },
        ]
    );

    topology.note_destroyed(1);
    topology.note_updated(2, rect(0, 0, 800, 600, 144));
    topology.commit_layout(&monitors);
    assert_eq!(topology.overlay_count(), 1);
    assert!(!topology.covers(1));
    assert!(topology.covers(2));
    let survivor = topology.entry_at(0);
    assert_eq!(survivor.window_handle, 200);
    assert_eq!(survivor.rect, rect(0, 0, 800, 600, 144));
}

#[test]
fn update_keeps_the_window_handle() {
    let mut topology = OverlayTopology::new();
    topology.note_created(7, 700, rect(0, 0, 1024, 768, 96));
    topology.note_updated(7, rect(10, 20, 1024, 768, 96));
    let entry = topology.entry_at(0);
    assert_eq!(entry.monitor_id, 7);
    assert_eq!(entry.window_handle, 700);
    assert_eq!(entry.rect, rect(10, 20, 1024, 768, 96));
}

#[test]
fn updating_an_uncovered_monitor_changes_nothing() {
    let mut topology = OverlayTopology::new();
    topology.note_created(1, 100, rect(0, 0, 640, 480, 96));
    topology.note_updated(9, rect(5, 5, 5, 5, 5));
    assert_eq!(topology.overlay_count(), 1);
    let entry = topology.entry_at(0);
    assert_eq!(entry.monitor_id, 1);
    assert_eq!(entry.rect, rect(0, 0, 640, 480, 96));
}

#[test]
fn destroying_an_uncovered_monitor_changes_nothing() {
    let mut topology = OverlayTopology::new();
    topology.note_created(1, 100, rect(0, 0, 640, 480, 96));
    topology.note_destroyed(2);
    assert_eq!(topology.overlay_count(), 1);
    assert!(topology.covers(1));
}

#[test]
fn take_all_hands_out_every_entry_and_empties_the_topology() {
    let mut topology = OverlayTopology::new();
    topology.note_created(1, 100, rect(0, 0, 640, 480, 96));
    topology.note_created(2, 200, rect(640, 0, 640, 480, 96));
    let monitors = vec![
        snapshot(1, rect(0, 0, 640, 480, 96)),
        snapshot(2, rect(640, 0, 640, 480, 96)),
    ];
    topology.commit_layout(&monitors);

    let taken = topology.take_all();
    assert_eq!(taken.len(), 2);
    assert_eq!(taken[0].window_handle, 100);
    assert_eq!(taken[1].window_handle, 200);
    assert_eq!(topology.overlay_count(), 0);
    assert_eq!(topology.monitors(), Vec::<MonitorRect>::new());
}

#[test]
fn plan_on_unchanged_topology_is_all_updates() {
    let mut topology = OverlayTopology::new();
    topology.note_created(1, 100, rect(0, 0, 640, 480, 96));
    topology.note_created(2, 200, rect(640, 0, 640, 480, 96));
    let monitors = vec![
        snapshot(1, rect(0, 0, 640, 480, 96)),
        snapshot(2, rect(640, 0, 640, 480, 96)),
    ];
    let plan = topology.plan_refresh(&monitors);
    assert_eq!(
        plan,
        vec![
            OverlayAction::Update {
                monitor_id: 1,
                window_handle: 100,
                rect: rect(0, 0, 640, 480, 96),
            },
            OverlayAction::Update {
                monitor_id: 2,
                window_handle: 200,
                rect: rect(640, 0, 640, 480, 96),
            },
        ]
    );
}

#[test]
fn mixed_refresh_destroys_updates_and_creates() {
    let mut topology = OverlayTopology::new();
    topology.note_created(1, 100, rect(0, 0, 640, 480, 96));
    topology.note_created(2, 200, rect(640, 0, 640, 480, 96));

    let monitors = vec![
        snapshot(2, rect(0, 0, 1920, 1080, 96)),
        snapshot(3, rect(1920, 0, 800, 600, 120)),
    ];
    let plan = topology.plan_refresh(&monitors);
    assert_eq!(
        plan,
        vec![
            OverlayAction::Destroy { monitor_id: 1, window_handle: 100 },
            OverlayAction::Update {
                monitor_id: 2,
                window_handle: 200,
                rect: rect(0, 0, 1920, 1080, 96),
            },
            OverlayAction::Create { monitor_id: 3, rect: rect(1920, 0, 800, 600, 120) },
        ]
    );

    for action in plan {
        match action {
            OverlayAction::Destroy { monitor_id, .. } => topology.note_destroyed(monitor_id),
            OverlayAction::Update { monitor_id, rect, .. } => topology.note_updated(monitor_id, rect),
            OverlayAction::Create { monitor_id, rect } => topology.note_created(monitor_id, 300, rect),
        }
    }
    topology.commit_layout(&monitors);

    assert_eq!(topology.overlay_count(), 2);
    assert!(!topology.covers(1));
    let survivor = topology.entry_at(0);
    assert_eq!(survivor.monitor_id, 2);
    assert_eq!(survivor.window_handle, 200);
    assert_eq!(survivor.rect, rect(0, 0, 1920, 1080, 96));
    let newcomer = topology.entry_at(1);
    assert_eq!(newcomer.monitor_id, 3);
    assert_eq!(newcomer.window_handle, 300);
    assert_eq!(newcomer.rect, rect(1920, 0, 800, 600, 120));
}

#[test]
fn snapshot_uniqueness_check() {
    let distinct = vec![
        snapshot(1, rect(0, 0, 1, 1, 96)),
        snapshot(2, rect(0, 0, 1, 1, 96)),
        snapshot(3, rect(0, 0, 1, 1, 96)),
    ];
    assert!(snapshot_ids_unique(&distinct));
    let repeated = vec![
        snapshot(1, rect(0, 0, 1, 1, 96)),
        snapshot(2, rect(0, 0, 1, 1, 96)),
        snapshot(1, rect(5, 5, 1, 1, 96)),
    ];
    assert!(!snapshot_ids_unique(&repeated));
    assert!(snapshot_ids_unique(&Vec::new()));
}
