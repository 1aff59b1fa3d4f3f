use tank_engine::controls::{
    axis_value, grounded_count, has_traction, may_lay_track_marks, read_tank_keys, sniper_mode,
    toggle_cursor, TankCommand, TankKeys,
};
use tank_engine::terrain::{
    heightmap_cell_indices, smoothing_window, terrain_label, TerrainType, MC_GRID_SIZE,
};

#[test]
fn terrain_labels() {
    assert_eq!(terrain_label(TerrainType::Hard), "Hard (Road)");
    assert_eq!(terrain_label(TerrainType::Medium), "Medium (Grass)");
    assert_eq!(terrain_label(TerrainType::Soft), "Soft (Mud)");
    assert_eq!(format!("TERRAIN: {}", terrain_label(TerrainType::Soft)), "TERRAIN: Soft (Mud)");
}

#[test]
fn default_terrain_is_medium() {
    assert_eq!(TerrainType::default(), TerrainType::Medium);
}

#[test]
fn heightmap_cells() {
    assert_eq!(MC_GRID_SIZE, 129);
    assert_eq!(heightmap_cell_indices(0, 0), (0, 1, 129, 130));
    assert_eq!(heightmap_cell_indices(127, 5), (772, 773, 901, 902));
    assert_eq!(heightmap_cell_indices(128, 128), (16640, 16640, 16640, 16640));
    assert_eq!(heightmap_cell_indices(128, 0), (128, 128, 257, 257));
}

#[test]
fn smoothing_windows() {
    assert_eq!(smoothing_window(1, 1), [130, 1, 259, 129, 131, 0, 2, 258, 260]);
    let last = MC_GRID_SIZE - 2;
    let w = smoothing_window(last, last);
    assert_eq!(w[0], last * MC_GRID_SIZE + last);
    assert_eq!(w[8], MC_GRID_SIZE * MC_GRID_SIZE - 1);
    assert!(w.iter().all(|&i| i < MC_GRID_SIZE * MC_GRID_SIZE));
}

#[test]
fn axis_keys() {
    assert_eq!(axis_value(true, false), 1);
    assert_eq!(axis_value(false, true), -1);
    assert_eq!(axis_value(true, true), 0);
    assert_eq!(axis_value(false, false), 0);
}

fn keys() -> TankKeys {
    TankKeys {
        forward: false,
        backward: false,
        left: false,
        right: false,
        brake: false,
        brake_left: false,
        brake_right: false,
    }
}

#[test]
fn tank_keys_to_command() {
    let idle = read_tank_keys(&keys());
    assert_eq!(
        idle,
        TankCommand { forward: 0, rotation: 0, braking: false, brake_left: false, brake_right: false }
    );
    let drive_left = read_tank_keys(&TankKeys { forward: true, left: true, ..keys() });
    assert_eq!((drive_left.forward, drive_left.rotation), (1, -1));
    let reverse_right = read_tank_keys(&TankKeys { backward: true, right: true, ..keys() });
    assert_eq!((reverse_right.forward, reverse_right.rotation), (-1, 1));
    let cancel = read_tank_keys(&TankKeys { forward: true, backward: true, left: true, right: true, ..keys() });
    assert_eq!((cancel.forward, cancel.rotation), (0, 0));
}

#[test]
fn brakes() {
    let q = read_tank_keys(&TankKeys { brake_left: true, ..keys() });
    assert!(q.brake_left && !q.brake_right && !q.braking);
    let e = read_tank_keys(&TankKeys { brake_right: true, ..keys() });
    assert!(!e.brake_left && e.brake_right);
    let space = read_tank_keys(&TankKeys { brake: true, ..keys() });
    assert!(space.braking && space.brake_left && space.brake_right);
}

#[test]
fn cursor_toggle() {
    let released = toggle_cursor(true);
    assert!(!released.confined && released.visible);
    let grabbed = toggle_cursor(released.confined);
    assert!(grabbed.confined && !grabbed.visible);
}

#[test]
fn sniper_with_either_shift() {
    assert!(sniper_mode(true, false));
    assert!(sniper_mode(false, true));
    assert!(!sniper_mode(false, false));
}

#[test]
fn ground_contacts() {
    let flags = vec![true, false, true, true, false, false, false, true];
    assert_eq!(grounded_count(&flags), 4);
    assert!(has_traction(&flags, 2));
    assert!(has_traction(&flags, 4));
    assert!(!has_traction(&flags, 5));
    assert_eq!(grounded_count(&vec![]), 0);
    assert!(has_traction(&vec![], 0));
    assert!(!has_traction(&vec![false; 8], 2));
}

#[test]
fn track_mark_gate() {
    assert!(may_lay_track_marks(true, 10, 500, true, false));
    assert!(may_lay_track_marks(true, 10, 500, false, false));
    assert!(may_lay_track_marks(true, 10, 500, true, true));
    assert!(!may_lay_track_marks(true, 10, 500, false, true));
    assert!(!may_lay_track_marks(false, 10, 500, true, false));
    assert!(!may_lay_track_marks(true, 500, 500, true, false));
}
