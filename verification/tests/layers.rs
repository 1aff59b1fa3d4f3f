use tank_engine::layers::CollisionLayers;

#[test]
fn layer_constants() {
    assert_eq!(CollisionLayers::TANK, 1);
    assert_eq!(CollisionLayers::BUILDING, 2);
    assert_eq!(CollisionLayers::TERRAIN, 4);
    assert_eq!(CollisionLayers::PROJECTILE, 8);
    assert_eq!(CollisionLayers::DEBRIS, 16);
}

#[test]
fn tank_and_building_presets() {
    let t = CollisionLayers::tank();
    assert_eq!(t.membership, CollisionLayers::TANK);
    assert_eq!(t.filter, CollisionLayers::BUILDING | CollisionLayers::TERRAIN);
    let b = CollisionLayers::building();
    assert_eq!(b.membership, CollisionLayers::BUILDING);
    assert_eq!(b.filter, CollisionLayers::TANK | CollisionLayers::PROJECTILE);
}

#[test]
fn tanks_collide_with_buildings_not_with_tanks() {
    let t = CollisionLayers::tank();
    let b = CollisionLayers::building();
    assert!(t.should_collide(&b));
    assert!(b.should_collide(&t));
    assert!(!t.should_collide(&t));
    assert!(!b.should_collide(&b));
}

#[test]
fn should_collide_is_symmetric() {
    let samples = [
        CollisionLayers { membership: 1, filter: 6 },
        CollisionLayers { membership: 2, filter: 9 },
        CollisionLayers { membership: 4, filter: 1 },
        CollisionLayers { membership: 0, filter: 0xFFFF_FFFF },
        CollisionLayers::default(),
    ];
    for a in &samples {
        for b in &samples {
            assert_eq!(a.should_collide(b), b.should_collide(a));
        }
    }
}

#[test]
fn default_collides_with_everything_layered() {
    let d = CollisionLayers::default();
    assert_eq!(d.membership, 0xFFFF_FFFF);
    assert_eq!(d.filter, 0xFFFF_FFFF);
    assert!(d.should_collide(&CollisionLayers::tank()));
    assert!(d.should_collide(&d));
    assert!(!d.should_collide(&CollisionLayers { membership: 0, filter: 1 }));
    assert!(!d.should_collide(&CollisionLayers { membership: 1, filter: 0 }));
}
