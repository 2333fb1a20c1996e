use raycaster::geometry::CastingError;
use raycaster::scene::Scene;

#[test]
fn empty_scene_has_nothing() {
    let scene: Scene<u64, u8> = Scene::new();
    assert!(scene.get_shape("floor").is_none());
    assert!(scene.get_light("light").is_none());
}

#[test]
fn shapes_and_lights_by_name() {
    let mut scene: Scene<u64, u8> = Scene::new();
    scene.add_shape("sphere_one", 11);
    scene.add_shape("sphere_two", 22);
    scene.add_light("light", 7);
    assert_eq!(scene.get_shape("sphere_one"), Some(&11));
    assert_eq!(scene.get_shape("sphere_two"), Some(&22));
    assert_eq!(scene.get_light("light"), Some(&7));
    assert!(scene.get_shape("light").is_none());
    assert!(scene.get_light("sphere_one").is_none());
    assert!(scene.get_shape("sphere").is_none());
}

#[test]
fn same_name_last_write_wins() {
    let mut scene: Scene<u64, u8> = Scene::new();
    scene.add_shape("floor", 1);
    scene.add_shape("floor", 2);
    scene.add_light("light", 3);
    scene.add_light("light", 4);
    assert_eq!(scene.get_shape("floor"), Some(&2));
    assert_eq!(scene.get_light("light"), Some(&4));
}

#[test]
fn ray_cast_without_shapes_misses() {
    let scene: Scene<u64, u8> = Scene::new();
    let hit = scene.ray_cast(|d: &u64| Some((*d, *d)));
    assert!(hit.is_none());
}

#[test]
fn ray_cast_all_miss() {
    let mut scene: Scene<u64, u8> = Scene::new();
    scene.add_shape("a", 3);
    scene.add_shape("b", 4);
    let hit = scene.ray_cast(|_d: &u64| None::<(u64, u64)>);
    assert!(hit.is_none());
}

#[test]
fn ray_cast_picks_nearest_of_two_spheres_and_plane() {
    // Each shape stands for the distance at which the ray meets it.
    let mut scene: Scene<u64, u8> = Scene::new();
    scene.add_shape("sphere_one", 9);
    scene.add_shape("floor", 14);
    scene.add_shape("sphere_two", 6);
    let hit = scene.ray_cast(|d: &u64| Some((*d, *d * 10)));
    assert_eq!(hit, Some((6, 60)));
}

#[test]
fn ray_cast_skips_missed_shapes() {
    let mut scene: Scene<u64, u8> = Scene::new();
    scene.add_shape("near_but_missed", 1);
    scene.add_shape("far", 20);
    scene.add_shape("middle", 12);
    let hit = scene.ray_cast(|d: &u64| if *d == 1 { None } else { Some((*d, *d)) });
    assert_eq!(hit, Some((12, 12)));
}

#[test]
fn ray_cast_equal_keys_keeps_first() {
    let mut scene: Scene<(u64, char), u8> = Scene::new();
    scene.add_shape("first", (5, 'a'));
    scene.add_shape("second", (5, 'b'));
    let hit = scene.ray_cast(|s: &(u64, char)| Some((s.0, s.1)));
    assert_eq!(hit, Some((5, 'a')));
}

#[test]
fn casting_error_variant() {
    let e = CastingError::NoIntersection;
    assert_eq!(e, CastingError::NoIntersection);
}

#[test]
fn ray_cast_order_does_not_change_distance() {
    let mut a: Scene<u64, u8> = Scene::new();
    let mut b: Scene<u64, u8> = Scene::new();
    for (name, d) in [("x", 30u64), ("y", 8), ("z", 17)] {
        a.add_shape(name, d);
    }
    for (name, d) in [("z", 17u64), ("x", 30), ("y", 8)] {
        b.add_shape(name, d);
    }
    let ha = a.ray_cast(|d: &u64| Some((*d, ())));
    let hb = b.ray_cast(|d: &u64| Some((*d, ())));
    assert_eq!(ha.map(|h| h.0), Some(8));
    assert_eq!(hb.map(|h| h.0), Some(8));
}
