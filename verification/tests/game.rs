use renderer::camera::{
    camera_controls, Direction, Plane, KEY_ARROW_LEFT, KEY_ARROW_UP, KEY_D, KEY_G, KEY_S,
    KEY_SHIFT_LEFT, KEY_W,
};
use renderer::app::InputState;
use renderer::game::{main_texture_stale, selectable_tile, Placed, Scene, SpawnWork};
use renderer::ray_tracing::{hovered_tile_uniform, workgroup_count, Renderer};

#[test]
fn tiles_are_selectable_within_range() {
    assert_eq!(selectable_tile((16, -16, 0)), Some((16, -16, 0)));
    assert_eq!(selectable_tile((17, 0, 0)), None);
    assert_eq!(selectable_tile((0, 0, -17)), None);
    assert_eq!(selectable_tile((i32::MIN, 0, 0)), None);
}

fn spawned(placed: Placed<()>) -> SpawnWork<()> {
    match placed {
        Placed::Spawn(work) => work,
        Placed::Overwrite { .. } => panic!("the tile was empty"),
    }
}

#[test]
fn scene_keeps_the_three_latest_hyperspheres() {
    let mut scene: Scene<()> = Scene::new(32);
    let first = spawned(scene.place((0, 0, 0)));
    assert!(first.removal.is_none());
    assert_eq!(first.placement.offset, 0);
    let second = spawned(scene.place((1, 0, 0)));
    assert_eq!(second.placement.offset, 32);
    let grown = second.placement.reallocation.as_ref().expect("two do not fit in one slot");
    assert_eq!((grown.new_size, grown.copy_size), (96, 32));
    let third = spawned(scene.place((2, 0, 0)));
    assert_eq!(third.placement.offset, 64);
    assert_eq!(scene.len(), 3);
    let fourth = spawned(scene.place((3, 0, 0)));
    assert_eq!(fourth.placement.offset, 96);
    let removal = fourth.removal.expect("the oldest is removed");
    assert_eq!(removal.source_offset, 96);
    assert_eq!(removal.destination_offset, 0);
    assert_eq!(scene.len(), 3);
    assert!(!scene.renderer_ref().contains(first.placement.id));
    assert!(scene.hypersphere_at((0, 0, 0)).is_none());
    assert_eq!(scene.update(fourth.placement.id), 0);
    let fifth = spawned(scene.place((4, 0, 0)));
    assert_eq!(fifth.placement.id.index(), first.placement.id.index());
    assert!(fifth.placement.reallocation.is_none());
    assert_eq!(scene.len(), 3);
    let plan = scene.render(33, 16);
    assert_eq!(plan.hyperspheres_count, 3);
    assert_eq!((plan.workgroups_x, plan.workgroups_y), (3, 1));
}

#[test]
fn scene_overwrites_the_hypersphere_on_a_tile() {
    let mut scene: Scene<()> = Scene::new(16);
    let a = spawned(scene.place((1, 2, 3)));
    let _b = spawned(scene.place((4, 5, 6)));
    match scene.place((1, 2, 3)) {
        Placed::Overwrite { id, offset } => {
            assert_eq!(id.index(), a.placement.id.index());
            assert_eq!(offset, 0);
        }
        Placed::Spawn(_) => panic!("the tile was taken"),
    }
    assert_eq!(scene.len(), 2);
}

#[test]
fn scene_deletes_the_hypersphere_on_a_tile() {
    let mut scene: Scene<()> = Scene::new(16);
    let a = spawned(scene.place((1, 2, 3)));
    let b = spawned(scene.place((4, 5, 6)));
    assert!(scene.delete((7, 7, 7)).is_none());
    let mv = scene.delete((1, 2, 3)).expect("a hypersphere is on the tile");
    assert_eq!((mv.source_offset, mv.destination_offset), (16, 0));
    assert_eq!(scene.len(), 1);
    assert!(scene.hypersphere_at((1, 2, 3)).is_none());
    assert_eq!(scene.hypersphere_at((4, 5, 6)).unwrap().index(), b.placement.id.index());
    assert_eq!(scene.update(b.placement.id), 0);
    let c = spawned(scene.place((1, 2, 3)));
    assert_eq!(c.placement.id.index(), a.placement.id.index());
}

#[test]
fn renderer_rebuilds_bind_group_after_growth() {
    let mut renderer: Renderer<()> = Renderer::new(16);
    let a = renderer.add_hypersphere();
    assert!(a.reallocation.is_none());
    let plan = renderer.render(16, 16);
    assert!(!plan.recreate_objects_bind_group);
    let b = renderer.add_hypersphere();
    assert!(b.reallocation.is_some());
    let plan = renderer.render(16, 16);
    assert!(plan.recreate_objects_bind_group);
    assert_eq!(plan.hyperspheres_count, 2);
    let plan = renderer.render(16, 16);
    assert!(!plan.recreate_objects_bind_group);
    let mv = renderer.remove_hypersphere(a.id);
    assert_eq!((mv.source_offset, mv.destination_offset), (16, 0));
    assert_eq!(renderer.update_hypersphere(b.id), 0);
    assert_eq!(renderer.len(), 1);
}

#[test]
fn workgroups_cover_the_image() {
    assert_eq!(workgroup_count(0), 0);
    assert_eq!(workgroup_count(1), 1);
    assert_eq!(workgroup_count(16), 1);
    assert_eq!(workgroup_count(17), 2);
    assert_eq!(workgroup_count(u32::MAX), 268_435_456);
}

#[test]
fn hovered_tile_sets_flag() {
    assert_eq!(hovered_tile_uniform(Some((1, -2, 3))), ((1, -2, 3), 1));
    assert_eq!(hovered_tile_uniform(None), ((0, 0, 0), 0));
}

#[test]
fn camera_controls_follow_keys() {
    let mut input = InputState::new();
    input.press_key(KEY_W);
    input.press_key(KEY_S);
    input.press_key(KEY_D);
    input.press_key(KEY_G);
    input.press_key(KEY_ARROW_UP);
    input.press_key(KEY_ARROW_LEFT);
    let c = camera_controls(&input);
    assert!(c.toggle_ground_view);
    assert!(!c.toggle_screen_door);
    assert_eq!(c.moves.len(), 3);
    assert!(matches!(c.moves[0], (Direction::Forward, true)));
    assert!(matches!(c.moves[1], (Direction::Forward, false)));
    assert!(matches!(c.moves[2], (Direction::Right, true)));
    assert_eq!(c.turns.len(), 2);
    assert!(matches!(c.turns[0], (Plane::Xy, true)));
    assert!(matches!(c.turns[1], (Plane::Xz, false)));
    input.press_key(KEY_SHIFT_LEFT);
    input.begin_frame();
    let c = camera_controls(&input);
    assert!(!c.toggle_ground_view);
    assert!(matches!(c.turns[0], (Plane::Xw, true)));
    assert!(matches!(c.turns[1], (Plane::Zw, false)));
}

#[test]
fn main_texture_is_recreated_when_both_sides_change() {
    assert!(main_texture_stale((1, 1), 640, 480));
    assert!(!main_texture_stale((640, 1), 640, 480));
    assert!(!main_texture_stale((640, 480), 640, 480));
}
