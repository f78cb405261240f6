use wave_guy::actions::{
    get_control_pressed, set_movement_actions, Actions, Buttons, GameControl, MouseCoords, Vec3,
    FOLLOW_EPSILON,
};
use wave_guy::math::Vec2;

fn none() -> Buttons {
    Buttons {
        key_w: false,
        key_a: false,
        key_s: false,
        key_d: false,
        key_q: false,
        key_e: false,
        arrow_up: false,
        arrow_down: false,
        arrow_left: false,
        arrow_right: false,
        mouse_left: false,
    }
}

fn read(buttons: &Buttons, touch: Option<Vec2>, player: Vec2, mouse: &MouseCoords) -> Actions {
    let mut actions = Actions {
        player_movement: Some(Vec2::new(1, 1)),
        camera_movement: Some(Vec3 { x: 1, y: 1, z: 1 }),
        shoot: Some(Vec2::new(1, 1)),
    };
    set_movement_actions(&mut actions, buttons, touch, player, mouse);
    actions
}

#[test]
fn each_control_has_its_keys() {
    let all = [
        GameControl::Up,
        GameControl::Down,
        GameControl::Left,
        GameControl::Right,
        GameControl::ZoomIn,
        GameControl::ZoomOut,
        GameControl::MainAttack,
    ];
    let bound = |b: Buttons| -> Vec<GameControl> {
        all.iter().copied().filter(|c| c.pressed(&b)).collect()
    };
    assert_eq!(bound(none()), vec![]);
    assert_eq!(bound(Buttons { key_w: true, ..none() }), vec![GameControl::Up]);
    assert_eq!(bound(Buttons { arrow_up: true, ..none() }), vec![GameControl::Up]);
    assert_eq!(bound(Buttons { key_s: true, ..none() }), vec![GameControl::Down]);
    assert_eq!(bound(Buttons { arrow_down: true, ..none() }), vec![GameControl::Down]);
    assert_eq!(bound(Buttons { key_a: true, ..none() }), vec![GameControl::Left]);
    assert_eq!(bound(Buttons { arrow_left: true, ..none() }), vec![GameControl::Left]);
    assert_eq!(bound(Buttons { key_d: true, ..none() }), vec![GameControl::Right]);
    assert_eq!(bound(Buttons { arrow_right: true, ..none() }), vec![GameControl::Right]);
    assert_eq!(bound(Buttons { key_q: true, ..none() }), vec![GameControl::ZoomIn]);
    assert_eq!(bound(Buttons { key_e: true, ..none() }), vec![GameControl::ZoomOut]);
    assert_eq!(bound(Buttons { mouse_left: true, ..none() }), vec![GameControl::MainAttack]);
}

#[test]
fn control_counts_one_when_held() {
    let b = Buttons { key_w: true, ..none() };
    assert_eq!(get_control_pressed(GameControl::Up, &b), 1);
    assert_eq!(get_control_pressed(GameControl::Down, &b), 0);
}

#[test]
fn no_input_gives_no_intent() {
    let a = read(&none(), None, Vec2::new(0, 0), &MouseCoords::default());
    assert_eq!(a, Actions::default());
    assert_eq!(a.player_movement, None);
    assert_eq!(a.camera_movement, None);
    assert_eq!(a.shoot, None);
}

#[test]
fn keys_give_a_unit_direction() {
    let m = MouseCoords::default();
    let p = Vec2::new(0, 0);
    let right = read(&Buttons { key_d: true, ..none() }, None, p, &m);
    assert_eq!(right.player_movement, Some(Vec2::new(1000, 0)));
    let down = read(&Buttons { arrow_down: true, ..none() }, None, p, &m);
    assert_eq!(down.player_movement, Some(Vec2::new(0, -1000)));
    let up_left = read(&Buttons { key_w: true, key_a: true, ..none() }, None, p, &m);
    assert_eq!(up_left.player_movement, Some(Vec2::new(-706, 706)));
    let cancel = read(&Buttons { key_a: true, key_d: true, ..none() }, None, p, &m);
    assert_eq!(cancel.player_movement, None);
    let twice = read(&Buttons { key_w: true, arrow_up: true, ..none() }, None, p, &m);
    assert_eq!(twice.player_movement, Some(Vec2::new(0, 1000)));
}

#[test]
fn a_far_touch_leads_the_player() {
    assert_eq!(FOLLOW_EPSILON, 5000);
    let m = MouseCoords::default();
    let p = Vec2::new(1000, 1000);
    let keys = Buttons { key_d: true, ..none() };
    let far = read(&keys, Some(Vec2::new(31_000, 41_000)), p, &m);
    assert_eq!(far.player_movement, Some(Vec2::new(600, 800)));
    let near = read(&keys, Some(Vec2::new(4000, 5000)), p, &m);
    assert_eq!(near.player_movement, Some(Vec2::new(1000, 0)));
    let just_over = read(&none(), Some(Vec2::new(1000, 6001)), p, &m);
    assert_eq!(just_over.player_movement, Some(Vec2::new(0, 1000)));
    let on_it = read(&none(), Some(p), p, &m);
    assert_eq!(on_it.player_movement, None);
}

#[test]
fn zoom_wants_exactly_one_of_its_keys() {
    let m = MouseCoords::default();
    let p = Vec2::new(0, 0);
    let zoom_in = read(&Buttons { key_q: true, ..none() }, None, p, &m);
    assert_eq!(zoom_in.camera_movement, Some(Vec3 { x: 0, y: 0, z: 1000 }));
    let zoom_out = read(&Buttons { key_e: true, ..none() }, None, p, &m);
    assert_eq!(zoom_out.camera_movement, Some(Vec3 { x: 0, y: 0, z: -1000 }));
    let both = read(&Buttons { key_q: true, key_e: true, ..none() }, None, p, &m);
    assert_eq!(both.camera_movement, None);
}

#[test]
fn attack_aims_at_the_pointer() {
    let p = Vec2::new(0, 0);
    let m = MouseCoords {
        world_coords: Some(Vec2::new(70, -70)),
        logical_coords: Some(Vec2::new(1, 2)),
    };
    let fire = read(&Buttons { mouse_left: true, ..none() }, None, p, &m);
    assert_eq!(fire.shoot, Some(Vec2::new(70, -70)));
    let hold = read(&none(), None, p, &m);
    assert_eq!(hold.shoot, None);
    let blind = read(&Buttons { mouse_left: true, ..none() }, None, p, &MouseCoords::default());
    assert_eq!(blind.shoot, None);
}
