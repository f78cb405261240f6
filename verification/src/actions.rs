//! The intent of the player for one step, and how the controls give it.

use vstd::prelude::*;
use crate::math::rescale;
use crate::math::Vec2;
use crate::math::Vector;
use crate::math::UNIT;

verus! {

/// How far a touch has to be from the player before the player follows it:
/// five pixels.
pub const FOLLOW_EPSILON: i32 = 5000;

/// A stored vector in space.
#[derive(Clone, Copy, Debug, PartialEq, Eq)]
pub struct Vec3 {
    pub x: i32,
    pub y: i32,
    pub z: i32,
}

/// What the player wants in this step. An absent field means no input, not
/// a value of zero.
#[derive(Clone, Copy, Debug, PartialEq, Eq)]
pub struct Actions {
    /// The direction to move in: a unit vector, in thousandths.
    pub player_movement: Option<Vec2>,
    /// The direction to zoom in: a unit vector along the third axis.
    pub camera_movement: Option<Vec3>,
    /// The point in the world to fire at.
    pub shoot: Option<Vec2>,
}

/// Where the pointer is, in the world and on the screen.
#[derive(Clone, Copy, Debug, PartialEq, Eq)]
pub struct MouseCoords {
    pub world_coords: Option<Vec2>,
    pub logical_coords: Option<Vec2>,
}

/// The controls of the game.
#[derive(Clone, Copy, Debug, PartialEq, Eq)]
pub enum GameControl {
    Up,
    Down,
    Left,
    Right,
    ZoomIn,
    ZoomOut,
    MainAttack,
}

/// Which of the keys and buttons that the game reads are held down.
#[derive(Clone, Copy, Debug, PartialEq, Eq)]
pub struct Buttons {
    pub key_w: bool,
    pub key_a: bool,
    pub key_s: bool,
    pub key_d: bool,
    pub key_q: bool,
    pub key_e: bool,
    pub arrow_up: bool,
    pub arrow_down: bool,
    pub arrow_left: bool,
    pub arrow_right: bool,
    pub mouse_left: bool,
}

impl Default for Actions {
    fn default() -> (r: Actions)
        ensures
            r == (Actions { player_movement: None, camera_movement: None, shoot: None }),
    {
        Actions { player_movement: None, camera_movement: None, shoot: None }
    }
}

impl Default for MouseCoords {
    fn default() -> (r: MouseCoords)
        ensures
            r == (MouseCoords { world_coords: None, logical_coords: None }),
    {
        MouseCoords { world_coords: None, logical_coords: None }
    }
}

impl GameControl {
    /// The binding of the control: the keys W, A, S, D or the arrows move,
    /// Q and E zoom, the left mouse button attacks.
    pub open spec fn held(self, buttons: Buttons) -> bool {
        match self {
            GameControl::Up => buttons.key_w || buttons.arrow_up,
            GameControl::Down => buttons.key_s || buttons.arrow_down,
            GameControl::Left => buttons.key_a || buttons.arrow_left,
            GameControl::Right => buttons.key_d || buttons.arrow_right,
            GameControl::ZoomIn => buttons.key_q,
            GameControl::ZoomOut => buttons.key_e,
            GameControl::MainAttack => buttons.mouse_left,
        }
    }

    /// Whether a key or button bound to the control is held down.
    pub fn pressed(&self, buttons: &Buttons) -> (r: bool)
        ensures
            r == self.held(*buttons),
    {
        match self {
            GameControl::Up => buttons.key_w || buttons.arrow_up,
            GameControl::Down => buttons.key_s || buttons.arrow_down,
            GameControl::Left => buttons.key_a || buttons.arrow_left,
            GameControl::Right => buttons.key_d || buttons.arrow_right,
            GameControl::ZoomIn => buttons.key_q,
            GameControl::ZoomOut => buttons.key_e,
            GameControl::MainAttack => buttons.mouse_left,
        }
    }
}

/// One where the control is held, zero where it is not.
pub open spec fn control_value(control: GameControl, buttons: Buttons) -> int {
    if control.held(buttons) {
        1
    } else {
        0
    }
}

/// One where the control is held, zero where it is not.
pub fn get_control_pressed(control: GameControl, buttons: &Buttons) -> (r: i32)
    ensures
        r == control_value(control, *buttons),
{
    if control.pressed(buttons) {
        1
    } else {
        0
    }
}

/// The direction that the keys ask for, in thousandths on each axis: right
/// less left, and up less down.
pub open spec fn key_direction(buttons: Buttons) -> Vector {
    Vector {
        x: UNIT * (control_value(GameControl::Right, buttons) - control_value(
            GameControl::Left,
            buttons,
        )),
        y: UNIT * (control_value(GameControl::Up, buttons) - control_value(
            GameControl::Down,
            buttons,
        )),
    }
}

/// The direction that the player is asked to move in, before it is brought
/// to unit length: from the player to the touch where there is a touch
/// farther than [`FOLLOW_EPSILON`] from the player, else what the keys ask
/// for.
pub open spec fn wanted_direction(buttons: Buttons, touch: Option<Vec2>, player: Vec2) -> Vector {
    match touch {
        Some(t) => if t@.minus(player@).norm_sq() > FOLLOW_EPSILON * FOLLOW_EPSILON {
            t@.minus(player@)
        } else {
            key_direction(buttons)
        },
        None => key_direction(buttons),
    }
}

/// The unit vector, in thousandths, along a nonzero `d`.
pub open spec fn unit_along(d: Vector) -> Vec2 {
    Vec2 { x: d.rescaled(UNIT as int).x as i32, y: d.rescaled(UNIT as int).y as i32 }
}

/// The intent that the controls give: the unit vector along the wanted
/// direction, if there is one; the zoom direction, if exactly one of the zoom
/// controls is held; and the pointer's place in the world as the target,
/// where the attack control is held.
pub open spec fn intent(
    buttons: Buttons,
    touch: Option<Vec2>,
    player: Vec2,
    mouse: MouseCoords,
) -> Actions {
    let d = wanted_direction(buttons, touch, player);
    let zoom = control_value(GameControl::ZoomIn, buttons) - control_value(
        GameControl::ZoomOut,
        buttons,
    );
    Actions {
        player_movement: if d == Vector::zero() {
            None
        } else {
            Some(unit_along(d))
        },
        camera_movement: if zoom == 0 {
            None
        } else {
            Some(Vec3 { x: 0, y: 0, z: (zoom * UNIT) as i32 })
        },
        shoot: if GameControl::MainAttack.held(buttons) {
            mouse.world_coords
        } else {
            None
        },
    }
}

/// Reads the intent of the player from the controls: `touch` is the place
/// of the first touch in the world, `player` the place of the player.
pub fn set_movement_actions(
    actions: &mut Actions,
    buttons: &Buttons,
    touch: Option<Vec2>,
    player: Vec2,
    mouse: &MouseCoords,
)
    ensures
        *final(actions) == intent(*buttons, touch, player, *mouse),
{
    let mut dx: i64 = (UNIT as i64) * ((get_control_pressed(GameControl::Right, buttons)
        - get_control_pressed(GameControl::Left, buttons)) as i64);
    let mut dy: i64 = (UNIT as i64) * ((get_control_pressed(GameControl::Up, buttons)
        - get_control_pressed(GameControl::Down, buttons)) as i64);
    if let Some(t) = touch {
        let tx: i64 = t.x as i64 - player.x as i64;
        let ty: i64 = t.y as i64 - player.y as i64;
        let x: i128 = tx as i128;
        let y: i128 = ty as i128;
        assert(0 <= x * x <= 0x1_0000_0000_0000_0000 && 0 <= y * y <= 0x1_0000_0000_0000_0000)
            by (nonlinear_arith)
            requires
                -0x1_0000_0000 <= x <= 0x1_0000_0000,
                -0x1_0000_0000 <= y <= 0x1_0000_0000,
        ;
        if x * x + y * y > (FOLLOW_EPSILON as i128) * (FOLLOW_EPSILON as i128) {
            dx = tx;
            dy = ty;
        }
    }
    if dx != 0 || dy != 0 {
        let q = rescale(dx, dy, UNIT as i64);
        actions.player_movement = Some(Vec2 { x: q.0 as i32, y: q.1 as i32 });
    } else {
        actions.player_movement = None;
    }
    let zoom: i32 = get_control_pressed(GameControl::ZoomIn, buttons) - get_control_pressed(
        GameControl::ZoomOut,
        buttons,
    );
    if zoom != 0 {
        actions.camera_movement = Some(Vec3 { x: 0, y: 0, z: zoom * UNIT });
    } else {
        actions.camera_movement = None;
    }
    if GameControl::MainAttack.pressed(buttons) {
        actions.shoot = mouse.world_coords;
    } else {
        actions.shoot = None;
    }
}

} // verus!
