use vstd::prelude::*;

use crate::components::{Components, Entity, Gun, Physics};
use crate::geom::{add_spec, add_vec, dir_of, direction, scale, scale_spec, sub_spec, sub_vec};
use crate::state::{GameMode, PlayingInputs};
use crate::world::{mapped_row, rows_mapped, Row, World};

verus! {

/// Turning rate while a turn key is held, in degrees (a tenth of it per
/// step).
pub const ROTATION_SPEED: i32 = 50;

/// Thrust per step while accelerating or braking: 0.04 pixels.
pub const ACCELERATION: i64 = 40;

/// An input-controlled entity after reading the input: turning left,
/// right or not at all, thrust along the heading for up and against it for
/// down, and guns that want to shoot exactly while shoot is held.
pub open spec fn steered(c: Components, inputs: PlayingInputs) -> Components {
    let c1 = match (c.transform, c.physics, c.input_controlled) {
        (Some(t), Some(p), Some(_)) => {
            let thrust = scale_spec(dir_of(t.rot as int), ACCELERATION as int);
            let v1 = if inputs.up {
                add_spec(p.vel, thrust)
            } else {
                p.vel
            };
            let v2 = if inputs.down {
                sub_spec(v1, thrust)
            } else {
                v1
            };
            let spin: int = if inputs.left {
                -ROTATION_SPEED
            } else if inputs.right {
                ROTATION_SPEED as int
            } else {
                0
            };
            Components { physics: Some(Physics { vel: v2, rot_vel: spin as i32 }), ..c }
        },
        _ => c,
    };
    match (c1.gun, c1.input_controlled) {
        (Some(g), Some(_)) => Components { gun: Some(Gun { wants_to_shoot: inputs.shoot, ..g }), ..c1 },
        _ => c1,
    }
}

/// No live entity is a player with a transform.
pub open spec fn no_players(rows: Seq<Row>) -> bool {
    forall|i: int|
        0 <= i < rows.len() ==> !((#[trigger] rows[i]).alive && rows[i].comps.player is Some
            && rows[i].comps.transform is Some)
}

fn steer_exec(c: Components, inputs: &PlayingInputs) -> (r: Components)
    requires
        c.bounded(),
    ensures
        r == steered(c, *inputs),
        r.bounded(),
{
    let mut c1 = c;
    match (c.transform, c.physics, c.input_controlled) {
        (Some(t), Some(p), Some(_)) => {
            let thrust = scale(direction(t.rot), ACCELERATION);
            let v1 = if inputs.up {
                add_vec(p.vel, thrust)
            } else {
                p.vel
            };
            let v2 = if inputs.down {
                sub_vec(v1, thrust)
            } else {
                v1
            };
            let spin: i32 = if inputs.left {
                -ROTATION_SPEED
            } else if inputs.right {
                ROTATION_SPEED
            } else {
                0
            };
            c1 = Components { physics: Some(Physics { vel: v2, rot_vel: spin }), ..c };
        },
        _ => {},
    }
    match (c1.gun, c1.input_controlled) {
        (Some(g), Some(_)) => Components {
            gun: Some(
                Gun {
                    wants_to_shoot: inputs.shoot,
                    fire_delay: g.fire_delay,
                    cooldown: g.cooldown,
                },
            ),
            ..c1
        },
        _ => c1,
    }
}

/// Whether any live player with a transform remains.
pub fn any_player(world: &World) -> (r: bool)
    ensures
        r == !no_players(world@),
{
    let mut i: usize = 0;
    while i < world.len()
        invariant
            i <= world@.len(),
            forall|j: int|
                0 <= j < i ==> !((#[trigger] world@[j]).alive && world@[j].comps.player is Some
                    && world@[j].comps.transform is Some),
        decreases world@.len() - i,
    {
        let row = world.row(i);
        if row.alive && row.comps.player.is_some() && row.comps.transform.is_some() {
            return true;
        }
        i = i + 1;
    }
    false
}

/// Maps the player's input onto the input-controlled entities (see
/// `steered`); with no player left, pressing shoot asks for the game-over
/// mode.
pub fn handle_inputs(world: &mut World, inputs: &PlayingInputs, transition_to: &mut Option<GameMode>)
    requires
        old(world).wf(),
    ensures
        final(world).wf(),
        rows_mapped(old(world)@, final(world)@, |c: Components| steered(c, *inputs)),
        *final(transition_to) == if no_players(old(world)@) && inputs.shoot {
            Some(GameMode::GameOver)
        } else {
            *old(transition_to)
        },
{
    let ghost start = world@;
    let players = any_player(world);
    let mut i: usize = 0;
    while i < world.len()
        invariant
            world.wf(),
            world@.len() == start.len(),
            i <= start.len(),
            forall|j: int|
                0 <= j < i ==> #[trigger] world@[j] == mapped_row(
                    start[j],
                    |c: Components| steered(c, *inputs),
                ),
            forall|j: int| i <= j < start.len() ==> #[trigger] world@[j] == start[j],
        decreases start.len() - i,
    {
        let row = world.row(i);
        if row.alive {
            assert(world@[i as int].comps.bounded());
            let c = steer_exec(row.comps, inputs);
            world.set(Entity { index: i, generation: row.generation }, c);
        }
        i = i + 1;
    }
    if !players && inputs.shoot {
        *transition_to = Some(GameMode::GameOver);
    }
}

} // verus!
