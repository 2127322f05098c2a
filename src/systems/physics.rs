use vstd::prelude::*;

use crate::commands::{Command, CommandBuffer};
use crate::components::{CTransform, ComponentKind, Components, Entity, LifeSpan, Physics};
use crate::geom::{
    add_spec, add_vec, cap, cap_spec, in_play_field, turn, turn_spec, wrap, wrap_spec,
    FIELD_HEIGHT, FIELD_WIDTH, MAX_VEL,
};
use crate::world::{entity_of, mapped_row, rows_mapped, Row, World};

verus! {

/// One integration step of an entity: a capped velocity unless the entity
/// is uncapped; then, with a transform, `pos += vel` and the heading turned
/// by the rotational velocity (a tenth of `rot_vel` degrees).
pub open spec fn integrate(c: Components) -> Components {
    match c.physics {
        None => c,
        Some(p) => {
            let vel = if c.velocity_uncapped.is_some() {
                p.vel
            } else {
                cap_spec(p.vel)
            };
            let capped = Physics { vel, ..p };
            match c.transform {
                None => Components { physics: Some(capped), ..c },
                Some(t) => Components {
                    physics: Some(capped),
                    transform: Some(
                        CTransform {
                            pos: add_spec(t.pos, vel),
                            rot: turn_spec(t.rot as int, p.rot_vel as int) as u32,
                        },
                    ),
                    ..c
                },
            }
        },
    }
}

fn integrate_exec(c: Components) -> (r: Components)
    requires
        c.bounded(),
    ensures
        r == integrate(c),
        r.bounded(),
        r.physics matches Some(p) ==> (c.velocity_uncapped.is_none() ==> p.vel.len_sq() <= MAX_VEL
            * MAX_VEL),
{
    match c.physics {
        None => c,
        Some(p) => {
            let vel = if c.velocity_uncapped.is_some() {
                p.vel
            } else {
                cap(p.vel)
            };
            let capped = Physics { vel, rot_vel: p.rot_vel };
            match c.transform {
                None => Components { physics: Some(capped), ..c },
                Some(t) => Components {
                    physics: Some(capped),
                    transform: Some(
                        CTransform { pos: add_vec(t.pos, vel), rot: turn(t.rot, p.rot_vel) },
                    ),
                    ..c
                },
            }
        },
    }
}

/// A live entity without the uncapped tag moves no faster than `MAX_VEL`.
pub open spec fn speed_capped(r: Row) -> bool {
    r.alive && r.comps.velocity_uncapped is None ==> (r.comps.physics matches Some(p)
        ==> p.vel.len_sq() <= MAX_VEL * MAX_VEL)
}

pub open spec fn speeds_capped(rows: Seq<Row>) -> bool {
    forall|i: int| 0 <= i < rows.len() ==> speed_capped(#[trigger] rows[i])
}

/// Physics integration for every live entity (see `integrate`). Afterwards
/// no live entity without the uncapped tag moves faster than `MAX_VEL`.
pub fn physics(world: &mut World)
    requires
        old(world).wf(),
    ensures
        final(world).wf(),
        rows_mapped(old(world)@, final(world)@, |c: Components| integrate(c)),
        speeds_capped(final(world)@),
{
    let ghost start = world@;
    let mut i: usize = 0;
    while i < world.len()
        invariant
            world.wf(),
            world@.len() == start.len(),
            i <= start.len(),
            forall|j: int|
                0 <= j < i ==> #[trigger] world@[j] == mapped_row(
                    start[j],
                    |c: Components| integrate(c),
                ),
            forall|j: int| i <= j < start.len() ==> #[trigger] world@[j] == start[j],
            forall|j: int| 0 <= j < i ==> speed_capped(#[trigger] world@[j]),
        decreases start.len() - i,
    {
        let row = world.row(i);
        if row.alive {
            assert(world@[i as int].comps.bounded());
            let c = integrate_exec(row.comps);
            world.set(Entity { index: i, generation: row.generation }, c);
        }
        i = i + 1;
    }
}

/// The wrap of one entity: with a transform and without the capture tag,
/// each coordinate is brought back across the field once.
pub open spec fn wrap_row(c: Components) -> Components {
    match c.transform {
        Some(t) if c.capture.is_none() => Components {
            transform: Some(CTransform { pos: wrap_spec(t.pos), ..t }),
            ..c
        },
        _ => c,
    }
}

/// An entity without the capture tag that has left the field by less than
/// a field's width on the right (or bottom) is brought back by exactly one
/// width (or height): `x = width + d` becomes `x = d`.
pub proof fn lemma_wrap_past_edge(c: Components)
    requires
        c.capture is None,
        c.transform is Some,
    ensures
        ({
            let p = c.transform.unwrap().pos;
            let q = wrap_row(c).transform.unwrap().pos;
            &&& (FIELD_WIDTH < p.x <= 2 * FIELD_WIDTH ==> q.x == p.x - FIELD_WIDTH)
            &&& (FIELD_HEIGHT < p.y <= 2 * FIELD_HEIGHT ==> q.y == p.y - FIELD_HEIGHT)
            &&& (0 <= p.x <= FIELD_WIDTH ==> q.x == p.x)
            &&& (0 <= p.y <= FIELD_HEIGHT ==> q.y == p.y)
        }),
{
}

/// Wraps the positions of live entities that carry no capture tag.
pub fn world_wrap(world: &mut World)
    requires
        old(world).wf(),
    ensures
        final(world).wf(),
        rows_mapped(old(world)@, final(world)@, |c: Components| wrap_row(c)),
{
    let ghost start = world@;
    let mut i: usize = 0;
    while i < world.len()
        invariant
            world.wf(),
            world@.len() == start.len(),
            i <= start.len(),
            forall|j: int|
                0 <= j < i ==> #[trigger] world@[j] == mapped_row(
                    start[j],
                    |c: Components| wrap_row(c),
                ),
            forall|j: int| i <= j < start.len() ==> #[trigger] world@[j] == start[j],
        decreases start.len() - i,
    {
        let row = world.row(i);
        if row.alive {
            assert(world@[i as int].comps.bounded());
            let c = row.comps;
            match c.transform {
                Some(t) => {
                    if c.capture.is_none() {
                        let c2 = Components {
                            transform: Some(CTransform { pos: wrap(t.pos), rot: t.rot }),
                            ..c
                        };
                        world.set(Entity { index: i, generation: row.generation }, c2);
                    }
                },
                None => {},
            }
        }
        i = i + 1;
    }
}

/// Whether row `i` holds a captured entity that has entered the field.
pub open spec fn captured_inside(r: Row) -> bool {
    &&& r.alive
    &&& r.comps.capture is Some
    &&& (r.comps.transform matches Some(t) && in_play_field(t.pos))
}

/// The tag removals for rows `[0, n)`, in row order.
pub open spec fn capture_releases(rows: Seq<Row>, n: int) -> Seq<Command>
    decreases n,
{
    if n <= 0 {
        Seq::empty()
    } else if captured_inside(rows[n - 1]) {
        capture_releases(rows, n - 1).push(
            Command::Remove(entity_of(rows, n - 1), ComponentKind::CaptureInPlayField),
        )
    } else {
        capture_releases(rows, n - 1)
    }
}

/// Queues the removal of the capture tag from each live entity that is now
/// strictly inside the field.
pub fn capture_in_play_field(world: &World, cmds: &mut CommandBuffer)
    requires
        old(cmds).wf(),
    ensures
        final(cmds).wf(),
        final(cmds)@ == old(cmds)@ + capture_releases(world@, world@.len() as int),
{
    let mut i: usize = 0;
    while i < world.len()
        invariant
            cmds.wf(),
            i <= world@.len(),
            cmds@ == old(cmds)@ + capture_releases(world@, i as int),
        decreases world@.len() - i,
    {
        let row = world.row(i);
        if row.alive && row.comps.capture.is_some() {
            match row.comps.transform {
                Some(t) => {
                    if 0 < t.pos.x && t.pos.x < FIELD_WIDTH && 0 < t.pos.y && t.pos.y
                        < FIELD_HEIGHT {
                        cmds.remove_component(
                            Entity { index: i, generation: row.generation },
                            ComponentKind::CaptureInPlayField,
                        );
                    }
                },
                None => {},
            }
        }
        i = i + 1;
    }
}

/// One frame off a lifespan, stopping at zero.
pub open spec fn age(c: Components) -> Components {
    match c.life_span {
        Some(l) => Components {
            life_span: Some(
                LifeSpan {
                    frames_left: if l.frames_left > 0 {
                        (l.frames_left - 1) as u32
                    } else {
                        0
                    },
                },
            ),
            ..c
        },
        None => c,
    }
}

/// The despawns of rows `[0, n)` whose lifespan has run out after aging.
pub open spec fn expiries(rows: Seq<Row>, n: int) -> Seq<Command>
    decreases n,
{
    if n <= 0 {
        Seq::empty()
    } else if rows[n - 1].alive && (rows[n - 1].comps.life_span matches Some(l)
        && l.frames_left <= 1) {
        expiries(rows, n - 1).push(Command::Despawn(entity_of(rows, n - 1)))
    } else {
        expiries(rows, n - 1)
    }
}

/// Counts every lifespan down by one frame and queues the despawn of each
/// entity whose lifespan reaches zero.
pub fn step_lifespan(world: &mut World, cmds: &mut CommandBuffer)
    requires
        old(world).wf(),
        old(cmds).wf(),
    ensures
        final(world).wf(),
        final(cmds).wf(),
        rows_mapped(old(world)@, final(world)@, |c: Components| age(c)),
        final(cmds)@ == old(cmds)@ + expiries(old(world)@, old(world)@.len() as int),
{
    let ghost start = world@;
    let mut i: usize = 0;
    while i < world.len()
        invariant
            world.wf(),
            cmds.wf(),
            world@.len() == start.len(),
            i <= start.len(),
            forall|j: int|
                0 <= j < i ==> #[trigger] world@[j] == mapped_row(
                    start[j],
                    |c: Components| age(c),
                ),
            forall|j: int| i <= j < start.len() ==> #[trigger] world@[j] == start[j],
            cmds@ == old(cmds)@ + expiries(start, i as int),
        decreases start.len() - i,
    {
        let row = world.row(i);
        if row.alive {
            assert(world@[i as int].comps.bounded());
            match row.comps.life_span {
                Some(l) => {
                    let left: u32 = if l.frames_left > 0 {
                        l.frames_left - 1
                    } else {
                        0
                    };
                    let e = Entity { index: i, generation: row.generation };
                    world.set(e, Components { life_span: Some(LifeSpan { frames_left: left }), ..row.comps });
                    if left == 0 {
                        cmds.despawn(e);
                    }
                },
                None => {},
            }
        }
        i = i + 1;
    }
}

} // verus!
