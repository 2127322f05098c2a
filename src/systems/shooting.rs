use vstd::prelude::*;

use crate::commands::{Command, CommandBuffer};
use crate::components::{
    Bullet, CTransform, Components, Entity, Gun, LifeSpan, OwnedBy, Physics, VelocityUncapped,
};
use crate::geom::{add_spec, add_vec, dir_of, direction, scale, scale_spec, UNIT};
use crate::world::{mapped_row, rows_mapped, Row, World};

verus! {

/// Speed of a fired bullet: 100 pixels per step.
pub const BULLET_VELOCITY: i64 = 100_000;

/// Frames a bullet lives.
pub const BULLET_LIFESPAN: u32 = 60;

/// How far ahead of the gun a bullet appears: 2 pixels.
pub const MUZZLE_OFFSET: i64 = 2 * UNIT;

/// The bullet fired by a gun at `t` owned by `owner`: just ahead of the gun,
/// facing its way, moving at `BULLET_VELOCITY` along its heading.
pub open spec fn bullet_bundle(t: CTransform, owner: Entity) -> Components {
    let d = dir_of(t.rot as int);
    Components {
        transform: Some(CTransform { pos: add_spec(t.pos, scale_spec(d, MUZZLE_OFFSET as int)), rot: t.rot }),
        physics: Some(Physics { vel: scale_spec(d, BULLET_VELOCITY as int), rot_vel: 0 }),
        bullet: Some(Bullet),
        owned_by: Some(OwnedBy { owner }),
        life_span: Some(LifeSpan { frames_left: BULLET_LIFESPAN }),
        velocity_uncapped: Some(VelocityUncapped),
        ..Components::empty_spec()
    }
}

/// A cooldown one frame further on, stopping at zero.
pub open spec fn cooled(n: u32) -> u32 {
    if n > 0 {
        (n - 1) as u32
    } else {
        0
    }
}

/// Whether an armed gun (transform, gun and owner) fires this step: its
/// cooldown has run out and it wants to shoot.
pub open spec fn gun_fires(c: Components) -> bool {
    &&& c.transform is Some
    &&& c.owned_by is Some
    &&& (c.gun matches Some(g) && cooled(g.cooldown) == 0 && g.wants_to_shoot)
}

/// The gun of an armed entity after one step: cooled by a frame, or reset
/// to its fire delay when it fires.
pub open spec fn gun_step(c: Components) -> Components {
    match (c.transform, c.gun, c.owned_by) {
        (Some(_), Some(g), Some(_)) => Components {
            gun: Some(
                Gun {
                    cooldown: if gun_fires(c) {
                        g.fire_delay
                    } else {
                        cooled(g.cooldown)
                    },
                    ..g
                },
            ),
            ..c
        },
        _ => c,
    }
}

/// The bullets spawned by rows `[0, n)`, in row order: one per firing gun.
pub open spec fn shots(rows: Seq<Row>, n: int) -> Seq<Command>
    decreases n,
{
    if n <= 0 {
        Seq::empty()
    } else if rows[n - 1].alive && gun_fires(rows[n - 1].comps) {
        shots(rows, n - 1).push(
            Command::Spawn(
                bullet_bundle(
                    rows[n - 1].comps.transform.unwrap(),
                    rows[n - 1].comps.owned_by.unwrap().owner,
                ),
            ),
        )
    } else {
        shots(rows, n - 1)
    }
}

/// A gun whose cooldown is zero and that wants to shoot fires: it spawns one
/// bullet moving along the gun's heading at `BULLET_VELOCITY`, and its
/// cooldown becomes its fire delay.
pub proof fn lemma_gun_fires(c: Components)
    requires
        c.transform is Some,
        c.owned_by is Some,
        c.gun matches Some(g) && g.cooldown == 0 && g.wants_to_shoot,
    ensures
        gun_fires(c),
        gun_step(c).gun.unwrap().cooldown == c.gun.unwrap().fire_delay,
        bullet_bundle(c.transform.unwrap(), c.owned_by.unwrap().owner).physics == Some(
            Physics {
                vel: scale_spec(dir_of(c.transform.unwrap().rot as int), BULLET_VELOCITY as int),
                rot_vel: 0,
            },
        ),
        bullet_bundle(c.transform.unwrap(), c.owned_by.unwrap().owner).bullet is Some,
{
}

/// The number of firing guns among rows `[0, n)`.
pub open spec fn firing_count(rows: Seq<Row>, n: int) -> int
    decreases n,
{
    if n <= 0 {
        0
    } else {
        firing_count(rows, n - 1) + if rows[n - 1].alive && gun_fires(rows[n - 1].comps) {
            1int
        } else {
            0
        }
    }
}

/// A gun whose cooldown is zero and that wants to shoot, in a table of
/// entities: what `guns` queues holds exactly one bullet for it (at the
/// place given by the firing guns before it, in row order), moving along
/// its heading at `BULLET_VELOCITY` and owned by the gun's owner; one
/// bullet per firing gun in all; and the gun's cooldown becomes its fire
/// delay, the rest of its gun unchanged.
pub proof fn lemma_guns_fire_once(rows: Seq<Row>, i: int)
    requires
        0 <= i < rows.len(),
        rows[i].alive,
        rows[i].comps.transform is Some,
        rows[i].comps.owned_by is Some,
        rows[i].comps.gun matches Some(g) && g.cooldown == 0 && g.wants_to_shoot,
    ensures
        ({
            let s = shots(rows, rows.len() as int);
            let c = rows[i].comps;
            let t = c.transform.unwrap();
            let g = c.gun.unwrap();
            &&& s.len() == firing_count(rows, rows.len() as int)
            &&& 0 <= firing_count(rows, i) < s.len()
            &&& s[firing_count(rows, i)] == Command::Spawn(bullet_bundle(t, c.owned_by.unwrap().owner))
            &&& bullet_bundle(t, c.owned_by.unwrap().owner).physics == Some(
                Physics { vel: scale_spec(dir_of(t.rot as int), BULLET_VELOCITY as int), rot_vel: 0 },
            )
            &&& mapped_row(rows[i], |x: Components| gun_step(x)).comps.gun == Some(
                Gun { cooldown: g.fire_delay, ..g },
            )
        }),
{
    lemma_gun_fires(rows[i].comps);
    lemma_shots_index(rows, rows.len() as int, i);
}

proof fn lemma_shots_index(rows: Seq<Row>, n: int, i: int)
    requires
        0 <= i < n <= rows.len(),
        rows[i].alive && gun_fires(rows[i].comps),
    ensures
        shots(rows, n).len() == firing_count(rows, n),
        0 <= firing_count(rows, i) < firing_count(rows, n),
        shots(rows, n)[firing_count(rows, i)] == Command::Spawn(
            bullet_bundle(rows[i].comps.transform.unwrap(), rows[i].comps.owned_by.unwrap().owner),
        ),
    decreases n,
{
    lemma_shots_len(rows, n);
    lemma_firing_count_nonneg(rows, i);
    if n - 1 > i {
        lemma_shots_index(rows, n - 1, i);
    } else {
        lemma_shots_len(rows, n - 1);
    }
}

proof fn lemma_shots_len(rows: Seq<Row>, n: int)
    requires
        0 <= n <= rows.len(),
    ensures
        shots(rows, n).len() == firing_count(rows, n),
    decreases n,
{
    if n > 0 {
        lemma_shots_len(rows, n - 1);
    }
}

proof fn lemma_firing_count_nonneg(rows: Seq<Row>, n: int)
    ensures
        firing_count(rows, n) >= 0,
    decreases n,
{
    if n > 0 {
        lemma_firing_count_nonneg(rows, n - 1);
    }
}

fn bullet_bundle_exec(t: CTransform, owner: Entity) -> (r: Components)
    requires
        t.pos.bounded(),
    ensures
        r == bullet_bundle(t, owner),
        r.bounded(),
{
    let d = direction(t.rot);
    Components {
        transform: Some(CTransform { pos: add_vec(t.pos, scale(d, MUZZLE_OFFSET)), rot: t.rot }),
        physics: Some(Physics { vel: scale(d, BULLET_VELOCITY), rot_vel: 0 }),
        bullet: Some(Bullet),
        owned_by: Some(OwnedBy { owner }),
        life_span: Some(LifeSpan { frames_left: BULLET_LIFESPAN }),
        velocity_uncapped: Some(VelocityUncapped),
        ..Components::empty()
    }
}

/// Cools every armed gun by a frame and fires those that are ready and
/// want to shoot.
pub fn guns(world: &mut World, cmds: &mut CommandBuffer)
    requires
        old(world).wf(),
        old(cmds).wf(),
    ensures
        final(world).wf(),
        final(cmds).wf(),
        rows_mapped(old(world)@, final(world)@, |c: Components| gun_step(c)),
        final(cmds)@ == old(cmds)@ + shots(old(world)@, old(world)@.len() as int),
{
    let ghost start = world@;
    let mut i: usize = 0;
    while i < world.len()
        invariant
            world.wf(),
            cmds.wf(),
            world@.len() == start.len(),
            i <= start.len(),
            forall|j: int|
                0 <= j < i ==> #[trigger] world@[j] == mapped_row(
                    start[j],
                    |c: Components| gun_step(c),
                ),
            forall|j: int| i <= j < start.len() ==> #[trigger] world@[j] == start[j],
            cmds@ == old(cmds)@ + shots(start, i as int),
        decreases start.len() - i,
    {
        let row = world.row(i);
        assert(start[i as int].comps.bounded());
        if row.alive {
            match (row.comps.transform, row.comps.gun, row.comps.owned_by) {
                (Some(t), Some(g), Some(o)) => {
                    let mut cooldown: u32 = if g.cooldown > 0 {
                        g.cooldown - 1
                    } else {
                        0
                    };
                    if cooldown == 0 && g.wants_to_shoot {
                        cmds.spawn(bullet_bundle_exec(t, o.owner));
                        cooldown = g.fire_delay;
                    }
                    let c = Components {
                        gun: Some(
                            Gun {
                                wants_to_shoot: g.wants_to_shoot,
                                fire_delay: g.fire_delay,
                                cooldown,
                            },
                        ),
                        ..row.comps
                    };
                    world.set(Entity { index: i, generation: row.generation }, c);
                },
                _ => {},
            }
        }
        i = i + 1;
    }
}

} // verus!
