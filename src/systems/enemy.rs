use vstd::prelude::*;

use rand::rngs::StdRng;

use crate::commands::{Command, CommandBuffer};
use crate::components::{Component, ComponentKind, Components, Entity, LookAt, Physics, WantsToGoTo};
use crate::geom::{
    add_spec, add_vec, dir_of, direction, dist_sq, distance_sq, div_toward_zero, heading_to,
    heading_towards, in_play_field, scale, scale_spec, sub_spec, sub_vec, Vec2, FIELD_HEIGHT,
    FIELD_WIDTH, FULL_TURN, UNIT,
};
use crate::random::random_index;
use crate::systems::spawning::{get_random_pos_in_play_area, in_field_or_edge};
use crate::world::{alive_in, entity_of, mapped_row, query_spec, rows_mapped, Filter, Row, World};

verus! {

/// Thrust of an enemy toward its goal per step: half a pixel.
pub const PURSUIT_THRUST: i64 = 500;

/// An enemy closer than this to its goal (5 pixels) drops the goal.
pub const ARRIVAL_DISTANCE: i64 = 5 * UNIT;

/// Turning gain toward a look-at target: the rotational velocity, in
/// degrees, per tenth of a degree still to turn (about pi / 18).
pub const LOOK_GAIN_NUM: i64 = 1745;
pub const LOOK_GAIN_DEN: i64 = 10_000;

pub open spec fn is_enemy(r: Row) -> bool {
    r.alive && r.comps.enemy is Some
}

/// A gun lying free in the field: nobody owns it and it is inside.
pub open spec fn is_free_gun(r: Row) -> bool {
    &&& r.alive
    &&& r.comps.gun is Some
    &&& r.comps.owned_by is None
    &&& (r.comps.transform matches Some(t) && in_play_field(t.pos))
}

/// The positions of the free guns in rows `[0, n)`, in row order.
pub open spec fn free_guns(rows: Seq<Row>, n: int) -> Seq<Vec2>
    decreases n,
{
    if n <= 0 {
        Seq::empty()
    } else if is_free_gun(rows[n - 1]) {
        free_guns(rows, n - 1).push(rows[n - 1].comps.transform.unwrap().pos)
    } else {
        free_guns(rows, n - 1)
    }
}

/// The index of the first of `guns[0..k]` nearest to `p`.
pub open spec fn nearest(guns: Seq<Vec2>, p: Vec2, k: int) -> int
    decreases k,
{
    if k <= 1 {
        0
    } else {
        let b = nearest(guns, p, k - 1);
        if dist_sq(guns[k - 1], p) < dist_sq(guns[b], p) {
            k - 1
        } else {
            b
        }
    }
}

/// An enemy's goal and motion after one step: its goal moves to the
/// nearest free gun when there is one; it thrusts toward its goal.
pub open spec fn pursue(c: Components, guns: Seq<Vec2>) -> Components {
    match (c.enemy, c.transform, c.wants_to_go_to) {
        (Some(_), Some(t), Some(w)) => {
            let goal = if guns.len() > 0 {
                guns[nearest(guns, t.pos, guns.len() as int)]
            } else {
                w.pos
            };
            let c1 = Components { wants_to_go_to: Some(WantsToGoTo { pos: goal }), ..c };
            match c1.physics {
                Some(p) => {
                    let d = dir_of(heading_to(sub_spec(goal, t.pos)));
                    Components {
                        physics: Some(
                            Physics { vel: add_spec(p.vel, scale_spec(d, PURSUIT_THRUST as int)), ..p },
                        ),
                        ..c1
                    }
                },
                None => c1,
            }
        },
        _ => c,
    }
}

/// An enemy that has come within `ARRIVAL_DISTANCE` of its goal.
pub open spec fn arrived(c: Components) -> bool {
    &&& c.enemy is Some
    &&& c.transform is Some
    &&& (c.wants_to_go_to matches Some(w) && dist_sq(w.pos, c.transform.unwrap().pos)
        < ARRIVAL_DISTANCE * ARRIVAL_DISTANCE)
}

/// The goal removals for rows `[0, n)` of the table after pursuit.
pub open spec fn arrivals(rows: Seq<Row>, n: int) -> Seq<Command>
    decreases n,
{
    if n <= 0 {
        Seq::empty()
    } else if rows[n - 1].alive && arrived(rows[n - 1].comps) {
        arrivals(rows, n - 1).push(Command::Remove(entity_of(rows, n - 1), ComponentKind::WantsToGoTo))
    } else {
        arrivals(rows, n - 1)
    }
}

/// Enemies with no look-at target, in row order.
pub open spec fn lookers(rows: Seq<Row>, n: int) -> Seq<Entity>
    decreases n,
{
    if n <= 0 {
        Seq::empty()
    } else if is_enemy(rows[n - 1]) && rows[n - 1].comps.look_at is None {
        lookers(rows, n - 1).push(entity_of(rows, n - 1))
    } else {
        lookers(rows, n - 1)
    }
}

/// Enemies with no goal, in row order.
pub open spec fn wanderers(rows: Seq<Row>, n: int) -> Seq<Entity>
    decreases n,
{
    if n <= 0 {
        Seq::empty()
    } else if is_enemy(rows[n - 1]) && rows[n - 1].comps.wants_to_go_to is None {
        wanderers(rows, n - 1).push(entity_of(rows, n - 1))
    } else {
        wanderers(rows, n - 1)
    }
}

/// `cs` gives each of `who` a look-at target among `players`, in order.
pub open spec fn targets_assigned(cs: Seq<Command>, who: Seq<Entity>, players: Seq<Entity>) -> bool {
    &&& cs.len() == who.len()
    &&& forall|k: int|
        0 <= k < cs.len() ==> (#[trigger] cs[k] matches Command::Insert(
            e,
            Component::LookAt(l),
        ) && (e == who[k] && players.contains(l.entity)))
}

/// `cs` gives each of `who` a goal in the field, in order.
pub open spec fn goals_assigned(cs: Seq<Command>, who: Seq<Entity>) -> bool {
    &&& cs.len() == who.len()
    &&& forall|k: int|
        0 <= k < cs.len() ==> (#[trigger] cs[k] matches Command::Insert(
            e,
            Component::WantsToGoTo(w),
        ) && (e == who[k] && in_field_or_edge(w.pos)))
}

fn free_gun_positions(world: &World) -> (r: Vec<Vec2>)
    requires
        world.wf(),
    ensures
        r@ == free_guns(world@, world@.len() as int),
        forall|k: int| 0 <= k < r@.len() ==> (#[trigger] r@[k]).bounded(),
{
    let mut out: Vec<Vec2> = Vec::new();
    let mut i: usize = 0;
    while i < world.len()
        invariant
            world.wf(),
            i <= world@.len(),
            out@ == free_guns(world@, i as int),
            forall|k: int| 0 <= k < out@.len() ==> (#[trigger] out@[k]).bounded(),
        decreases world@.len() - i,
    {
        let row = world.row(i);
        assert(world@[i as int].comps.bounded());
        if row.alive && row.comps.gun.is_some() && row.comps.owned_by.is_none() {
            match row.comps.transform {
                Some(t) => {
                    if 0 < t.pos.x && t.pos.x < FIELD_WIDTH && 0 < t.pos.y && t.pos.y < FIELD_HEIGHT {
                        out.push(t.pos);
                    }
                },
                None => {},
            }
        }
        i = i + 1;
    }
    out
}

fn nearest_exec(guns: &Vec<Vec2>, p: Vec2) -> (r: usize)
    requires
        guns@.len() > 0,
        p.bounded(),
        forall|k: int| 0 <= k < guns@.len() ==> (#[trigger] guns@[k]).bounded(),
    ensures
        r == nearest(guns@, p, guns@.len() as int),
        r < guns@.len(),
{
    let mut best: usize = 0;
    let mut k: usize = 1;
    while k < guns.len()
        invariant
            1 <= k <= guns@.len(),
            p.bounded(),
            forall|j: int| 0 <= j < guns@.len() ==> (#[trigger] guns@[j]).bounded(),
            best == nearest(guns@, p, k as int),
            best < k,
        decreases guns@.len() - k,
    {
        if distance_sq(guns[k], p) < distance_sq(guns[best], p) {
            best = k;
        }
        k = k + 1;
    }
    best
}

fn pursue_exec(c: Components, guns: &Vec<Vec2>) -> (r: Components)
    requires
        c.bounded(),
        forall|k: int| 0 <= k < guns@.len() ==> (#[trigger] guns@[k]).bounded(),
    ensures
        r == pursue(c, guns@),
        r.bounded(),
{
    match (c.enemy, c.transform, c.wants_to_go_to) {
        (Some(_), Some(t), Some(w)) => {
            let goal = if guns.len() > 0 {
                guns[nearest_exec(guns, t.pos)]
            } else {
                w.pos
            };
            let c1 = Components { wants_to_go_to: Some(WantsToGoTo { pos: goal }), ..c };
            match c1.physics {
                Some(p) => {
                    let d = direction(heading_towards(sub_vec(goal, t.pos)));
                    Components {
                        physics: Some(
                            Physics { vel: add_vec(p.vel, scale(d, PURSUIT_THRUST)), rot_vel: p.rot_vel },
                        ),
                        ..c1
                    }
                },
                None => c1,
            }
        },
        _ => c,
    }
}

/// The commands enemy behaviour queues on `start` (ending at `end` after
/// pursuit), appended to `c` to give `d`: look-at targets for the enemies
/// that lack one (when there is a player), goals for those that lack one,
/// and the removal of goals reached.
pub open spec fn enemy_queued(start: Seq<Row>, end: Seq<Row>, c: Seq<Command>, d: Seq<Command>) -> bool {
    let players = query_spec(start, Filter::Has(ComponentKind::Player), start.len() as int);
    let look = if players.len() > 0 {
        lookers(start, start.len() as int)
    } else {
        Seq::empty()
    };
    let wander = wanderers(start, start.len() as int);
    let n0 = c.len() as int;
    let n1 = n0 + look.len();
    let n2 = n1 + wander.len();
    &&& d.subrange(0, n0) == c
    &&& d.len() >= n2
    &&& targets_assigned(d.subrange(n0, n1), look, players)
    &&& goals_assigned(d.subrange(n1, n2), wander)
    &&& d.subrange(n2, d.len() as int) == arrivals(end, end.len() as int)
}

/// Enemy decisions for one step: each enemy without a look-at target is
/// given a random player (when there is one) and each without a goal a
/// random point of the field (both queued); each with a goal retargets it
/// to the nearest free gun in the field, if any, and thrusts toward it (in
/// place); goals reached are queued for removal.
pub fn enemy_behaviour(world: &mut World, rng: &mut StdRng, cmds: &mut CommandBuffer)
    requires
        old(world).wf(),
        old(cmds).wf(),
    ensures
        final(world).wf(),
        final(cmds).wf(),
        rows_mapped(
            old(world)@,
            final(world)@,
            |c: Components| pursue(c, free_guns(old(world)@, old(world)@.len() as int)),
        ),
        enemy_queued(old(world)@, final(world)@, old(cmds)@, final(cmds)@),
{
    let ghost start = world@;
    let ghost c0 = cmds@;
    let n = world.len();
    let players = world.query(&Filter::has(ComponentKind::Player));
    let ghost look = if players@.len() > 0 {
        lookers(start, start.len() as int)
    } else {
        Seq::<Entity>::empty()
    };
    // look-at targets
    if players.len() > 0 {
        let mut i: usize = 0;
        while i < n
            invariant
                world@ == start,
                n == start.len(),
                cmds.wf(),
                players@.len() > 0,
                i <= n,
                cmds@.len() == c0.len() + lookers(start, i as int).len(),
                cmds@.subrange(0, c0.len() as int) == c0,
                targets_assigned(cmds@.subrange(c0.len() as int, cmds@.len() as int), lookers(start, i as int), players@),
            decreases n - i,
        {
            let row = world.row(i);
            let ghost before = cmds@;
            if row.alive && row.comps.enemy.is_some() && row.comps.look_at.is_none() {
                let j = random_index(rng, players.len());
                cmds.add_component(
                    Entity { index: i, generation: row.generation },
                    Component::LookAt(LookAt { entity: players[j] }),
                );
                proof {
                    let a = cmds@.subrange(c0.len() as int, cmds@.len() as int);
                    let pa = before.subrange(c0.len() as int, before.len() as int);
                    assert(a =~= pa.push(cmds@.last()));
                    let who = lookers(start, i + 1);
                    assert forall|k: int| 0 <= k < a.len() implies (#[trigger] a[k] matches Command::Insert(
                        e,
                        Component::LookAt(l),
                    ) && (e == who[k] && players@.contains(l.entity))) by {
                        if k < pa.len() {
                            assert(a[k] == pa[k]);
                        } else {
                            assert(players@[j as int] == players@[j as int]);
                        }
                    }
                }
            } else {
                assert(cmds@.subrange(c0.len() as int, cmds@.len() as int) =~= before.subrange(c0.len() as int, before.len() as int));
            }
            assert(cmds@.subrange(0, c0.len() as int) =~= c0);
            i = i + 1;
        }
    } else {
        assert(cmds@.subrange(c0.len() as int, cmds@.len() as int) =~= Seq::<Command>::empty());
        assert(cmds@.subrange(0, c0.len() as int) =~= c0);
    }
    // goals
    let ghost c1 = cmds@;
    let mut i: usize = 0;
    while i < n
        invariant
            world@ == start,
            n == start.len(),
            cmds.wf(),
            i <= n,
            cmds@.len() == c1.len() + wanderers(start, i as int).len(),
            cmds@.subrange(0, c1.len() as int) == c1,
            goals_assigned(cmds@.subrange(c1.len() as int, cmds@.len() as int), wanderers(start, i as int)),
        decreases n - i,
    {
        let row = world.row(i);
        let ghost before = cmds@;
        if row.alive && row.comps.enemy.is_some() && row.comps.wants_to_go_to.is_none() {
            let p = get_random_pos_in_play_area(rng);
            assert(p.bounded());
            cmds.add_component(
                Entity { index: i, generation: row.generation },
                Component::WantsToGoTo(WantsToGoTo { pos: p }),
            );
            proof {
                let a = cmds@.subrange(c1.len() as int, cmds@.len() as int);
                let pa = before.subrange(c1.len() as int, before.len() as int);
                assert(a =~= pa.push(cmds@.last()));
                let who = wanderers(start, i + 1);
                assert forall|k: int| 0 <= k < a.len() implies (#[trigger] a[k] matches Command::Insert(
                    e,
                    Component::WantsToGoTo(w),
                ) && (e == who[k] && in_field_or_edge(w.pos))) by {
                    if k < pa.len() {
                        assert(a[k] == pa[k]);
                    }
                }
            }
        } else {
            assert(cmds@.subrange(c1.len() as int, cmds@.len() as int) =~= before.subrange(c1.len() as int, before.len() as int));
        }
        assert(cmds@.subrange(0, c1.len() as int) =~= c1);
        i = i + 1;
    }
    // pursuit, in place
    let guns = free_gun_positions(world);
    let mut i: usize = 0;
    while i < n
        invariant
            world.wf(),
            n == start.len(),
            world@.len() == start.len(),
            i <= n,
            guns@ == free_guns(start, start.len() as int),
            forall|k: int| 0 <= k < guns@.len() ==> (#[trigger] guns@[k]).bounded(),
            forall|j: int|
                0 <= j < i ==> #[trigger] world@[j] == mapped_row(
                    start[j],
                    |c: Components| pursue(c, free_guns(start, start.len() as int)),
                ),
            forall|j: int| i <= j < start.len() ==> #[trigger] world@[j] == start[j],
        decreases n - i,
    {
        let row = world.row(i);
        if row.alive {
            assert(world@[i as int].comps.bounded());
            let c = pursue_exec(row.comps, &guns);
            world.set(Entity { index: i, generation: row.generation }, c);
        }
        i = i + 1;
    }
    // arrivals
    let ghost c2 = cmds@;
    let mut i: usize = 0;
    while i < n
        invariant
            world.wf(),
            n == world@.len(),
            cmds.wf(),
            i <= n,
            cmds@ == c2 + arrivals(world@, i as int),
        decreases n - i,
    {
        let row = world.row(i);
        assert(world@[i as int].comps.bounded());
        if row.alive && row.comps.enemy.is_some() {
            match (row.comps.transform, row.comps.wants_to_go_to) {
                (Some(t), Some(w)) => {
                    if distance_sq(w.pos, t.pos) < 25_000_000 {
                        cmds.remove_component(
                            Entity { index: i, generation: row.generation },
                            ComponentKind::WantsToGoTo,
                        );
                    }
                },
                _ => {},
            }
        }
        i = i + 1;
    }
    proof {
        let n0 = c0.len() as int;
        let n1 = c1.len() as int;
        let n2 = c2.len() as int;
        assert(cmds@.subrange(0, n0) =~= c0);
        assert(cmds@.subrange(n0, n1) =~= c1.subrange(n0, n1));
        assert(cmds@.subrange(n1, n2) =~= c2.subrange(n1, n2));
        assert(cmds@.subrange(n2, cmds@.len() as int) =~= arrivals(world@, world@.len() as int));
    }
}

/// The turn, in tenths of a degree within `(-1800, 1800]`, from heading
/// `from` to heading `to` the short way round.
pub open spec fn turn_between(from: int, to: int) -> int {
    let d = (to - from) % (FULL_TURN as int);
    if d > 1800 {
        d - FULL_TURN
    } else {
        d
    }
}

/// A looking enemy after one step: when its target is alive, has a
/// transform and stands elsewhere, it spins toward the target in proportion
/// to the angle left to turn.
pub open spec fn looked(rows: Seq<Row>, c: Components) -> Components {
    match (c.enemy, c.transform, c.physics, c.look_at) {
        (Some(_), Some(t), Some(p), Some(l)) => {
            if alive_in(rows, l.entity) && rows[l.entity.index as int].comps.transform is Some {
                let tt = rows[l.entity.index as int].comps.transform.unwrap();
                let delta = sub_spec(tt.pos, t.pos);
                if delta == (Vec2 { x: 0, y: 0 }) {
                    c
                } else {
                    let turn = turn_between(t.rot as int, heading_to(delta));
                    Components {
                        physics: Some(
                            Physics {
                                rot_vel: div_toward_zero(turn * LOOK_GAIN_NUM, LOOK_GAIN_DEN as int) as i32,
                                ..p
                            },
                        ),
                        ..c
                    }
                }
            } else {
                c
            }
        },
        _ => c,
    }
}

fn looked_exec(world: &World, c: Components) -> (r: Components)
    requires
        world.wf(),
        c.bounded(),
    ensures
        r == looked(world@, c),
        r.bounded(),
{
    match (c.enemy, c.transform, c.physics, c.look_at) {
        (Some(_), Some(t), Some(p), Some(l)) => {
            match world.entry(l.entity) {
                Some(tc) => {
                    match tc.transform {
                        Some(tt) => {
                            assert(world@[l.entity.index as int].comps.bounded());
                            let delta = sub_vec(tt.pos, t.pos);
                            if delta.x == 0 && delta.y == 0 {
                                c
                            } else {
                                let want = heading_towards(delta);
                                let d: i64 = (want as i64 - (t.rot % FULL_TURN) as i64 + 3600) % 3600;
                                assert(d as int == (want as int - t.rot as int) % 3600) by (nonlinear_arith)
                                    requires
                                        d == (want as int - (t.rot as int % 3600) + 3600) % 3600,
                                        0 <= want < 3600,
                                ;
                                let turn: i64 = if d > 1800 {
                                    d - 3600
                                } else {
                                    d
                                };
                                let m: i64 = if turn >= 0 {
                                    turn * LOOK_GAIN_NUM / LOOK_GAIN_DEN
                                } else {
                                    -((-turn) * LOOK_GAIN_NUM / LOOK_GAIN_DEN)
                                };
                                assert(-400 <= m <= 400) by (nonlinear_arith)
                                    requires
                                        -1800 <= turn <= 1800,
                                        m == (if turn >= 0 {
                                            turn * 1745 / 10000
                                        } else {
                                            -((-turn) * 1745 / 10000)
                                        }),
                                ;
                                Components { physics: Some(Physics { vel: p.vel, rot_vel: m as i32 }), ..c }
                            }
                        },
                        None => c,
                    }
                },
                None => c,
            }
        },
        _ => c,
    }
}

/// Turns each looking enemy toward its target (see `looked`).
pub fn look_at(world: &mut World)
    requires
        old(world).wf(),
    ensures
        final(world).wf(),
        rows_mapped(old(world)@, final(world)@, |c: Components| looked(old(world)@, c)),
{
    let ghost start = world@;
    let mut updates: Vec<Components> = Vec::new();
    let mut i: usize = 0;
    while i < world.len()
        invariant
            world.wf(),
            world@ == start,
            i <= start.len(),
            updates@.len() == i,
            forall|j: int|
                0 <= j < i ==> #[trigger] updates@[j] == looked(start, start[j].comps)
                    && updates@[j].bounded(),
        decreases start.len() - i,
    {
        let row = world.row(i);
        assert(start[i as int].comps.bounded());
        updates.push(looked_exec(world, row.comps));
        i = i + 1;
    }
    let mut k: usize = 0;
    while k < world.len()
        invariant
            world.wf(),
            world@.len() == start.len(),
            k <= start.len(),
            updates@.len() == start.len(),
            forall|j: int|
                0 <= j < start.len() ==> #[trigger] updates@[j] == looked(start, start[j].comps)
                    && updates@[j].bounded(),
            forall|j: int|
                0 <= j < k ==> #[trigger] world@[j] == mapped_row(
                    start[j],
                    |c: Components| looked(start, c),
                ),
            forall|j: int| k <= j < start.len() ==> #[trigger] world@[j] == start[j],
        decreases start.len() - k,
    {
        let row = world.row(k);
        if row.alive {
            world.set(Entity { index: k, generation: row.generation }, updates[k]);
        }
        k = k + 1;
    }
}

} // verus!
