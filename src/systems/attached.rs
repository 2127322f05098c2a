use vstd::prelude::*;

use crate::commands::{apply_all, apply_command, lemma_apply_all_concat, Command, CommandBuffer};
use crate::components::{
    AttachedTo, CTransform, Component, ComponentKind, Components, Entity, InputControlled, OwnedBy,
};
use crate::geom::{add_spec, add_vec, is_within, rotate, rotate_spec, sub_spec, sub_vec, unrotate, unrotate_spec, within};
use crate::world::{alive_in, entity_of, mapped_row, rows_mapped, Row, World};

verus! {

/// Row `r` is alive and attached to an entity that is not.
pub open spec fn attached_dangling(rows: Seq<Row>, r: Row) -> bool {
    r.alive && (r.comps.attached_to matches Some(a) && !alive_in(rows, a.entity))
}

/// Row `r` is alive and owned by an entity that is not.
pub open spec fn owner_dangling(rows: Seq<Row>, r: Row) -> bool {
    r.alive && (r.comps.owned_by matches Some(o) && !alive_in(rows, o.owner))
}

/// The removals of dangling attachments in rows `[0, n)`, in row order.
pub open spec fn attached_removals(rows: Seq<Row>, n: int) -> Seq<Command>
    decreases n,
{
    if n <= 0 {
        Seq::empty()
    } else if attached_dangling(rows, rows[n - 1]) {
        attached_removals(rows, n - 1).push(
            Command::Remove(entity_of(rows, n - 1), ComponentKind::AttachedTo),
        )
    } else {
        attached_removals(rows, n - 1)
    }
}

/// The removals of dangling owners in rows `[0, n)`, in row order.
pub open spec fn owner_removals(rows: Seq<Row>, n: int) -> Seq<Command>
    decreases n,
{
    if n <= 0 {
        Seq::empty()
    } else if owner_dangling(rows, rows[n - 1]) {
        owner_removals(rows, n - 1).push(
            Command::Remove(entity_of(rows, n - 1), ComponentKind::OwnedBy),
        )
    } else {
        owner_removals(rows, n - 1)
    }
}

/// Queues the removal of every `AttachedTo` whose anchor is gone.
pub fn check_attached_to_null(world: &World, cmds: &mut CommandBuffer)
    requires
        old(cmds).wf(),
    ensures
        final(cmds).wf(),
        final(cmds)@ == old(cmds)@ + attached_removals(world@, world@.len() as int),
{
    let mut i: usize = 0;
    while i < world.len()
        invariant
            cmds.wf(),
            i <= world@.len(),
            cmds@ == old(cmds)@ + attached_removals(world@, i as int),
        decreases world@.len() - i,
    {
        let row = world.row(i);
        if row.alive {
            match row.comps.attached_to {
                Some(a) => {
                    if !world.contains(a.entity) {
                        cmds.remove_component(
                            Entity { index: i, generation: row.generation },
                            ComponentKind::AttachedTo,
                        );
                    }
                },
                None => {},
            }
        }
        i = i + 1;
    }
}

/// Queues the removal of every `OwnedBy` whose owner is gone.
pub fn check_owned_by_null(world: &World, cmds: &mut CommandBuffer)
    requires
        old(cmds).wf(),
    ensures
        final(cmds).wf(),
        final(cmds)@ == old(cmds)@ + owner_removals(world@, world@.len() as int),
{
    let mut i: usize = 0;
    while i < world.len()
        invariant
            cmds.wf(),
            i <= world@.len(),
            cmds@ == old(cmds)@ + owner_removals(world@, i as int),
        decreases world@.len() - i,
    {
        let row = world.row(i);
        if row.alive {
            match row.comps.owned_by {
                Some(o) => {
                    if !world.contains(o.owner) {
                        cmds.remove_component(
                            Entity { index: i, generation: row.generation },
                            ComponentKind::OwnedBy,
                        );
                    }
                },
                None => {},
            }
        }
        i = i + 1;
    }
}

/// The table with the attachment taken from every dangling row below `n`.
pub open spec fn detached_below(rows: Seq<Row>, n: int) -> Seq<Row> {
    Seq::new(
        rows.len(),
        |i: int|
            if i < n && attached_dangling(rows, rows[i]) {
                Row { comps: rows[i].comps.without(ComponentKind::AttachedTo), ..rows[i] }
            } else {
                rows[i]
            },
    )
}

proof fn lemma_attached_removals(rows: Seq<Row>, n: int)
    requires
        0 <= n <= rows.len(),
        rows.len() <= usize::MAX,
    ensures
        apply_all(rows, attached_removals(rows, n)) == detached_below(rows, n),
    decreases n,
{
    if n == 0 {
        assert(apply_all(rows, attached_removals(rows, 0)) =~= detached_below(rows, 0));
    } else {
        lemma_attached_removals(rows, n - 1);
        let prev = attached_removals(rows, n - 1);
        if attached_dangling(rows, rows[n - 1]) {
            let c = Command::Remove(entity_of(rows, n - 1), ComponentKind::AttachedTo);
            assert(prev.push(c).drop_last() == prev);
            let before = detached_below(rows, n - 1);
            assert(before[n - 1] == rows[n - 1]);
            assert(alive_in(before, entity_of(rows, n - 1)));
            assert(apply_command(before, c) =~= detached_below(rows, n));
        } else {
            assert(detached_below(rows, n - 1) =~= detached_below(rows, n));
        }
    }
}

/// Once the removals that `check_attached_to_null` queues are applied, no
/// live entity is left attached to an entity that is not alive.
pub proof fn lemma_attachments_settle(rows: Seq<Row>)
    requires
        rows.len() <= usize::MAX,
    ensures
        forall|i: int|
            0 <= i < rows.len() ==> !attached_dangling(
                apply_all(rows, attached_removals(rows, rows.len() as int)),
                #[trigger] apply_all(rows, attached_removals(rows, rows.len() as int))[i],
            ),
{
    lemma_attached_removals(rows, rows.len() as int);
    let after = detached_below(rows, rows.len() as int);
    assert forall|e: Entity| alive_in(after, e) == alive_in(rows, e) by {}
    assert forall|i: int| 0 <= i < rows.len() implies !attached_dangling(after, #[trigger] after[i]) by {
        if attached_dangling(after, after[i]) {
            let a = after[i].comps.attached_to.unwrap();
            assert(!alive_in(rows, a.entity));
        }
    }
}

/// Where an attached entity is put: at its anchor's position plus the
/// offset turned into the anchor's heading, facing the anchor's heading.
/// Unchanged when it has no transform, or the anchor is gone or has none.
pub open spec fn stuck(rows: Seq<Row>, c: Components) -> Components {
    match (c.attached_to, c.transform) {
        (Some(a), Some(_)) => {
            if alive_in(rows, a.entity) && rows[a.entity.index as int].comps.transform is Some {
                let at = rows[a.entity.index as int].comps.transform.unwrap();
                Components {
                    transform: Some(
                        CTransform { pos: add_spec(at.pos, rotate_spec(a.offset, at.rot as int)), rot: at.rot },
                    ),
                    ..c
                }
            } else {
                c
            }
        },
        _ => c,
    }
}

fn stuck_exec(world: &World, c: Components) -> (r: Components)
    requires
        world.wf(),
        c.bounded(),
    ensures
        r == stuck(world@, c),
        r.bounded(),
{
    match (c.attached_to, c.transform) {
        (Some(a), Some(_)) => {
            match world.entry(a.entity) {
                Some(ac) => {
                    match ac.transform {
                        Some(at) => {
                            assert(world@[a.entity.index as int].comps.bounded());
                            let off = rotate(a.offset, at.rot);
                            Components {
                                transform: Some(CTransform { pos: add_vec(at.pos, off), rot: at.rot }),
                                ..c
                            }
                        },
                        None => c,
                    }
                },
                None => c,
            }
        },
        _ => c,
    }
}

/// Moves every attached entity to its anchor (one level: the anchors'
/// transforms are read as they were before this system ran).
pub fn stick_to_attached(world: &mut World)
    requires
        old(world).wf(),
    ensures
        final(world).wf(),
        rows_mapped(old(world)@, final(world)@, |c: Components| stuck(old(world)@, c)),
{
    let ghost start = world@;
    let mut updates: Vec<Components> = Vec::new();
    let mut i: usize = 0;
    while i < world.len()
        invariant
            world.wf(),
            world@ == start,
            i <= start.len(),
            updates@.len() == i,
            forall|j: int|
                0 <= j < i ==> #[trigger] updates@[j] == stuck(start, start[j].comps)
                    && updates@[j].bounded(),
        decreases start.len() - i,
    {
        let row = world.row(i);
        assert(start[i as int].comps.bounded());
        updates.push(stuck_exec(world, row.comps));
        i = i + 1;
    }
    let mut k: usize = 0;
    while k < world.len()
        invariant
            world.wf(),
            world@.len() == start.len(),
            k <= start.len(),
            updates@.len() == start.len(),
            forall|j: int|
                0 <= j < start.len() ==> #[trigger] updates@[j] == stuck(start, start[j].comps)
                    && updates@[j].bounded(),
            forall|j: int|
                0 <= j < k ==> #[trigger] world@[j] == mapped_row(
                    start[j],
                    |c: Components| stuck(start, c),
                ),
            forall|j: int| k <= j < start.len() ==> #[trigger] world@[j] == start[j],
        decreases start.len() - k,
    {
        let row = world.row(k);
        if row.alive {
            world.set(Entity { index: k, generation: row.generation }, updates[k]);
        }
        k = k + 1;
    }
}

/// Row `r` is an entity with a grab zone and a transform.
pub open spec fn is_grabber(r: Row) -> bool {
    r.alive && r.comps.transform is Some && r.comps.grab_zone is Some
}

/// Row `r` is an attachable entity with a transform and no attachment yet.
pub open spec fn is_loose(r: Row) -> bool {
    r.alive && r.comps.transform is Some && r.comps.attachable is Some
        && r.comps.attached_to is None
}

/// The first grabber at or after row `z` whose zone holds point `p`;
/// `rows.len()` when there is none.
pub open spec fn first_grabber(rows: Seq<Row>, p: crate::geom::Vec2, z: int) -> int
    decreases rows.len() - z,
{
    if z < 0 || z >= rows.len() {
        rows.len() as int
    } else if is_grabber(rows[z]) && within(
        p,
        rows[z].comps.transform.unwrap().pos,
        rows[z].comps.grab_zone.unwrap().radius as int,
    ) {
        z
    } else {
        first_grabber(rows, p, z + 1)
    }
}

/// What attaching the entity in row `i` to the grabber in row `z` queues:
/// the attachment, with the offset taken in the grabber's frame, input
/// control, and ownership by the grabber.
pub open spec fn grab_cmds(rows: Seq<Row>, i: int, z: int) -> Seq<Command> {
    let e = entity_of(rows, i);
    let g = entity_of(rows, z);
    let gt = rows[z].comps.transform.unwrap();
    let off = unrotate_spec(sub_spec(rows[i].comps.transform.unwrap().pos, gt.pos), gt.rot as int);
    seq![
        Command::Insert(e, Component::AttachedTo(AttachedTo { entity: g, offset: off })),
        Command::Insert(e, Component::InputControlled(InputControlled)),
        Command::Insert(e, Component::OwnedBy(OwnedBy { owner: g })),
    ]
}

/// The attachments queued for rows `[0, n)`, in row order.
pub open spec fn grabs(rows: Seq<Row>, n: int) -> Seq<Command>
    decreases n,
{
    if n <= 0 {
        Seq::empty()
    } else {
        let i = n - 1;
        if is_loose(rows[i]) && first_grabber(rows, rows[i].comps.transform.unwrap().pos, 0)
            < rows.len() {
            grabs(rows, n - 1) + grab_cmds(
                rows,
                i,
                first_grabber(rows, rows[i].comps.transform.unwrap().pos, 0),
            )
        } else {
            grabs(rows, n - 1)
        }
    }
}

proof fn lemma_first_grabber(rows: Seq<Row>, p: crate::geom::Vec2, z: int)
    requires
        0 <= z <= rows.len(),
    ensures
        z <= first_grabber(rows, p, z) <= rows.len(),
        first_grabber(rows, p, z) < rows.len() ==> is_grabber(rows[first_grabber(rows, p, z)])
            && within(
            p,
            rows[first_grabber(rows, p, z)].comps.transform.unwrap().pos,
            rows[first_grabber(rows, p, z)].comps.grab_zone.unwrap().radius as int,
        ),
    decreases rows.len() - z,
{
    if z < rows.len() {
        lemma_first_grabber(rows, p, z + 1);
    }
}

/// The components of the entity in row `i` once attached to the grabber
/// in row `z`: the attachment, input control and ownership by it.
pub open spec fn grabbed(rows: Seq<Row>, i: int, z: int) -> Components {
    let g = entity_of(rows, z);
    let gt = rows[z].comps.transform.unwrap();
    let off = unrotate_spec(sub_spec(rows[i].comps.transform.unwrap().pos, gt.pos), gt.rot as int);
    Components {
        attached_to: Some(AttachedTo { entity: g, offset: off }),
        input_controlled: Some(InputControlled),
        owned_by: Some(OwnedBy { owner: g }),
        ..rows[i].comps
    }
}

/// Row `i` is loose and some grabber's zone holds it.
pub open spec fn will_grab(rows: Seq<Row>, i: int) -> bool {
    is_loose(rows[i]) && first_grabber(rows, rows[i].comps.transform.unwrap().pos, 0) < rows.len()
}

/// The table once the attachments for rows `[0, n)` are applied.
pub open spec fn grabbed_below(rows: Seq<Row>, n: int) -> Seq<Row> {
    Seq::new(
        rows.len(),
        |i: int|
            if i < n && will_grab(rows, i) {
                Row {
                    comps: grabbed(rows, i, first_grabber(rows, rows[i].comps.transform.unwrap().pos, 0)),
                    ..rows[i]
                }
            } else {
                rows[i]
            },
    )
}

#[verifier::spinoff_prover]
#[verifier::rlimit(40)]
proof fn lemma_grabs_applied(rows: Seq<Row>, n: int)
    requires
        0 <= n <= rows.len(),
        rows.len() <= usize::MAX,
    ensures
        apply_all(rows, grabs(rows, n)) == grabbed_below(rows, n),
    decreases n,
{
    if n == 0 {
        assert(apply_all(rows, grabs(rows, 0)) =~= grabbed_below(rows, 0));
    } else {
        lemma_grabs_applied(rows, n - 1);
        let i = n - 1;
        let before = grabbed_below(rows, n - 1);
        if will_grab(rows, i) {
            let z = first_grabber(rows, rows[i].comps.transform.unwrap().pos, 0);
            let cs = grab_cmds(rows, i, z);
            lemma_apply_all_concat(rows, grabs(rows, n - 1), cs);
            let e = entity_of(rows, i);
            assert(before[i] == rows[i]);
            assert(alive_in(before, e));
            let x1 = apply_command(before, cs[0]);
            let x2 = apply_command(x1, cs[1]);
            let x3 = apply_command(x2, cs[2]);
            assert(apply_all(before, seq![cs[0]]) == x1) by {
                assert(seq![cs[0]].drop_last() =~= Seq::<Command>::empty());
                assert(apply_all(before, Seq::<Command>::empty()) == before);
            }
            assert(apply_all(before, seq![cs[0], cs[1]]) == x2) by {
                assert(seq![cs[0], cs[1]].drop_last() =~= seq![cs[0]]);
            }
            assert(apply_all(before, cs) == x3) by {
                assert(cs.drop_last() =~= seq![cs[0], cs[1]]);
            }
            assert(x1.len() == rows.len() && x1[i].alive && x1[i].generation == rows[i].generation);
            assert(x2.len() == rows.len() && x2[i].alive && x2[i].generation == rows[i].generation);
            assert(x3[i].comps == grabbed(rows, i, z));
            assert(x3 =~= grabbed_below(rows, n));
        } else {
            assert(grabbed_below(rows, n - 1) =~= grabbed_below(rows, n));
        }
    }
}

/// A loose attachable within some grab zone, once the commands queued by
/// `attach_to_grab_zone` are applied, is attached to the first grabber (in
/// row order) whose zone holds it, is input controlled, and is owned by
/// that same grabber; the grabber is a live entity with a grab zone.
pub proof fn lemma_grab_end_to_end(rows: Seq<Row>, i: int)
    requires
        rows.len() <= usize::MAX,
        0 <= i < rows.len(),
        is_loose(rows[i]),
        first_grabber(rows, rows[i].comps.transform.unwrap().pos, 0) < rows.len(),
    ensures
        ({
            let after = apply_all(rows, grabs(rows, rows.len() as int));
            let p = rows[i].comps.transform.unwrap().pos;
            let z = first_grabber(rows, p, 0);
            let g = entity_of(rows, z);
            &&& alive_in(after, entity_of(rows, i))
            &&& after[i].comps.attached_to matches Some(a) && a.entity == g
            &&& after[i].comps.input_controlled is Some
            &&& after[i].comps.owned_by == Some(OwnedBy { owner: g })
            &&& alive_in(after, g)
            &&& is_grabber(rows[z])
            &&& within(p, rows[z].comps.transform.unwrap().pos, rows[z].comps.grab_zone.unwrap().radius as int)
        }),
{
    let n = rows.len() as int;
    lemma_grabs_applied(rows, n);
    let p = rows[i].comps.transform.unwrap().pos;
    lemma_first_grabber(rows, p, 0);
    let z = first_grabber(rows, p, 0);
    assert(will_grab(rows, i));
    let after = grabbed_below(rows, n);
    if will_grab(rows, z) {
        assert(after[z].alive == rows[z].alive);
    }
    assert(after[z].alive == rows[z].alive && after[z].generation == rows[z].generation);
}

fn find_grabber(world: &World, p: crate::geom::Vec2) -> (r: usize)
    requires
        world.wf(),
        p.bounded(),
    ensures
        r == first_grabber(world@, p, 0),
        r < world@.len() ==> is_grabber(world@[r as int]),
{
    proof {
        lemma_first_grabber(world@, p, 0);
    }
    let mut z: usize = 0;
    while z < world.len()
        invariant
            world.wf(),
            p.bounded(),
            z <= world@.len(),
            first_grabber(world@, p, 0) == first_grabber(world@, p, z as int),
        decreases world@.len() - z,
    {
        let row = world.row(z);
        assert(world@[z as int].comps.bounded());
        if row.alive {
            match (row.comps.transform, row.comps.grab_zone) {
                (Some(t), Some(g)) => {
                    if is_within(p, t.pos, g.radius) {
                        return z;
                    }
                },
                _ => {},
            }
        }
        z = z + 1;
    }
    z
}

/// Queues the attachment of each loose attachable to the first grab zone
/// (in row order) that holds it.
pub fn attach_to_grab_zone(world: &World, cmds: &mut CommandBuffer)
    requires
        world.wf(),
        old(cmds).wf(),
    ensures
        final(cmds).wf(),
        final(cmds)@ == old(cmds)@ + grabs(world@, world@.len() as int),
{
    let mut i: usize = 0;
    while i < world.len()
        invariant
            world.wf(),
            cmds.wf(),
            i <= world@.len(),
            cmds@ == old(cmds)@ + grabs(world@, i as int),
        decreases world@.len() - i,
    {
        let row = world.row(i);
        assert(world@[i as int].comps.bounded());
        if row.alive && row.comps.attachable.is_some() && row.comps.attached_to.is_none() {
            match row.comps.transform {
                Some(t) => {
                    let z = find_grabber(world, t.pos);
                    if z < world.len() {
                        let zr = world.row(z);
                        assert(world@[z as int].comps.bounded());
                        let gt = zr.comps.transform.unwrap();
                        let e = Entity { index: i, generation: row.generation };
                        let g = Entity { index: z, generation: zr.generation };
                        let off = unrotate(sub_vec(t.pos, gt.pos), gt.rot);
                        let ghost before = cmds@;
                        cmds.add_component(e, Component::AttachedTo(AttachedTo { entity: g, offset: off }));
                        cmds.add_component(e, Component::InputControlled(InputControlled));
                        cmds.add_component(e, Component::OwnedBy(OwnedBy { owner: g }));
                        assert(cmds@ == before + grab_cmds(world@, i as int, z as int));
                    }
                },
                None => {},
            }
        }
        i = i + 1;
    }
}

} // verus!
