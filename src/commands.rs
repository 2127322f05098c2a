use vstd::prelude::*;

use crate::components::{Component, ComponentKind, Components, Entity};
use crate::world::{
    alive_in, despawn_spec, insert_spec, remove_spec, rows_bounded, spawn_spec, Row,
    World,
};

verus! {

/// A structural edit, queued until the next barrier.
#[derive(Clone, Copy, Debug)]
pub enum Command {
    /// Create an entity with these components.
    Spawn(Components),
    /// Destroy an entity.
    Despawn(Entity),
    /// Add a component to an entity, replacing any of its type.
    Insert(Entity, Component),
    /// Take a component type away from an entity.
    Remove(Entity, ComponentKind),
}

impl Command {
    /// The values it carries lie within the coordinate limit.
    pub open spec fn bounded(self) -> bool {
        match self {
            Command::Spawn(c) => c.bounded(),
            Command::Insert(_, v) => v.bounded(),
            _ => true,
        }
    }
}

/// The table after one command. Edits on entities that are not alive do
/// nothing.
pub open spec fn apply_command(rows: Seq<Row>, c: Command) -> Seq<Row> {
    match c {
        Command::Spawn(comps) => spawn_spec(rows, comps),
        Command::Despawn(e) => despawn_spec(rows, e),
        Command::Insert(e, v) => insert_spec(rows, e, v),
        Command::Remove(e, k) => remove_spec(rows, e, k),
    }
}

/// The table after the commands, applied first to last.
pub open spec fn apply_all(rows: Seq<Row>, cmds: Seq<Command>) -> Seq<Row>
    decreases cmds.len(),
{
    if cmds.len() == 0 {
        rows
    } else {
        apply_command(apply_all(rows, cmds.drop_last()), cmds.last())
    }
}

/// Applying `a + b` is applying `a`, then `b`.
pub proof fn lemma_apply_all_concat(rows: Seq<Row>, a: Seq<Command>, b: Seq<Command>)
    ensures
        apply_all(rows, a + b) == apply_all(apply_all(rows, a), b),
    decreases b.len(),
{
    if b.len() == 0 {
        assert(a + b =~= a);
    } else {
        lemma_apply_all_concat(rows, a, b.drop_last());
        assert((a + b).drop_last() =~= a + b.drop_last());
        assert((a + b).last() == b.last());
    }
}

pub open spec fn cmds_bounded(cmds: Seq<Command>) -> bool {
    forall|i: int| 0 <= i < cmds.len() ==> (#[trigger] cmds[i]).bounded()
}

proof fn lemma_apply_command_bounded(rows: Seq<Row>, c: Command)
    requires
        rows_bounded(rows),
        c.bounded(),
    ensures
        rows_bounded(apply_command(rows, c)),
{
    let r = apply_command(rows, c);
    assert forall|i: int| 0 <= i < r.len() implies (#[trigger] r[i]).comps.bounded() by {
        if i < rows.len() {
            assert(rows[i].comps.bounded());
        }
        match c {
            Command::Insert(e, v) => {
                if alive_in(rows, e) {
                    assert(rows[e.index as int].comps.bounded());
                    crate::components::lemma_with_bounded(rows[e.index as int].comps, v);
                }
            },
            Command::Remove(e, k) => {
                if alive_in(rows, e) {
                    assert(rows[e.index as int].comps.bounded());
                    crate::components::lemma_without_bounded(rows[e.index as int].comps, k);
                }
            },
            Command::Spawn(_) => {
                crate::world::lemma_free_from(rows, 0);
            },
            Command::Despawn(_) => {},
        }
    }
}

/// A queue of structural edits. Nothing takes effect until `apply`.
pub struct CommandBuffer {
    cmds: Vec<Command>,
}

impl View for CommandBuffer {
    type V = Seq<Command>;

    closed spec fn view(&self) -> Seq<Command> {
        self.cmds@
    }
}

impl CommandBuffer {
    pub open spec fn wf(&self) -> bool {
        cmds_bounded(self@)
    }

    pub fn new() -> (r: CommandBuffer)
        ensures
            r@ == Seq::<Command>::empty(),
            r.wf(),
    {
        CommandBuffer { cmds: Vec::new() }
    }

    pub fn len(&self) -> (r: usize)
        ensures
            r == self@.len(),
    {
        self.cmds.len()
    }

    /// The queued commands, first to last.
    pub fn commands(&self) -> (r: Vec<Command>)
        ensures
            r@ == self@,
    {
        self.cmds.clone()
    }

    /// Queues `c`.
    pub fn push(&mut self, c: Command)
        requires
            old(self).wf(),
            c.bounded(),
        ensures
            final(self)@ == old(self)@.push(c),
            final(self).wf(),
    {
        self.cmds.push(c);
    }

    /// Queues the creation of an entity with components `c`.
    pub fn spawn(&mut self, c: Components)
        requires
            old(self).wf(),
            c.bounded(),
        ensures
            final(self)@ == old(self)@.push(Command::Spawn(c)),
            final(self).wf(),
    {
        self.push(Command::Spawn(c));
    }

    /// Queues the destruction of `e`.
    pub fn despawn(&mut self, e: Entity)
        requires
            old(self).wf(),
        ensures
            final(self)@ == old(self)@.push(Command::Despawn(e)),
            final(self).wf(),
    {
        self.push(Command::Despawn(e));
    }

    /// Queues adding `v` to `e`.
    pub fn add_component(&mut self, e: Entity, v: Component)
        requires
            old(self).wf(),
            v.bounded(),
        ensures
            final(self)@ == old(self)@.push(Command::Insert(e, v)),
            final(self).wf(),
    {
        self.push(Command::Insert(e, v));
    }

    /// Queues taking the component of type `k` away from `e`.
    pub fn remove_component(&mut self, e: Entity, k: ComponentKind)
        requires
            old(self).wf(),
        ensures
            final(self)@ == old(self)@.push(Command::Remove(e, k)),
            final(self).wf(),
    {
        self.push(Command::Remove(e, k));
    }

    /// Appends the commands of `other` after those of this buffer.
    pub fn append(&mut self, other: &CommandBuffer)
        requires
            old(self).wf(),
            other.wf(),
        ensures
            final(self)@ == old(self)@ + other@,
            final(self).wf(),
    {
        let mut i: usize = 0;
        while i < other.cmds.len()
            invariant
                i <= other@.len(),
                self.wf(),
                other.wf(),
                self@ == old(self)@ + other@.take(i as int),
            decreases other@.len() - i,
        {
            let c = other.cmds[i];
            assert(other@[i as int].bounded());
            self.cmds.push(c);
            assert(old(self)@ + other@.take(i + 1) == (old(self)@ + other@.take(i as int)).push(c));
            i = i + 1;
        }
        assert(other@.take(other@.len() as int) == other@);
    }

    /// Performs the queued edits on `world`, first to last, and empties the
    /// queue.
    pub fn apply(&mut self, world: &mut World)
        requires
            old(self).wf(),
            old(world).wf(),
        ensures
            final(world)@ == apply_all(old(world)@, old(self)@),
            final(world).wf(),
            final(self)@ == Seq::<Command>::empty(),
            final(self).wf(),
    {
        let mut i: usize = 0;
        while i < self.cmds.len()
            invariant
                i <= self@.len(),
                self@ == old(self)@,
                self.wf(),
                world.wf(),
                world@ == apply_all(old(world)@, self@.take(i as int)),
            decreases self@.len() - i,
        {
            let c = self.cmds[i];
            assert(self@.take(i + 1).drop_last() == self@.take(i as int));
            assert(self@[i as int].bounded());
            match c {
                Command::Spawn(comps) => {
                    let _ = world.spawn(comps);
                },
                Command::Despawn(e) => {
                    world.despawn(e);
                },
                Command::Insert(e, v) => {
                    world.insert(e, v);
                },
                Command::Remove(e, k) => {
                    world.remove(e, k);
                },
            }
            i = i + 1;
        }
        assert(self@.take(self@.len() as int) == self@);
        self.cmds.clear();
    }
}

} // verus!
