use vstd::prelude::*;

use crate::components::{Component, ComponentKind, Components, Entity};

verus! {

/// One row of the entity table: the generation that the row is at, whether
/// an entity lives in it, and that entity's components.
#[derive(Clone, Copy, Debug)]
pub struct Row {
    pub generation: u32,
    pub alive: bool,
    pub comps: Components,
}

/// Whether `e` names the entity that lives in its row now.
pub open spec fn alive_in(rows: Seq<Row>, e: Entity) -> bool {
    &&& e.index < rows.len()
    &&& rows[e.index as int].alive
    &&& rows[e.index as int].generation == e.generation
}

/// The handle of the entity in row `i`.
pub open spec fn entity_of(rows: Seq<Row>, i: int) -> Entity {
    Entity { index: i as usize, generation: rows[i].generation }
}

/// The two tables hold the same entities: same rows, each as alive and at
/// the same generation (component values may differ).
pub open spec fn same_entities(a: Seq<Row>, b: Seq<Row>) -> bool {
    &&& a.len() == b.len()
    &&& forall|i: int|
        0 <= i < a.len() ==> (#[trigger] a[i]).alive == b[i].alive && a[i].generation
            == b[i].generation
}

/// The row with its components passed through `f`, when it is alive.
pub open spec fn mapped_row(r: Row, f: spec_fn(Components) -> Components) -> Row {
    if r.alive {
        Row { comps: f(r.comps), ..r }
    } else {
        r
    }
}

/// Every row of `new` is the row of `old` passed through `f`.
pub open spec fn rows_mapped(
    old: Seq<Row>,
    new: Seq<Row>,
    f: spec_fn(Components) -> Components,
) -> bool {
    &&& new.len() == old.len()
    &&& forall|i: int| 0 <= i < old.len() ==> #[trigger] new[i] == mapped_row(old[i], f)
}

/// A table passed row by row through a component map holds the same
/// entities.
pub proof fn lemma_mapped_same_entities(
    old: Seq<Row>,
    new: Seq<Row>,
    f: spec_fn(Components) -> Components,
)
    requires
        rows_mapped(old, new, f),
    ensures
        same_entities(old, new),
{
    assert forall|i: int| 0 <= i < old.len() implies (#[trigger] old[i]).alive == new[i].alive
        && old[i].generation == new[i].generation by {
        assert(new[i] == mapped_row(old[i], f));
    }
}

/// Every component value in the table lies within the coordinate limit.
pub open spec fn rows_bounded(rows: Seq<Row>) -> bool {
    forall|i: int| 0 <= i < rows.len() ==> (#[trigger] rows[i]).comps.bounded()
}

/// The first row at or after `i` that is free for a new entity: dead, with
/// a generation that can still grow. `rows.len()` when there is none.
pub open spec fn free_from(rows: Seq<Row>, i: int) -> int
    decreases rows.len() - i,
{
    if i >= rows.len() || i < 0 {
        rows.len() as int
    } else if !rows[i].alive && rows[i].generation < u32::MAX {
        i
    } else {
        free_from(rows, i + 1)
    }
}

pub proof fn lemma_free_from(rows: Seq<Row>, i: int)
    requires
        0 <= i <= rows.len(),
    ensures
        i <= free_from(rows, i) <= rows.len(),
        free_from(rows, i) < rows.len() ==> !rows[free_from(rows, i)].alive && rows[free_from(
            rows,
            i,
        )].generation < u32::MAX,
    decreases rows.len() - i,
{
    if i < rows.len() {
        lemma_free_from(rows, i + 1);
    }
}

/// The table after spawning an entity with components `c`: the first free
/// row is taken under the next generation; with no free row a new row is
/// added at generation zero; a table that cannot grow stays as it is.
pub open spec fn spawn_spec(rows: Seq<Row>, c: Components) -> Seq<Row> {
    let j = free_from(rows, 0);
    if j < rows.len() {
        rows.update(j, Row { generation: (rows[j].generation + 1) as u32, alive: true, comps: c })
    } else if rows.len() < usize::MAX {
        rows.push(Row { generation: 0, alive: true, comps: c })
    } else {
        rows
    }
}

/// The table after despawning `e`: a no-op when `e` is not alive.
pub open spec fn despawn_spec(rows: Seq<Row>, e: Entity) -> Seq<Row> {
    if alive_in(rows, e) {
        rows.update(
            e.index as int,
            Row { alive: false, comps: Components::empty_spec(), ..rows[e.index as int] },
        )
    } else {
        rows
    }
}

/// The table with the components of `e` replaced by `c`, when `e` is alive.
pub open spec fn set_spec(rows: Seq<Row>, e: Entity, c: Components) -> Seq<Row> {
    if alive_in(rows, e) {
        rows.update(e.index as int, Row { comps: c, ..rows[e.index as int] })
    } else {
        rows
    }
}

pub open spec fn insert_spec(rows: Seq<Row>, e: Entity, v: Component) -> Seq<Row> {
    set_spec(rows, e, rows[e.index as int].comps.with(v))
}

pub open spec fn remove_spec(rows: Seq<Row>, e: Entity, k: ComponentKind) -> Seq<Row> {
    set_spec(rows, e, rows[e.index as int].comps.without(k))
}

/// A query filter: presence and absence of component types, combined with
/// `and` / `or`.
pub enum Filter {
    Has(ComponentKind),
    Not(Box<Filter>),
    And(Box<Filter>, Box<Filter>),
    Or(Box<Filter>, Box<Filter>),
}

impl Filter {
    pub open spec fn accepts(&self, c: Components) -> bool
        decreases self,
    {
        match self {
            Filter::Has(k) => c.holds(*k),
            Filter::Not(f) => !f.accepts(c),
            Filter::And(a, b) => a.accepts(c) && b.accepts(c),
            Filter::Or(a, b) => a.accepts(c) || b.accepts(c),
        }
    }

    pub fn matches(&self, c: &Components) -> (r: bool)
        ensures
            r == self.accepts(*c),
        decreases self,
    {
        match self {
            Filter::Has(k) => c.has(*k),
            Filter::Not(f) => !f.matches(c),
            Filter::And(a, b) => a.matches(c) && b.matches(c),
            Filter::Or(a, b) => a.matches(c) || b.matches(c),
        }
    }

    pub fn has(k: ComponentKind) -> (r: Filter)
        ensures
            r == Filter::Has(k),
            forall|c: Components| r.accepts(c) == c.holds(k),
    {
        Filter::Has(k)
    }

    pub fn lacks(k: ComponentKind) -> (r: Filter)
        ensures
            forall|c: Components| r.accepts(c) == !c.holds(k),
    {
        let r = Filter::Not(Box::new(Filter::Has(k)));
        assert forall|c: Components| r.accepts(c) == !c.holds(k) by {
            assert(Filter::Has(k).accepts(c) == c.holds(k));
        }
        r
    }

    pub fn and(self, o: Filter) -> (r: Filter)
        ensures
            forall|c: Components| r.accepts(c) == (self.accepts(c) && o.accepts(c)),
    {
        Filter::And(Box::new(self), Box::new(o))
    }

    pub fn or(self, o: Filter) -> (r: Filter)
        ensures
            forall|c: Components| r.accepts(c) == (self.accepts(c) || o.accepts(c)),
    {
        Filter::Or(Box::new(self), Box::new(o))
    }
}

/// The live entities among the first `n` rows whose components pass `f`,
/// in row order.
pub open spec fn query_spec(rows: Seq<Row>, f: Filter, n: int) -> Seq<Entity>
    decreases n,
{
    if n <= 0 {
        Seq::empty()
    } else {
        let prev = query_spec(rows, f, n - 1);
        if rows[n - 1].alive && f.accepts(rows[n - 1].comps) {
            prev.push(entity_of(rows, n - 1))
        } else {
            prev
        }
    }
}

/// The component store: a table with one row per entity and one optional
/// column per component type.
pub struct World {
    rows: Vec<Row>,
}

impl View for World {
    type V = Seq<Row>;

    closed spec fn view(&self) -> Seq<Row> {
        self.rows@
    }
}

impl World {
    pub open spec fn wf(&self) -> bool {
        rows_bounded(self@)
    }

    /// An empty store.
    pub fn new() -> (r: World)
        ensures
            r@ == Seq::<Row>::empty(),
            r.wf(),
    {
        World { rows: Vec::new() }
    }

    /// The number of rows (live or not).
    pub fn len(&self) -> (r: usize)
        ensures
            r == self@.len(),
    {
        self.rows.len()
    }

    /// The row at `i`.
    pub fn row(&self, i: usize) -> (r: Row)
        requires
            i < self@.len(),
        ensures
            r == self@[i as int],
    {
        self.rows[i]
    }

    /// Whether `e` is alive.
    pub fn contains(&self, e: Entity) -> (r: bool)
        ensures
            r == alive_in(self@, e),
    {
        e.index < self.rows.len() && self.rows[e.index].alive && self.rows[e.index].generation
            == e.generation
    }

    /// The components of `e`; `None` when `e` is not alive.
    pub fn entry(&self, e: Entity) -> (r: Option<Components>)
        ensures
            r == if alive_in(self@, e) {
                Some(self@[e.index as int].comps)
            } else {
                None
            },
    {
        if self.contains(e) {
            Some(self.rows[e.index].comps)
        } else {
            None
        }
    }

    fn find_free(&self) -> (r: usize)
        ensures
            r == free_from(self@, 0),
    {
        let mut i: usize = 0;
        while i < self.rows.len()
            invariant
                i <= self@.len(),
                free_from(self@, 0) == free_from(self@, i as int),
            decreases self@.len() - i,
        {
            if !self.rows[i].alive && self.rows[i].generation < u32::MAX {
                return i;
            }
            i = i + 1;
        }
        i
    }

    /// Makes a new live entity with components `c`; `None` only when the
    /// table can hold no more rows.
    pub fn spawn(&mut self, c: Components) -> (r: Option<Entity>)
        requires
            old(self).wf(),
            c.bounded(),
        ensures
            final(self)@ == spawn_spec(old(self)@, c),
            final(self).wf(),
            r matches Some(e) ==> alive_in(final(self)@, e) && final(self)@[e.index as int].comps
                == c && !alive_in(old(self)@, e),
            r is None ==> old(self)@.len() == usize::MAX && free_from(old(self)@, 0)
                == old(self)@.len(),
            r is None ==> final(self)@ == old(self)@,
            old(self)@.len() < usize::MAX ==> r is Some,
            r matches Some(e) ==> (e.index < old(self)@.len() ==> !old(self)@[e.index as int].alive
                && e.generation > old(self)@[e.index as int].generation),
            r matches Some(e) ==> final(self)@.len() == if e.index < old(self)@.len() {
                old(self)@.len()
            } else {
                old(self)@.len() + 1
            },
            forall|i: int|
                0 <= i < old(self)@.len() && !(r matches Some(e) && e.index == i) ==> (
                #[trigger] final(self)@[i]) == old(self)@[i],
    {
        let j = self.find_free();
        proof {
            lemma_free_from(self@, 0);
        }
        if j < self.rows.len() {
            let g = self.rows[j].generation + 1;
            self.rows.set(j, Row { generation: g, alive: true, comps: c });
            Some(Entity { index: j, generation: g })
        } else if self.rows.len() < usize::MAX {
            self.rows.push(Row { generation: 0, alive: true, comps: c });
            Some(Entity { index: j, generation: 0 })
        } else {
            None
        }
    }

    /// Removes `e` and all its components; a no-op when `e` is not alive.
    pub fn despawn(&mut self, e: Entity)
        requires
            old(self).wf(),
        ensures
            final(self)@ == despawn_spec(old(self)@, e),
            final(self).wf(),
    {
        if self.contains(e) {
            let g = self.rows[e.index].generation;
            self.rows.set(e.index, Row { generation: g, alive: false, comps: Components::empty() });
        }
    }

    /// Replaces the components of `e` with `c`; a no-op when `e` is not alive.
    pub fn set(&mut self, e: Entity, c: Components)
        requires
            old(self).wf(),
            c.bounded(),
        ensures
            final(self)@ == set_spec(old(self)@, e, c),
            final(self).wf(),
    {
        if self.contains(e) {
            let g = self.rows[e.index].generation;
            self.rows.set(e.index, Row { generation: g, alive: true, comps: c });
        }
    }

    /// Adds `v` to `e`, replacing any value of its type; a no-op when `e`
    /// is not alive.
    pub fn insert(&mut self, e: Entity, v: Component)
        requires
            old(self).wf(),
            v.bounded(),
        ensures
            final(self)@ == insert_spec(old(self)@, e, v),
            final(self).wf(),
    {
        if self.contains(e) {
            let mut c = self.rows[e.index].comps;
            c.insert(v);
            self.set(e, c);
        }
    }

    /// Takes the component of type `k` away from `e`; a no-op when `e` is
    /// not alive or has none.
    pub fn remove(&mut self, e: Entity, k: ComponentKind)
        requires
            old(self).wf(),
        ensures
            final(self)@ == remove_spec(old(self)@, e, k),
            final(self).wf(),
    {
        if self.contains(e) {
            let mut c = self.rows[e.index].comps;
            c.remove(k);
            self.set(e, c);
        }
    }

    /// Despawns every entity; rows keep their generations, so no handle
    /// issued before resolves afterwards.
    pub fn clear(&mut self)
        requires
            old(self).wf(),
        ensures
            final(self).wf(),
            final(self)@.len() == old(self)@.len(),
            forall|i: int|
                0 <= i < old(self)@.len() ==> (#[trigger] final(self)@[i]) == (Row {
                    alive: false,
                    comps: Components::empty_spec(),
                    ..old(self)@[i]
                }),
    {
        let ghost start = self@;
        let mut i: usize = 0;
        while i < self.rows.len()
            invariant
                i <= self@.len(),
                self@.len() == start.len(),
                forall|j: int| i <= j < start.len() ==> #[trigger] self@[j] == start[j],
                forall|j: int|
                    0 <= j < i ==> (#[trigger] self@[j]) == (Row {
                        alive: false,
                        comps: Components::empty_spec(),
                        ..start[j]
                    }),
            decreases self@.len() - i,
        {
            let g = self.rows[i].generation;
            self.rows.set(i, Row { generation: g, alive: false, comps: Components::empty() });
            i = i + 1;
        }
    }

    /// The live entities whose components pass `f`, in row order.
    pub fn query(&self, f: &Filter) -> (r: Vec<Entity>)
        ensures
            r@ == query_spec(self@, *f, self@.len() as int),
    {
        let mut out: Vec<Entity> = Vec::new();
        let mut i: usize = 0;
        while i < self.rows.len()
            invariant
                i <= self@.len(),
                out@ == query_spec(self@, *f, i as int),
            decreases self@.len() - i,
        {
            let row = self.rows[i];
            if row.alive && f.matches(&row.comps) {
                out.push(Entity { index: i, generation: row.generation });
            }
            i = i + 1;
        }
        out
    }
}

} // verus!
