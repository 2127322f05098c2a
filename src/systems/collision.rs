use vstd::prelude::*;

use rand::rngs::StdRng;

use crate::audio::AudioCommand;
use crate::commands::{Command, CommandBuffer};
use crate::components::{Asteroid, CTransform, Components, Entity, OwnedBy, Physics, Score};
use crate::geom::{is_within, within, Vec2};
use crate::random::random_in;
use crate::world::{entity_of, same_entities, Row, World};

verus! {

/// Collision radius per unit of asteroid size: 0.8 pixels.
pub const RADIUS_PER_SIZE: i64 = 800;

/// Asteroids smaller than this are destroyed outright instead of split.
pub const MIN_SPLIT_SIZE: u32 = 3;

/// Largest speed, per axis, of a fragment: half a pixel per step.
pub const FRAGMENT_SPEED: i64 = 500;

/// Largest rotational velocity of a fragment, in degrees.
pub const FRAGMENT_SPIN: i64 = 50;

pub open spec fn is_asteroid(r: Row) -> bool {
    r.alive && r.comps.transform is Some && r.comps.asteroid is Some
}

pub open spec fn is_bullet(r: Row) -> bool {
    r.alive && r.comps.transform is Some && r.comps.bullet is Some
}

/// A player or enemy ship with a transform.
pub open spec fn is_ship(r: Row) -> bool {
    r.alive && r.comps.transform is Some && (r.comps.player is Some || r.comps.enemy is Some)
}

pub open spec fn pos_of(r: Row) -> Vec2 {
    r.comps.transform.unwrap().pos
}

pub open spec fn size_of(r: Row) -> int {
    r.comps.asteroid.unwrap().size as int
}

/// The bullet in row `b` lies within the asteroid in row `a`: at most
/// `0.8 * size` pixels from its centre.
pub open spec fn bullet_hits(rows: Seq<Row>, a: int, b: int) -> bool {
    &&& is_asteroid(rows[a])
    &&& is_bullet(rows[b])
    &&& within(pos_of(rows[b]), pos_of(rows[a]), size_of(rows[a]) * RADIUS_PER_SIZE)
}

/// The ship in row `p` touches the asteroid in row `a`: at most
/// `0.8 * (size + 1)` pixels apart.
pub open spec fn ship_crashes(rows: Seq<Row>, p: int, a: int) -> bool {
    &&& is_ship(rows[p])
    &&& is_asteroid(rows[a])
    &&& within(pos_of(rows[p]), pos_of(rows[a]), (size_of(rows[a]) + 1) * RADIUS_PER_SIZE)
}

/// Pairs `(x, y)` with `y < m` for which `hit(x, y)`, for one `x`, in order.
pub open spec fn pairs_in_row(rows: Seq<Row>, x: int, m: int, ships: bool) -> Seq<(usize, usize)>
    decreases m,
{
    if m <= 0 {
        Seq::empty()
    } else {
        let prev = pairs_in_row(rows, x, m - 1, ships);
        let y = m - 1;
        if (if ships {
            ship_crashes(rows, x, y)
        } else {
            bullet_hits(rows, x, y)
        }) {
            prev.push((x as usize, y as usize))
        } else {
            prev
        }
    }
}

/// All pairs with first row below `n`, ordered by first row, then second.
/// With `ships`, (ship, asteroid) pairs that crash; otherwise (asteroid,
/// bullet) pairs that hit.
pub open spec fn pairs(rows: Seq<Row>, n: int, ships: bool) -> Seq<(usize, usize)>
    decreases n,
{
    if n <= 0 {
        Seq::empty()
    } else {
        pairs(rows, n - 1, ships) + pairs_in_row(rows, n - 1, rows.len() as int, ships)
    }
}

fn pair_test(world: &World, x: usize, y: usize, ships: bool) -> (r: bool)
    requires
        world.wf(),
        x < world@.len(),
        y < world@.len(),
    ensures
        r == if ships {
            ship_crashes(world@, x as int, y as int)
        } else {
            bullet_hits(world@, x as int, y as int)
        },
{
    let rx = world.row(x);
    let ry = world.row(y);
    assert(world@[x as int].comps.bounded() && world@[y as int].comps.bounded());
    if ships {
        if !(rx.alive && (rx.comps.player.is_some() || rx.comps.enemy.is_some())) {
            return false;
        }
    } else if !(ry.alive && ry.comps.bullet.is_some()) {
        return false;
    }
    let (p, a) = if ships {
        (rx, ry)
    } else {
        (ry, rx)
    };
    match (p.comps.transform, a.comps.transform, a.comps.asteroid) {
        (Some(pt), Some(at), Some(ast)) => {
            if !a.alive {
                return false;
            }
            let size: i64 = if ships {
                ast.size as i64 + 1
            } else {
                ast.size as i64
            };
            is_within(pt.pos, at.pos, size * RADIUS_PER_SIZE)
        },
        _ => false,
    }
}

fn find_pairs(world: &World, ships: bool) -> (r: Vec<(usize, usize)>)
    requires
        world.wf(),
    ensures
        r@ == pairs(world@, world@.len() as int, ships),
{
    let n = world.len();
    let mut out: Vec<(usize, usize)> = Vec::new();
    let mut x: usize = 0;
    while x < n
        invariant
            world.wf(),
            n == world@.len(),
            x <= n,
            out@ == pairs(world@, x as int, ships),
        decreases n - x,
    {
        let ghost base = out@;
        let mut y: usize = 0;
        while y < n
            invariant
                world.wf(),
                n == world@.len(),
                x < n,
                y <= n,
                out@ == base + pairs_in_row(world@, x as int, y as int, ships),
            decreases n - y,
        {
            if pair_test(world, x, y, ships) {
                out.push((x, y));
                assert(base + pairs_in_row(world@, x as int, y + 1, ships) == (base
                    + pairs_in_row(world@, x as int, y as int, ships)).push((x, y)));
            }
            y = y + 1;
        }
        x = x + 1;
    }
    out
}

/// A fragment of a split asteroid, without its random motion: the parent's
/// transform and half its size.
pub open spec fn fragment(t: CTransform, size: u32) -> Components {
    Components {
        transform: Some(t),
        asteroid: Some(Asteroid { size: size / 2 }),
        ..Components::empty_spec()
    }
}

/// Hit `k` is the first on its asteroid: hits are grouped by asteroid, so
/// the hit before it, if any, is on another one.
pub open spec fn first_hit(hits: Seq<(usize, usize)>, k: int) -> bool {
    k == 0 || hits[k - 1].0 != hits[k].0
}

/// The commands queued for one hit of bullet `b` on asteroid `a`, with the
/// fragments' random motion left out: on the asteroid's first hit of the
/// step (`first`), a large asteroid spawns two fragments; then the asteroid
/// and the bullet are despawned (a later hit despawns only what is left).
pub open spec fn hit_cmds(rows: Seq<Row>, a: int, b: int, first: bool) -> Seq<Command> {
    let gone = seq![Command::Despawn(entity_of(rows, a)), Command::Despawn(entity_of(rows, b))];
    if !first || size_of(rows[a]) < MIN_SPLIT_SIZE {
        gone
    } else {
        let f = Command::Spawn(fragment(rows[a].comps.transform.unwrap(), rows[a].comps.asteroid.unwrap().size));
        seq![f, f] + gone
    }
}

/// The commands for the first `k` hits, in order.
pub open spec fn hits_cmds(rows: Seq<Row>, hits: Seq<(usize, usize)>, k: int) -> Seq<Command>
    decreases k,
{
    if k <= 0 {
        Seq::empty()
    } else {
        hits_cmds(rows, hits, k - 1) + hit_cmds(
            rows,
            hits[k - 1].0 as int,
            hits[k - 1].1 as int,
            first_hit(hits, k - 1),
        )
    }
}

/// The owners of the bullets of the first `k` hits, in order; bullets with
/// no owner credit nobody.
pub open spec fn hit_owners(rows: Seq<Row>, hits: Seq<(usize, usize)>, k: int) -> Seq<Entity>
    decreases k,
{
    if k <= 0 {
        Seq::empty()
    } else {
        let prev = hit_owners(rows, hits, k - 1);
        match rows[hits[k - 1].1 as int].comps.owned_by {
            Some(o) => prev.push(o.owner),
            None => prev,
        }
    }
}

/// A command with the random motion of a spawned entity left out.
pub open spec fn calm(c: Command) -> Command {
    match c {
        Command::Spawn(comps) => Command::Spawn(Components { physics: None, ..comps }),
        _ => c,
    }
}

/// A fragment moves at most `FRAGMENT_SPEED` per axis and spins at most
/// `FRAGMENT_SPIN`.
pub open spec fn fragment_motion_ok(c: Components) -> bool {
    match c.physics {
        Some(p) => -FRAGMENT_SPEED <= p.vel.x < FRAGMENT_SPEED && -FRAGMENT_SPEED <= p.vel.y
            < FRAGMENT_SPEED && -FRAGMENT_SPIN <= p.rot_vel < FRAGMENT_SPIN,
        None => false,
    }
}

/// `actual` is `expected` up to the random motion of spawned entities, and
/// every spawned fragment moves within the fragment limits.
pub open spec fn calm_matches(actual: Seq<Command>, expected: Seq<Command>) -> bool {
    &&& actual.len() == expected.len()
    &&& forall|i: int| 0 <= i < actual.len() ==> calm(#[trigger] actual[i]) == expected[i]
    &&& forall|i: int|
        0 <= i < actual.len() ==> (#[trigger] actual[i] matches Command::Spawn(c) ==> (
        c.asteroid is Some ==> fragment_motion_ok(c)))
}

/// On its first hit of a step, an asteroid of size at least three yields
/// exactly two fragments, each of half its size (rounded down) at its
/// position and heading, and is despawned. A smaller asteroid, or any later
/// hit on the same asteroid, spawns nothing: only the asteroid and the
/// bullet are despawned.
pub proof fn lemma_split(rows: Seq<Row>, a: int, b: int, first: bool)
    requires
        0 <= a < rows.len(),
        is_asteroid(rows[a]),
    ensures
        first && size_of(rows[a]) >= MIN_SPLIT_SIZE ==> {
            let cs = hit_cmds(rows, a, b, first);
            &&& cs.len() == 4
            &&& cs[2] == Command::Despawn(entity_of(rows, a))
            &&& forall|i: int|
                0 <= i < 2 ==> (#[trigger] cs[i] matches Command::Spawn(c) && (c.asteroid
                    == Some(Asteroid { size: (size_of(rows[a]) / 2) as u32 }) && c.transform
                    == rows[a].comps.transform))
            &&& forall|i: int| 2 <= i < 4 ==> !(#[trigger] cs[i] is Spawn)
        },
        !first || size_of(rows[a]) < MIN_SPLIT_SIZE ==> hit_cmds(rows, a, b, first) == seq![
            Command::Despawn(entity_of(rows, a)),
            Command::Despawn(entity_of(rows, b)),
        ],
{
}

proof fn lemma_pairs_grouped(rows: Seq<Row>, n: int, ships: bool)
    requires
        0 <= n <= rows.len(),
        rows.len() <= usize::MAX,
    ensures
        forall|k: int| 0 <= k < pairs(rows, n, ships).len() ==> (#[trigger] pairs(rows, n, ships)[k]).0 < n,
        forall|k1: int, k2: int|
            0 <= k1 <= k2 < pairs(rows, n, ships).len() ==> (#[trigger] pairs(rows, n, ships)[k1]).0
                <= (#[trigger] pairs(rows, n, ships)[k2]).0,
    decreases n,
{
    if n > 0 {
        lemma_pairs_grouped(rows, n - 1, ships);
        lemma_pairs_in_row_valid(rows, n - 1, rows.len() as int, ships);
        let a = pairs(rows, n - 1, ships);
        let b = pairs_in_row(rows, n - 1, rows.len() as int, ships);
        let c = pairs(rows, n, ships);
        assert(c == a + b);
        assert forall|k: int| 0 <= k < c.len() implies (#[trigger] c[k]).0 < n && (k >= a.len() ==> c[k].0
            == n - 1) by {
            if k < a.len() {
                assert(c[k] == a[k]);
            } else {
                assert(c[k] == b[k - a.len()]);
            }
        }
        assert forall|k1: int, k2: int| 0 <= k1 <= k2 < c.len() implies (#[trigger] c[k1]).0 <= (
        #[trigger] c[k2]).0 by {
            if k2 < a.len() {
                assert(c[k1] == a[k1] && c[k2] == a[k2]);
            }
        }
    }
}

/// Among `hits`, the first hits on two different indices are on different
/// asteroids, and every hit has a first hit on its asteroid at or before it.
pub open spec fn first_hits_unique(hits: Seq<(usize, usize)>) -> bool {
    &&& forall|k1: int, k2: int|
        0 <= k1 < k2 < hits.len() && first_hit(hits, k1) && first_hit(hits, k2) ==> (
        #[trigger] hits[k1]).0 != (#[trigger] hits[k2]).0
    &&& forall|k: int|
        0 <= k < hits.len() ==> 0 <= #[trigger] first_of(hits, k) <= k && first_hit(
            hits,
            first_of(hits, k),
        ) && hits[first_of(hits, k)].0 == hits[k].0
}

/// The first hit on the asteroid of hit `k`, going back through its group.
pub open spec fn first_of(hits: Seq<(usize, usize)>, k: int) -> int
    decreases k,
{
    if k <= 0 || first_hit(hits, k) {
        k
    } else {
        first_of(hits, k - 1)
    }
}

/// Each asteroid is split at most once per step: among the hits, exactly
/// one is the first on each asteroid that is hit at all.
pub proof fn lemma_split_once(rows: Seq<Row>)
    requires
        rows.len() <= usize::MAX,
    ensures
        first_hits_unique(pairs(rows, rows.len() as int, false)),
{
    let hits = pairs(rows, rows.len() as int, false);
    lemma_pairs_grouped(rows, rows.len() as int, false);
    assert forall|k1: int, k2: int|
        0 <= k1 < k2 < hits.len() && first_hit(hits, k1) && first_hit(hits, k2) implies (
        #[trigger] hits[k1]).0 != (#[trigger] hits[k2]).0 by {
        assert(hits[k1].0 <= hits[k2 - 1].0 <= hits[k2].0);
    }
    assert forall|k: int| 0 <= k < hits.len() implies 0 <= #[trigger] first_of(hits, k) <= k
        && first_hit(hits, first_of(hits, k)) && hits[first_of(hits, k)].0 == hits[k].0 by {
        lemma_first_hit_before(hits, k);
    }
    assert(first_hits_unique(hits));
}

proof fn lemma_first_hit_before(hits: Seq<(usize, usize)>, k: int)
    requires
        0 <= k < hits.len(),
    ensures
        0 <= first_of(hits, k) <= k,
        first_hit(hits, first_of(hits, k)),
        hits[first_of(hits, k)].0 == hits[k].0,
    decreases k,
{
    if k > 0 && !first_hit(hits, k) {
        lemma_first_hit_before(hits, k - 1);
    }
}

fn split_asteroid(t: CTransform, size: u32, cmds: &mut CommandBuffer, rng: &mut StdRng) -> (r: (
    Components,
    Components,
))
    requires
        old(cmds).wf(),
        t.pos.bounded(),
    ensures
        final(cmds).wf(),
        final(cmds)@ == old(cmds)@.push(Command::Spawn(r.0)).push(Command::Spawn(r.1)),
        calm_matches(
            seq![Command::Spawn(r.0), Command::Spawn(r.1)],
            seq![Command::Spawn(fragment(t, size)), Command::Spawn(fragment(t, size))],
        ),
{
    let a = random_fragment(t, size, rng);
    let b = random_fragment(t, size, rng);
    cmds.spawn(a);
    cmds.spawn(b);
    let ghost actual = seq![Command::Spawn(a), Command::Spawn(b)];
    assert(calm(actual[0]) == Command::Spawn(fragment(t, size)));
    assert(calm(actual[1]) == Command::Spawn(fragment(t, size)));
    (a, b)
}

fn random_fragment(t: CTransform, size: u32, rng: &mut StdRng) -> (c: Components)
    requires
        t.pos.bounded(),
    ensures
        c.bounded(),
        (Components { physics: None, ..c }) == fragment(t, size),
        (c.asteroid is Some),
        fragment_motion_ok(c),
{
    let vx = random_in(rng, -FRAGMENT_SPEED, FRAGMENT_SPEED);
    let vy = random_in(rng, -FRAGMENT_SPEED, FRAGMENT_SPEED);
    let spin = random_in(rng, -FRAGMENT_SPIN, FRAGMENT_SPIN);
    Components {
        transform: Some(t),
        asteroid: Some(Asteroid { size: size / 2 }),
        physics: Some(Physics { vel: Vec2 { x: vx, y: vy }, rot_vel: spin as i32 }),
        ..Components::empty()
    }
}

proof fn lemma_calm_matches_concat(a1: Seq<Command>, e1: Seq<Command>, a2: Seq<Command>, e2: Seq<Command>)
    requires
        calm_matches(a1, e1),
        calm_matches(a2, e2),
    ensures
        calm_matches(a1 + a2, e1 + e2),
{
    assert forall|i: int| 0 <= i < (a1 + a2).len() implies calm(#[trigger] (a1 + a2)[i]) == (e1 + e2)[i] by {
        if i < a1.len() {
            assert((a1 + a2)[i] == a1[i]);
        } else {
            assert((a1 + a2)[i] == a2[i - a1.len()]);
        }
    }
    assert forall|i: int| 0 <= i < (a1 + a2).len() implies (#[trigger] (a1 + a2)[i] matches Command::Spawn(c) ==> (
        c.asteroid is Some ==> fragment_motion_ok(c))) by {
        if i < a1.len() {
            assert((a1 + a2)[i] == a1[i]);
        } else {
            assert((a1 + a2)[i] == a2[i - a1.len()]);
        }
    }
}

/// One entry of the score tally: points earned this step by `owner`.
#[derive(Clone, Copy, PartialEq, Eq, Debug)]
pub struct ScoreInstance {
    pub owner: Entity,
    pub score: u32,
}

/// `a + b`, saturating at `u32::MAX`.
pub open spec fn sat_add(a: u32, b: u32) -> u32 {
    if a + b > u32::MAX {
        u32::MAX
    } else {
        (a + b) as u32
    }
}

/// The first entry of `t` crediting `o`; `t.len()` when there is none.
pub open spec fn find_owner(t: Seq<ScoreInstance>, o: Entity, k: int) -> int
    decreases t.len() - k,
{
    if k < 0 || k >= t.len() {
        t.len() as int
    } else if t[k].owner == o {
        k
    } else {
        find_owner(t, o, k + 1)
    }
}

/// The tally of a list of owners: one entry per distinct owner, in order of
/// first appearance, counting that owner's appearances.
pub open spec fn tally(s: Seq<Entity>) -> Seq<ScoreInstance>
    decreases s.len(),
{
    if s.len() == 0 {
        Seq::empty()
    } else {
        let t = tally(s.drop_last());
        let o = s.last();
        let k = find_owner(t, o, 0);
        if k < t.len() {
            t.update(k, ScoreInstance { owner: o, score: sat_add(t[k].score, 1) })
        } else {
            t.push(ScoreInstance { owner: o, score: 1 })
        }
    }
}

/// How many times `o` appears in `s`.
pub open spec fn occurrences(s: Seq<Entity>, o: Entity) -> int
    decreases s.len(),
{
    if s.len() == 0 {
        0
    } else {
        occurrences(s.drop_last(), o) + if s.last() == o {
            1int
        } else {
            0
        }
    }
}

proof fn lemma_find_owner(t: Seq<ScoreInstance>, o: Entity, k: int)
    requires
        0 <= k <= t.len(),
    ensures
        k <= find_owner(t, o, k) <= t.len(),
        find_owner(t, o, k) < t.len() ==> t[find_owner(t, o, k)].owner == o,
        forall|j: int| k <= j < find_owner(t, o, k) ==> t[j].owner != o,
    decreases t.len() - k,
{
    if k < t.len() {
        lemma_find_owner(t, o, k + 1);
    }
}

/// Kills credited to the same owner in one step are added up: the tally
/// holds one entry per owner that appears, no owner twice, and each entry
/// counts all of that owner's appearances (saturating at `u32::MAX`).
pub proof fn lemma_tally(s: Seq<Entity>)
    ensures
        forall|i: int, j: int|
            0 <= i < j < tally(s).len() ==> (#[trigger] tally(s)[i]).owner != (#[trigger] tally(
                s,
            )[j]).owner,
        forall|i: int|
            0 <= i < tally(s).len() ==> (#[trigger] tally(s)[i]).score == capped_count(
                occurrences(s, tally(s)[i].owner),
            ),
        forall|o: Entity| #[trigger] occurrences(s, o) >= 0,
        forall|o: Entity|
            occurrences(s, o) > 0 ==> #[trigger] find_owner(tally(s), o, 0) < tally(s).len(),
        forall|o: Entity|
            occurrences(s, o) == 0 ==> #[trigger] find_owner(tally(s), o, 0) == tally(s).len(),
    decreases s.len(),
{
    if s.len() > 0 {
        let p = s.drop_last();
        lemma_tally(p);
        let t = tally(p);
        let o = s.last();
        lemma_find_owner(t, o, 0);
        let k = find_owner(t, o, 0);
        let t2 = tally(s);
        assert(forall|x: Entity| #[trigger] occurrences(s, x) == occurrences(p, x) + if x == o {
            1int
        } else {
            0
        });
        // the owners of t2: those of t, plus o at the end when it is new
        assert(forall|j: int| 0 <= j < t.len() ==> #[trigger] t2[j].owner == t[j].owner);
        if k == t.len() {
            assert(t2[t.len() as int].owner == o);
            assert(occurrences(p, o) == 0);
        }
        assert forall|x: Entity| occurrences(s, x) > 0 implies #[trigger] find_owner(t2, x, 0)
            < t2.len() by {
            lemma_find_owner(t2, x, 0);
            if x == o {
                if k < t.len() {
                    assert(t2[k].owner == x);
                } else {
                    assert(t2[t.len() as int].owner == x);
                }
            } else {
                lemma_find_owner(t, x, 0);
                let j = find_owner(t, x, 0);
                assert(t2[j].owner == x);
            }
        }
        assert forall|x: Entity| occurrences(s, x) == 0 implies #[trigger] find_owner(t2, x, 0)
            == t2.len() by {
            lemma_find_owner(t2, x, 0);
            lemma_find_owner(t, x, 0);
            let j = find_owner(t2, x, 0);
            if j < t2.len() {
                if j < t.len() {
                    assert(t[j].owner == x);
                }
            }
        }
        assert forall|i: int, j: int| 0 <= i < j < t2.len() implies (#[trigger] t2[i]).owner != (
        #[trigger] t2[j]).owner by {
            if k == t.len() && j == t.len() {
                assert(t[i].owner != o);
            } else {
                assert(t[i].owner != t[j].owner);
            }
        }
        assert forall|i: int| 0 <= i < t2.len() implies (#[trigger] t2[i]).score == capped_count(
            occurrences(s, t2[i].owner),
        ) by {
            if i == k {
                if k < t.len() {
                    assert(t[k].score == capped_count(occurrences(p, o)));
                }
            } else {
                assert(t2[i] == t[i]);
                assert(t[i].owner != o) by {
                    if t[i].owner == o {
                        if k < t.len() {
                            assert(t[k].owner == o);
                            if i < k {
                                assert(t[i].owner != o);
                            }
                        }
                    }
                }
            }
        }
    }
}

/// A count, saturating at `u32::MAX`.
pub open spec fn capped_count(n: int) -> int {
    if n > u32::MAX {
        u32::MAX as int
    } else {
        n
    }
}

fn tally_exec(s: &Vec<Entity>) -> (r: Vec<ScoreInstance>)
    ensures
        r@ == tally(s@),
{
    let mut t: Vec<ScoreInstance> = Vec::new();
    let mut i: usize = 0;
    while i < s.len()
        invariant
            i <= s@.len(),
            t@ == tally(s@.take(i as int)),
        decreases s@.len() - i,
    {
        let o = s[i];
        assert(s@.take(i + 1).drop_last() == s@.take(i as int));
        let ghost t0 = t@;
        proof {
            lemma_find_owner(t0, o, 0);
        }
        let mut k: usize = 0;
        while k < t.len()
            invariant_except_break
                find_owner(t0, o, 0) == find_owner(t0, o, k as int),
            invariant
                t@ == t0,
                k <= t0.len(),
            ensures
                k == find_owner(t0, o, 0),
            decreases t0.len() - k,
        {
            if t[k].owner == o {
                break;
            }
            k = k + 1;
        }
        if k < t.len() {
            let cur = t[k].score;
            let n: u32 = if cur < u32::MAX {
                cur + 1
            } else {
                u32::MAX
            };
            t.set(k, ScoreInstance { owner: o, score: n });
        } else {
            t.push(ScoreInstance { owner: o, score: 1 });
        }
        i = i + 1;
    }
    assert(s@.take(s@.len() as int) == s@);
    t
}

/// The first live row holding a score credited to `o`; `rows.len()` when
/// there is none.
pub open spec fn score_row(rows: Seq<Row>, o: Entity, k: int) -> int
    decreases rows.len() - k,
{
    if k < 0 || k >= rows.len() {
        rows.len() as int
    } else if rows[k].alive && (rows[k].comps.score matches Some(sc) && sc.owner == o) {
        k
    } else {
        score_row(rows, o, k + 1)
    }
}

/// The table after crediting the first `k` tally entries: each adds to the
/// first score of its owner, when there is one.
pub open spec fn credited(rows: Seq<Row>, t: Seq<ScoreInstance>, k: int) -> Seq<Row>
    decreases k,
{
    if k <= 0 {
        rows
    } else {
        let r = credited(rows, t, k - 1);
        let x = t[k - 1];
        let i = score_row(r, x.owner, 0);
        if i < r.len() {
            let old_score = r[i].comps.score.unwrap();
            r.update(
                i,
                Row {
                    comps: Components {
                        score: Some(Score { owner: x.owner, score: sat_add(old_score.score, x.score) }),
                        ..r[i].comps
                    },
                    ..r[i]
                },
            )
        } else {
            r
        }
    }
}

/// The spawn of a score entity holding tally entry `x`.
pub open spec fn score_spawn(x: ScoreInstance) -> Command {
    Command::Spawn(
        Components { score: Some(Score { owner: x.owner, score: x.score }), ..Components::empty_spec() },
    )
}

/// The owner credited by a spawned score entity, if `c` spawns one.
pub open spec fn spawn_owner(c: Command) -> Option<Entity> {
    match c {
        Command::Spawn(comps) => match comps.score {
            Some(sc) => Some(sc.owner),
            None => None,
        },
        _ => None,
    }
}

/// The owner of the live score held in row `r`, if any.
pub open spec fn score_owner_of(r: Row) -> Option<Entity> {
    if r.alive && r.comps.score is Some {
        Some(r.comps.score.unwrap().owner)
    } else {
        None
    }
}

/// The score entities spawned for the first `k` tally entries: one for each
/// owner that had no score yet.
pub open spec fn new_scores(rows: Seq<Row>, t: Seq<ScoreInstance>, k: int) -> Seq<Command>
    decreases k,
{
    if k <= 0 {
        Seq::empty()
    } else {
        let r = credited(rows, t, k - 1);
        let x = t[k - 1];
        if score_row(r, x.owner, 0) < r.len() {
            new_scores(rows, t, k - 1)
        } else {
            new_scores(rows, t, k - 1).push(score_spawn(x))
        }
    }
}

proof fn lemma_score_row(rows: Seq<Row>, o: Entity, k: int)
    requires
        0 <= k <= rows.len(),
    ensures
        k <= score_row(rows, o, k) <= rows.len(),
        score_row(rows, o, k) < rows.len() ==> rows[score_row(rows, o, k)].alive
            && rows[score_row(rows, o, k)].comps.score is Some
            && rows[score_row(rows, o, k)].comps.score.unwrap().owner == o,
    decreases rows.len() - k,
{
    if k < rows.len() {
        lemma_score_row(rows, o, k + 1);
    }
}

proof fn lemma_score_row_same(a: Seq<Row>, b: Seq<Row>, o: Entity, k: int)
    requires
        a.len() == b.len(),
        0 <= k <= a.len(),
        forall|i: int| 0 <= i < a.len() ==> score_owner_of(#[trigger] a[i]) == score_owner_of(b[i]),
    ensures
        score_row(a, o, k) == score_row(b, o, k),
    decreases a.len() - k,
{
    if k < a.len() {
        assert(score_owner_of(a[k]) == score_owner_of(b[k]));
        lemma_score_row_same(a, b, o, k + 1);
    }
}

proof fn lemma_credited_owners(rows: Seq<Row>, t: Seq<ScoreInstance>, j: int)
    requires
        0 <= j,
    ensures
        credited(rows, t, j).len() == rows.len(),
        forall|i: int|
            0 <= i < rows.len() ==> score_owner_of(#[trigger] credited(rows, t, j)[i])
                == score_owner_of(rows[i]),
    decreases j,
{
    if j > 0 {
        lemma_credited_owners(rows, t, j - 1);
        let r = credited(rows, t, j - 1);
        lemma_score_row(r, t[j - 1].owner, 0);
        assert forall|i: int| 0 <= i < rows.len() implies score_owner_of(
            #[trigger] credited(rows, t, j)[i],
        ) == score_owner_of(rows[i]) by {
            assert(score_owner_of(r[i]) == score_owner_of(rows[i]));
        }
    }
}

proof fn lemma_new_scores_step(rows: Seq<Row>, t: Seq<ScoreInstance>, m: int)
    requires
        0 < m <= t.len(),
    ensures
        new_scores(rows, t, m) == if score_row(rows, t[m - 1].owner, 0) == rows.len() {
            new_scores(rows, t, m - 1).push(score_spawn(t[m - 1]))
        } else {
            new_scores(rows, t, m - 1)
        },
{
    let r = credited(rows, t, m - 1);
    lemma_credited_owners(rows, t, m - 1);
    lemma_score_row_same(r, rows, t[m - 1].owner, 0);
    lemma_score_row(rows, t[m - 1].owner, 0);
    assert(score_row(r, t[m - 1].owner, 0) == score_row(rows, t[m - 1].owner, 0));
}

/// Each spawned score holds a tally entry whose owner had no score.
proof fn lemma_new_scores_from(rows: Seq<Row>, t: Seq<ScoreInstance>, m: int)
    requires
        0 <= m <= t.len(),
    ensures
        forall|k: int|
            0 <= k < new_scores(rows, t, m).len() ==> exists|j: int|
                0 <= j < m && score_row(rows, t[j].owner, 0) == rows.len() && #[trigger] new_scores(
                    rows,
                    t,
                    m,
                )[k] == score_spawn(t[j]),
    decreases m,
{
    if m > 0 {
        lemma_new_scores_from(rows, t, m - 1);
        lemma_new_scores_step(rows, t, m);
        let prev = new_scores(rows, t, m - 1);
        let cur = new_scores(rows, t, m);
        assert forall|k: int| 0 <= k < cur.len() implies exists|j: int|
            0 <= j < m && score_row(rows, t[j].owner, 0) == rows.len() && #[trigger] cur[k]
                == score_spawn(t[j]) by {
            if k < prev.len() {
                assert(cur[k] == prev[k]);
                let j = choose|j: int|
                    0 <= j < m - 1 && score_row(rows, t[j].owner, 0) == rows.len() && #[trigger] prev[k]
                        == score_spawn(t[j]);
                assert(cur[k] == score_spawn(t[j]));
            } else {
                assert(cur[k] == score_spawn(t[m - 1]));
            }
        }
    }
}

/// No two spawned scores credit the same owner.
proof fn lemma_new_scores_distinct(rows: Seq<Row>, t: Seq<ScoreInstance>, m: int)
    requires
        0 <= m <= t.len(),
        forall|i: int, j: int| 0 <= i < j < t.len() ==> (#[trigger] t[i]).owner != (#[trigger] t[j]).owner,
    ensures
        forall|k1: int, k2: int|
            0 <= k1 < k2 < new_scores(rows, t, m).len() ==> spawn_owner(
                #[trigger] new_scores(rows, t, m)[k1],
            ) != spawn_owner(#[trigger] new_scores(rows, t, m)[k2]),
    decreases m,
{
    if m > 0 {
        lemma_new_scores_distinct(rows, t, m - 1);
        lemma_new_scores_from(rows, t, m - 1);
        lemma_new_scores_step(rows, t, m);
        let prev = new_scores(rows, t, m - 1);
        let cur = new_scores(rows, t, m);
        assert forall|k1: int, k2: int| 0 <= k1 < k2 < cur.len() implies spawn_owner(
            #[trigger] cur[k1],
        ) != spawn_owner(#[trigger] cur[k2]) by {
            assert(cur[k1] == prev[k1]);
            if k2 < prev.len() {
                assert(cur[k2] == prev[k2]);
            } else {
                let j = choose|j: int|
                    0 <= j < m - 1 && score_row(rows, t[j].owner, 0) == rows.len() && #[trigger] prev[k1]
                        == score_spawn(t[j]);
                assert(cur[k2] == score_spawn(t[m - 1]));
                assert(t[j].owner != t[m - 1].owner);
            }
        }
    }
}

/// Each tally entry whose owner had no score is spawned.
proof fn lemma_new_scores_cover(rows: Seq<Row>, t: Seq<ScoreInstance>, m: int)
    requires
        0 <= m <= t.len(),
    ensures
        forall|j: int|
            0 <= j < m && score_row(rows, t[j].owner, 0) == rows.len() ==> exists|k: int|
                0 <= k < new_scores(rows, t, m).len() && new_scores(rows, t, m)[k] == score_spawn(
                    #[trigger] t[j],
                ),
    decreases m,
{
    if m > 0 {
        lemma_new_scores_cover(rows, t, m - 1);
        lemma_new_scores_step(rows, t, m);
        let prev = new_scores(rows, t, m - 1);
        let cur = new_scores(rows, t, m);
        assert forall|j: int| 0 <= j < m && score_row(rows, t[j].owner, 0) == rows.len() implies exists|k: int|
            0 <= k < cur.len() && cur[k] == score_spawn(#[trigger] t[j]) by {
            if j < m - 1 {
                let k = choose|k: int| 0 <= k < prev.len() && prev[k] == score_spawn(t[j]);
                assert(cur[k] == prev[k]);
            } else {
                assert(cur[prev.len() as int] == score_spawn(t[j]));
            }
        }
    }
}

proof fn lemma_credited(rows: Seq<Row>, t: Seq<ScoreInstance>, k: int)
    requires
        0 <= k,
    ensures
        same_entities(rows, credited(rows, t, k)),
    decreases k,
{
    if k > 0 {
        lemma_credited(rows, t, k - 1);
        let r = credited(rows, t, k - 1);
        lemma_score_row(r, t[k - 1].owner, 0);
    }
}

/// Credits each tally entry to the first live score of its owner, or queues
/// a new score entity for an owner that has none.
fn commit_scores(world: &mut World, t: &Vec<ScoreInstance>, cmds: &mut CommandBuffer)
    requires
        old(world).wf(),
        old(cmds).wf(),
    ensures
        final(world).wf(),
        final(cmds).wf(),
        final(world)@ == credited(old(world)@, t@, t@.len() as int),
        final(cmds)@ == old(cmds)@ + new_scores(old(world)@, t@, t@.len() as int),
{
    let ghost start = world@;
    let mut k: usize = 0;
    while k < t.len()
        invariant
            k <= t@.len(),
            world.wf(),
            cmds.wf(),
            world@ == credited(start, t@, k as int),
            cmds@ == old(cmds)@ + new_scores(start, t@, k as int),
        decreases t@.len() - k,
    {
        let x = t[k];
        let ghost r = world@;
        proof {
            lemma_score_row(r, x.owner, 0);
        }
        let mut i: usize = 0;
        while i < world.len()
            invariant_except_break
                score_row(r, x.owner, 0) == score_row(r, x.owner, i as int),
            invariant
                world@ == r,
                i <= r.len(),
            ensures
                i == score_row(r, x.owner, 0),
            decreases r.len() - i,
        {
            let row = world.row(i);
            if row.alive {
                match row.comps.score {
                    Some(sc) => {
                        if sc.owner == x.owner {
                            break;
                        }
                    },
                    None => {},
                }
            }
            i = i + 1;
        }
        if i < world.len() {
            let row = world.row(i);
            let sc = row.comps.score.unwrap();
            let n: u32 = if sc.score > u32::MAX - x.score {
                u32::MAX
            } else {
                sc.score + x.score
            };
            assert(world@[i as int].comps.bounded());
            world.set(
                Entity { index: i, generation: row.generation },
                Components { score: Some(Score { owner: x.owner, score: n }), ..row.comps },
            );
            assert(world@ =~= credited(start, t@, k + 1));
        } else {
            cmds.spawn(
                Components {
                    score: Some(Score { owner: x.owner, score: x.score }),
                    ..Components::empty()
                },
            );
        }
        k = k + 1;
    }
}

/// The despawns for the crashes in `crashes[0..k]`: the asteroid, then the
/// ship.
pub open spec fn crash_cmds(rows: Seq<Row>, crashes: Seq<(usize, usize)>, k: int) -> Seq<Command>
    decreases k,
{
    if k <= 0 {
        Seq::empty()
    } else {
        crash_cmds(rows, crashes, k - 1) + seq![
            Command::Despawn(entity_of(rows, crashes[k - 1].1 as int)),
            Command::Despawn(entity_of(rows, crashes[k - 1].0 as int)),
        ]
    }
}

/// All that collision queues for `rows`, up to the fragments' motion.
pub open spec fn collision_cmds(rows: Seq<Row>) -> Seq<Command> {
    let hits = pairs(rows, rows.len() as int, false);
    let t = tally(hit_owners(rows, hits, hits.len() as int));
    hits_cmds(rows, hits, hits.len() as int) + new_scores(rows, t, t.len() as int) + crash_cmds(
        rows,
        pairs(rows, rows.len() as int, true),
        pairs(rows, rows.len() as int, true).len() as int,
    )
}

/// The kills of this step, tallied per owner.
pub open spec fn kill_tally(rows: Seq<Row>) -> Seq<ScoreInstance> {
    let hits = pairs(rows, rows.len() as int, false);
    tally(hit_owners(rows, hits, hits.len() as int))
}

/// The table after the kills of this step are credited to the scores.
pub open spec fn scores_credited(rows: Seq<Row>) -> Seq<Row> {
    credited(rows, kill_tally(rows), kill_tally(rows).len() as int)
}

/// One explosion sound per hit.
pub open spec fn explosions(rows: Seq<Row>) -> Seq<AudioCommand> {
    Seq::new(pairs(rows, rows.len() as int, false).len(), |i: int| AudioCommand::AsteroidExplosion)
}

/// `d` is `c` followed by what collision queues for `rows`, up to the
/// fragments' random motion.
pub open spec fn collision_queued(rows: Seq<Row>, c: Seq<Command>, d: Seq<Command>) -> bool {
    &&& d.subrange(0, c.len() as int) == c
    &&& calm_matches(d.subrange(c.len() as int, d.len() as int), collision_cmds(rows))
}

/// The number of the first `k` hits made by a bullet owned by `o`.
pub open spec fn kills_by(rows: Seq<Row>, hits: Seq<(usize, usize)>, k: int, o: Entity) -> int
    decreases k,
{
    if k <= 0 {
        0
    } else {
        kills_by(rows, hits, k - 1, o) + if rows[hits[k - 1].1 as int].comps.owned_by == Some(
            OwnedBy { owner: o },
        ) {
            1int
        } else {
            0
        }
    }
}

proof fn lemma_kills_by(rows: Seq<Row>, hits: Seq<(usize, usize)>, k: int, o: Entity)
    requires
        0 <= k,
    ensures
        occurrences(hit_owners(rows, hits, k), o) == kills_by(rows, hits, k, o),
    decreases k,
{
    if k > 0 {
        lemma_kills_by(rows, hits, k - 1, o);
        let prev = hit_owners(rows, hits, k - 1);
        match rows[hits[k - 1].1 as int].comps.owned_by {
            Some(ob) => {
                assert(prev.push(ob.owner).drop_last() == prev);
            },
            None => {},
        }
    }
}

/// Kills are committed once per owner: an owner whose bullets hit this
/// step and who has no score yet gets exactly one new score entity,
/// holding the number of those hits (saturating at `u32::MAX`); an owner
/// with a score, or with no hits, gets no new one.
pub proof fn lemma_kills_committed_once(rows: Seq<Row>, o: Entity)
    ensures
        ({
            let hits = pairs(rows, rows.len() as int, false);
            let owners = hit_owners(rows, hits, hits.len() as int);
            let t = kill_tally(rows);
            let ns = new_scores(rows, t, t.len() as int);
            &&& occurrences(owners, o) == kills_by(rows, hits, hits.len() as int, o)
            &&& occurrences(owners, o) > 0 && score_row(rows, o, 0) == rows.len() ==> exists|k: int|
                0 <= k < ns.len() && #[trigger] ns[k] == score_spawn(
                    ScoreInstance { owner: o, score: capped_count(occurrences(owners, o)) as u32 },
                )
            &&& forall|k1: int, k2: int|
                0 <= k1 < ns.len() && 0 <= k2 < ns.len() && spawn_owner(#[trigger] ns[k1]) == Some(o)
                    && spawn_owner(#[trigger] ns[k2]) == Some(o) ==> k1 == k2
            &&& (occurrences(owners, o) == 0 || score_row(rows, o, 0) < rows.len()) ==> forall|k: int|
                0 <= k < ns.len() ==> spawn_owner(#[trigger] ns[k]) != Some(o)
        }),
{
    let hits = pairs(rows, rows.len() as int, false);
    let owners = hit_owners(rows, hits, hits.len() as int);
    let t = kill_tally(rows);
    let ns = new_scores(rows, t, t.len() as int);
    lemma_kills_by(rows, hits, hits.len() as int, o);
    lemma_tally(owners);
    lemma_new_scores_from(rows, t, t.len() as int);
    lemma_new_scores_distinct(rows, t, t.len() as int);
    lemma_new_scores_cover(rows, t, t.len() as int);
    lemma_find_owner(t, o, 0);
    if occurrences(owners, o) > 0 && score_row(rows, o, 0) == rows.len() {
        let j = find_owner(t, o, 0);
        assert(t[j].owner == o);
        assert(t[j] == ScoreInstance { owner: o, score: capped_count(occurrences(owners, o)) as u32 });
        let k = choose|k: int| 0 <= k < ns.len() && ns[k] == score_spawn(t[j]);
        assert(ns[k] == score_spawn(ScoreInstance { owner: o, score: capped_count(occurrences(owners, o)) as u32 }));
    }
    assert forall|k1: int, k2: int|
        0 <= k1 < ns.len() && 0 <= k2 < ns.len() && spawn_owner(#[trigger] ns[k1]) == Some(o)
            && spawn_owner(#[trigger] ns[k2]) == Some(o) implies k1 == k2 by {
        if k1 < k2 {
            assert(spawn_owner(ns[k1]) != spawn_owner(ns[k2]));
        } else if k2 < k1 {
            assert(spawn_owner(ns[k2]) != spawn_owner(ns[k1]));
        }
    }
    assert forall|k: int| (occurrences(owners, o) == 0 || score_row(rows, o, 0) < rows.len()) && 0 <= k < ns.len()
        implies spawn_owner(#[trigger] ns[k]) != Some(o) by {
        let j = choose|j: int|
            0 <= j < t.len() && score_row(rows, t[j].owner, 0) == rows.len() && #[trigger] ns[k]
                == score_spawn(t[j]);
        if t[j].owner == o {
            assert(find_owner(t, o, 0) <= j);
            assert(t[j].score == capped_count(occurrences(owners, o)));
            assert(occurrences(owners, o) > 0) by {
                if occurrences(owners, o) == 0 {
                    assert(find_owner(t, o, 0) == t.len());
                }
            }
        }
    }
}

/// Bullet against asteroid, then ship against asteroid.
///
/// Each bullet within `0.8 * size` pixels of an asteroid despawns both; an
/// asteroid of size three or more leaves two fragments of half its size
/// with random motion, once, on its first hit of the step. The kills are tallied per owner of the bullet and
/// added to that owner's score (a new score entity when it has none). Each
/// ship within `0.8 * (size + 1)` pixels of an asteroid is despawned with
/// it. One explosion sound is queued per hit.
pub fn collision(
    world: &mut World,
    cmds: &mut CommandBuffer,
    audio: &mut Vec<AudioCommand>,
    rng: &mut StdRng,
)
    requires
        old(world).wf(),
        old(cmds).wf(),
    ensures
        final(world).wf(),
        final(cmds).wf(),
        same_entities(old(world)@, final(world)@),
        collision_queued(old(world)@, old(cmds)@, final(cmds)@),
        final(world)@ == scores_credited(old(world)@),
        final(audio)@ == old(audio)@ + explosions(old(world)@),
{
    let ghost start = world@;
    let ghost c0 = cmds@;
    let n = world.len();
    let hits = find_pairs(world, false);
    let crashes = find_pairs(world, true);
    proof {
        lemma_pairs_valid(start, start.len() as int, false);
        lemma_pairs_valid(start, start.len() as int, true);
    }
    let mut owners: Vec<Entity> = Vec::new();
    let ghost mut acc: Seq<Command> = Seq::empty();
    let mut k: usize = 0;
    while k < hits.len()
        invariant
            world@ == start,
            n == start.len(),
            world.wf(),
            cmds.wf(),
            hits@ == pairs(start, start.len() as int, false),
            forall|j: int|
                0 <= j < hits@.len() ==> {
                    let (x, y) = #[trigger] hits@[j];
                    &&& x < start.len()
                    &&& y < start.len()
                    &&& bullet_hits(start, x as int, y as int)
                },
            k <= hits@.len(),
            cmds@ == c0 + acc,
            calm_matches(acc, hits_cmds(start, hits@, k as int)),
            owners@ == hit_owners(start, hits@, k as int),
            audio@ == old(audio)@ + Seq::new(k as nat, |i: int| AudioCommand::AsteroidExplosion),
        decreases hits@.len() - k,
    {
        let (a, b) = hits[k];
        let ra = world.row(a);
        let rb = world.row(b);
        assert(start[a as int].comps.bounded());
        let t = ra.comps.transform.unwrap();
        let size = ra.comps.asteroid.unwrap().size;
        let ea = Entity { index: a, generation: ra.generation };
        let eb = Entity { index: b, generation: rb.generation };
        let ghost gone = seq![Command::Despawn(ea), Command::Despawn(eb)];
        let first = k == 0 || hits[k - 1].0 != a;
        if first && size >= MIN_SPLIT_SIZE {
            let pieces = split_asteroid(t, size, cmds, rng);
            cmds.despawn(ea);
            cmds.despawn(eb);
            proof {
                let sp = seq![Command::Spawn(pieces.0), Command::Spawn(pieces.1)];
                let f = Command::Spawn(fragment(t, size));
                assert(calm_matches(gone, gone));
                lemma_calm_matches_concat(sp, seq![f, f], gone, gone);
                lemma_calm_matches_concat(acc, hits_cmds(start, hits@, k as int), sp + gone, seq![f, f] + gone);
                assert(cmds@ == c0 + (acc + (sp + gone)));
                acc = acc + (sp + gone);
            }
        } else {
            cmds.despawn(ea);
            cmds.despawn(eb);
            proof {
                assert(calm_matches(gone, gone));
                lemma_calm_matches_concat(acc, hits_cmds(start, hits@, k as int), gone, gone);
                assert(cmds@ == c0 + (acc + gone));
                acc = acc + gone;
            }
        }
        assert(hits_cmds(start, hits@, k + 1) == hits_cmds(start, hits@, k as int) + hit_cmds(
            start,
            a as int,
            b as int,
            first,
        ));
        match rb.comps.owned_by {
            Some(o) => {
                owners.push(o.owner);
            },
            None => {},
        }
        audio.push(AudioCommand::AsteroidExplosion);
        proof {
            assert(audio@ =~= old(audio)@ + Seq::new((k + 1) as nat, |i: int| AudioCommand::AsteroidExplosion));
        }
        k = k + 1;
    }
    // ship crashes, read from the table as it was before any score changed
    let mut crash_buf = CommandBuffer::new();
    let mut m: usize = 0;
    while m < crashes.len()
        invariant
            world@ == start,
            n == start.len(),
            crash_buf.wf(),
            crashes@ == pairs(start, start.len() as int, true),
            forall|j: int|
                0 <= j < crashes@.len() ==> {
                    let (x, y) = #[trigger] crashes@[j];
                    &&& x < start.len()
                    &&& y < start.len()
                },
            m <= crashes@.len(),
            crash_buf@ == crash_cmds(start, crashes@, m as int),
        decreases crashes@.len() - m,
    {
        let (p, a) = crashes[m];
        let ga = world.row(a).generation;
        let gp = world.row(p).generation;
        crash_buf.despawn(Entity { index: a, generation: ga });
        crash_buf.despawn(Entity { index: p, generation: gp });
        m = m + 1;
    }
    let t = tally_exec(&owners);
    proof {
        lemma_credited(start, t@, t@.len() as int);
    }
    let ghost c1 = cmds@;
    commit_scores(world, &t, cmds);
    let ghost c2 = cmds@;
    cmds.append(&crash_buf);
    proof {
        let scores = new_scores(start, t@, t@.len() as int);
        let crash = crash_cmds(start, crashes@, crashes@.len() as int);
        lemma_new_scores_calm(start, t@, t@.len() as int);
        lemma_crash_cmds_despawn(start, crashes@, crashes@.len() as int);
        assert(calm_matches(scores, scores)) by {
            assert forall|i: int| 0 <= i < scores.len() implies calm(#[trigger] scores[i]) == scores[i] by {}
        }
        assert(calm_matches(crash, crash)) by {
            assert forall|i: int| 0 <= i < crash.len() implies calm(#[trigger] crash[i]) == crash[i] by {}
        }
        lemma_calm_matches_concat(acc, hits_cmds(start, hits@, hits@.len() as int), scores, scores);
        lemma_calm_matches_concat(acc + scores, hits_cmds(start, hits@, hits@.len() as int) + scores, crash, crash);
        assert(cmds@ == c0 + (acc + scores + crash));
        assert(cmds@.subrange(0, c0.len() as int) =~= c0);
        assert(cmds@.subrange(c0.len() as int, cmds@.len() as int) =~= acc + scores + crash);
    }
}

proof fn lemma_pairs_valid(rows: Seq<Row>, n: int, ships: bool)
    requires
        0 <= n <= rows.len(),
        rows.len() <= usize::MAX,
    ensures
        forall|k: int|
            0 <= k < pairs(rows, n, ships).len() ==> {
                let (x, y) = #[trigger] pairs(rows, n, ships)[k];
                &&& x < rows.len()
                &&& y < rows.len()
                &&& if ships {
                    ship_crashes(rows, x as int, y as int)
                } else {
                    bullet_hits(rows, x as int, y as int)
                }
            },
    decreases n,
{
    if n > 0 {
        lemma_pairs_valid(rows, n - 1, ships);
        lemma_pairs_in_row_valid(rows, n - 1, rows.len() as int, ships);
        let a = pairs(rows, n - 1, ships);
        let b = pairs_in_row(rows, n - 1, rows.len() as int, ships);
        assert forall|k: int| 0 <= k < (a + b).len() implies #[trigger] (a + b)[k] == if k < a.len() {
            a[k]
        } else {
            b[k - a.len()]
        } by {}
    }
}

proof fn lemma_pairs_in_row_valid(rows: Seq<Row>, x: int, m: int, ships: bool)
    requires
        0 <= x < rows.len(),
        0 <= m <= rows.len(),
        rows.len() <= usize::MAX,
    ensures
        forall|k: int|
            0 <= k < pairs_in_row(rows, x, m, ships).len() ==> {
                let (p, q) = #[trigger] pairs_in_row(rows, x, m, ships)[k];
                &&& p == x
                &&& q < m
                &&& if ships {
                    ship_crashes(rows, p as int, q as int)
                } else {
                    bullet_hits(rows, p as int, q as int)
                }
            },
    decreases m,
{
    if m > 0 {
        lemma_pairs_in_row_valid(rows, x, m - 1, ships);
        let prev = pairs_in_row(rows, x, m - 1, ships);
        let cur = pairs_in_row(rows, x, m, ships);
        assert forall|k: int| 0 <= k < cur.len() implies {
            let (p, q) = #[trigger] cur[k];
            &&& p == x
            &&& q < m
            &&& if ships {
                ship_crashes(rows, p as int, q as int)
            } else {
                bullet_hits(rows, p as int, q as int)
            }
        } by {
            if k < prev.len() {
                assert(cur[k] == prev[k]);
            }
        }
    }
}

proof fn lemma_new_scores_calm(rows: Seq<Row>, t: Seq<ScoreInstance>, k: int)
    ensures
        forall|i: int|
            0 <= i < new_scores(rows, t, k).len() ==> (#[trigger] new_scores(rows, t, k)[i] matches Command::Spawn(c)
                && (c.physics is None && c.asteroid is None)),
    decreases k,
{
    if k > 0 {
        lemma_new_scores_calm(rows, t, k - 1);
    }
}

proof fn lemma_crash_cmds_despawn(rows: Seq<Row>, crashes: Seq<(usize, usize)>, m: int)
    ensures
        forall|i: int| 0 <= i < crash_cmds(rows, crashes, m).len() ==> (#[trigger] crash_cmds(rows, crashes, m)[i]) is Despawn,
    decreases m,
{
    if m > 0 {
        lemma_crash_cmds_despawn(rows, crashes, m - 1);
        let a = crash_cmds(rows, crashes, m - 1);
        let b = seq![
            Command::Despawn(entity_of(rows, crashes[m - 1].1 as int)),
            Command::Despawn(entity_of(rows, crashes[m - 1].0 as int)),
        ];
        assert forall|i: int| 0 <= i < (a + b).len() implies (#[trigger] (a + b)[i]) is Despawn by {
            if i < a.len() {
                assert((a + b)[i] == a[i]);
            } else {
                assert((a + b)[i] == b[i - a.len()]);
            }
        }
    }
}

} // verus!
