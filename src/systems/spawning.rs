use vstd::prelude::*;

use rand::rngs::StdRng;

use crate::commands::{Command, CommandBuffer};
use crate::components::{
    Asteroid, Attachable, CTransform, CaptureInPlayField, Components, Enemy, GrabZone, Gun,
    Physics,
};
use crate::geom::{
    dir_of, direction, heading_towards, in_play_field, is_heading_towards, scale, scale_spec,
    sub_spec, sub_vec, Vec2, COORD_LIMIT, FIELD_HEIGHT, FIELD_WIDTH, FULL_TURN, UNIT,
};
use crate::random::random_in;
use crate::timer::{AsteroidSpawnTimer, EnemySpawnTimer, GunSpawnTimer, TypedTimer};

verus! {

/// Number of spawn zones around the field: four corners and four edges.
pub const SPAWN_ZONES: u32 = 8;

/// Slowest and fastest (exclusive) spawn speed: half a pixel to a pixel.
pub const MIN_SPAWN_SPEED: i64 = 500;
pub const MAX_SPAWN_SPEED: i64 = 1000;

/// Spawned asteroids have sizes in `[MIN_ASTEROID_SIZE, MAX_ASTEROID_SIZE)`.
pub const MIN_ASTEROID_SIZE: i64 = 10;
pub const MAX_ASTEROID_SIZE: i64 = 30;

/// Size of a spawned enemy and of a spawned gun, for their padding.
pub const ENEMY_SIZE: i64 = 1;
pub const GUN_SIZE: i64 = 5;

/// Grab radius of a spawned enemy: 10 pixels.
pub const ENEMY_GRAB_RADIUS: i64 = 10 * UNIT;

/// Spawned guns have fire delays in `[MIN_FIRE_DELAY, MAX_FIRE_DELAY)`.
pub const MIN_FIRE_DELAY: i64 = 28;
pub const MAX_FIRE_DELAY: i64 = 32;

/// The length of the field's side that zone `zone` runs along (its edge).
pub open spec fn zone_span(zone: int) -> int {
    if zone == 1 || zone == 5 {
        FIELD_WIDTH as int
    } else {
        FIELD_HEIGHT as int
    }
}

/// A point in spawn zone `zone` (0 top-left corner, then clockwise: top
/// edge, top-right, right edge, bottom-right, bottom edge, bottom-left,
/// left edge), `pad` outside the field; `along` places it along an edge.
pub open spec fn zone_point(zone: int, along: int, pad: int) -> Vec2 {
    let left = -pad;
    let right = FIELD_WIDTH + pad;
    let top = -pad;
    let bottom = FIELD_HEIGHT + pad;
    let (x, y) = if zone == 0 {
        (left, top)
    } else if zone == 1 {
        (along, top)
    } else if zone == 2 {
        (right, top)
    } else if zone == 3 {
        (right, along)
    } else if zone == 4 {
        (right, bottom)
    } else if zone == 5 {
        (along, bottom)
    } else if zone == 6 {
        (left, bottom)
    } else {
        (left, along)
    };
    Vec2 { x: x as i64, y: y as i64 }
}

/// `p` is a point of one of the spawn zones, `pad` outside the field.
pub open spec fn in_spawn_zone(p: Vec2, pad: int) -> bool {
    exists|zone: int, along: int|
        0 <= zone < SPAWN_ZONES && 0 <= along < zone_span(zone) && p == #[trigger] zone_point(
            zone,
            along,
            pad,
        )
}

/// The point of zone `zone` at `along`, `pad` outside the field.
pub fn position_outside_play_area(zone: u32, along: i64, pad: i64) -> (r: Vec2)
    requires
        zone < SPAWN_ZONES,
        0 <= along < zone_span(zone as int),
        0 < pad <= COORD_LIMIT - FIELD_WIDTH,
    ensures
        r == zone_point(zone as int, along as int, pad as int),
        !in_play_field(r),
        r.bounded(),
{
    let left = -pad;
    let right = FIELD_WIDTH + pad;
    let top = -pad;
    let bottom = FIELD_HEIGHT + pad;
    let (x, y) = if zone == 0 {
        (left, top)
    } else if zone == 1 {
        (along, top)
    } else if zone == 2 {
        (right, top)
    } else if zone == 3 {
        (right, along)
    } else if zone == 4 {
        (right, bottom)
    } else if zone == 5 {
        (along, bottom)
    } else if zone == 6 {
        (left, bottom)
    } else {
        (left, along)
    };
    Vec2 { x, y }
}

/// A random point `pad` outside the field, in a random one of the zones.
pub fn get_padded_position_outside_play_area(rng: &mut StdRng, pad: i64) -> (r: Vec2)
    requires
        0 < pad <= COORD_LIMIT - FIELD_WIDTH,
    ensures
        in_spawn_zone(r, pad as int),
        !in_play_field(r),
        r.bounded(),
{
    let zone = random_in(rng, 0, SPAWN_ZONES as i64) as u32;
    let span: i64 = if zone == 1 || zone == 5 {
        FIELD_WIDTH
    } else {
        FIELD_HEIGHT
    };
    let along = random_in(rng, 0, span);
    let r = position_outside_play_area(zone, along, pad);
    assert(0 <= zone < SPAWN_ZONES && 0 <= along < zone_span(zone as int) && r == zone_point(
        zone as int,
        along as int,
        pad as int,
    ));
    r
}

/// A random point of the field, edges of the low sides included.
pub fn get_random_pos_in_play_area(rng: &mut StdRng) -> (r: Vec2)
    ensures
        0 <= r.x < FIELD_WIDTH,
        0 <= r.y < FIELD_HEIGHT,
{
    let x = random_in(rng, 0, FIELD_WIDTH);
    let y = random_in(rng, 0, FIELD_HEIGHT);
    Vec2 { x, y }
}

/// The heading and velocity of something at `from` that aims at `to` at
/// `speed` (thousandths of a pixel per step).
pub open spec fn aimed(from: Vec2, to: Vec2, speed: int, h: int, vel: Vec2) -> bool {
    &&& is_heading_towards(h, sub_spec(to, from))
    &&& vel == scale_spec(dir_of(h), speed)
}

fn aim(from: Vec2, to: Vec2, speed: i64) -> (r: (u32, Vec2))
    requires
        from.bounded(),
        to.bounded(),
        0 <= speed <= MAX_SPAWN_SPEED,
    ensures
        aimed(from, to, speed as int, r.0 as int, r.1),
        r.1.bounded(),
{
    let h = heading_towards(sub_vec(to, from));
    let d = direction(h);
    (h, scale(d, speed))
}

/// The timer after one frame: counted down, and refilled when it reaches
/// zero (which is when the spawner fires).
pub open spec fn timer_fired<T>(before: TypedTimer<T>, after: TypedTimer<T>) -> bool {
    let c = if before.countdown() > 0 {
        before.countdown() - 1
    } else {
        0
    };
    &&& after.interval() == before.interval()
    &&& after.countdown() == if c == 0 {
        before.interval() as int
    } else {
        c
    }
}

/// Whether the spawner fires on this frame.
pub open spec fn fires<T>(before: TypedTimer<T>) -> bool {
    before.countdown() <= 1
}

/// When the spawner fires, `d` is `c` with one spawn appended whose
/// components satisfy `ok`; otherwise `d` is `c`.
pub open spec fn spawned(
    fired: bool,
    c: Seq<Command>,
    d: Seq<Command>,
    ok: spec_fn(Components) -> bool,
) -> bool {
    &&& fired ==> d.len() == c.len() + 1 && d.drop_last() == c && (d.last() matches Command::Spawn(x)
        && ok(x))
    &&& !fired ==> d == c
}

/// What a spawned asteroid looks like: in a spawn zone, twice its size
/// outside the field, aimed at a point of the field, with the capture tag.
pub open spec fn asteroid_from(c: Components, pos: Vec2, size: int, heading: int, target: Vec2, speed: int, aim_h: int, vel: Vec2) -> bool {
        MIN_ASTEROID_SIZE <= size < MAX_ASTEROID_SIZE && 0 <= heading < FULL_TURN && in_field_or_edge(target)
            && MIN_SPAWN_SPEED <= speed < MAX_SPAWN_SPEED && !in_play_field(pos) && in_spawn_zone(pos, size * 2 * UNIT) && aimed(pos, target, speed, aim_h, vel) && c == (Components {
            transform: Some(CTransform { pos, rot: heading as u32 }),
            asteroid: Some(Asteroid { size: size as u32 }),
            physics: Some(Physics { vel, rot_vel: 0 }),
            capture: Some(CaptureInPlayField),
            ..Components::empty_spec()
        })
}

pub open spec fn asteroid_spawned(c: Components) -> bool {
    exists|pos: Vec2, size: int, heading: int, target: Vec2, speed: int, aim_h: int, vel: Vec2|
        #[trigger] asteroid_from(c, pos, size, heading, target, speed, aim_h, vel)
}

/// `p` lies in the field or on its low edges, as a random target does.
pub open spec fn in_field_or_edge(p: Vec2) -> bool {
    0 <= p.x < FIELD_WIDTH && 0 <= p.y < FIELD_HEIGHT
}

/// Steps the asteroid timer; when it runs out, refills it and queues one
/// asteroid of random size (`[10, 30)`) just outside the field (padded by
/// twice its size), aimed at a random point of the field.
pub fn spawn_asteroids(timer: &mut AsteroidSpawnTimer, rng: &mut StdRng, cmds: &mut CommandBuffer)
    requires
        old(cmds).wf(),
    ensures
        final(cmds).wf(),
        timer_fired(*old(timer), *final(timer)),
        spawned(fires(*old(timer)), old(cmds)@, final(cmds)@, |c: Components| asteroid_spawned(c)),
{
    timer.step();
    if timer.get_countdown() == 0 {
        timer.reset();
        let size = random_in(rng, MIN_ASTEROID_SIZE, MAX_ASTEROID_SIZE);
        let position = get_padded_position_outside_play_area(rng, size * 2 * UNIT);
        let target = get_random_pos_in_play_area(rng);
        let speed = random_in(rng, MIN_SPAWN_SPEED, MAX_SPAWN_SPEED);
        let (aim_h, vel) = aim(position, target, speed);
        let heading = random_in(rng, 0, FULL_TURN as i64) as u32;
        let c = Components {
            transform: Some(CTransform { pos: position, rot: heading }),
            asteroid: Some(Asteroid { size: size as u32 }),
            physics: Some(Physics { vel, rot_vel: 0 }),
            capture: Some(CaptureInPlayField),
            ..Components::empty()
        };
        let ghost old_cmds = cmds@;
        cmds.spawn(c);
        assert(cmds@.drop_last() == old_cmds);
        assert(asteroid_from(c, position, size as int, heading as int, target, speed as int, aim_h as int, vel));
    }
}

/// What a spawned enemy looks like: in a spawn zone, twice its size outside
/// the field, facing and moving toward a point of the field, with a grab
/// zone and the capture tag.
pub open spec fn enemy_from(c: Components, pos: Vec2, target: Vec2, speed: int, aim_h: int, vel: Vec2) -> bool {
        in_field_or_edge(target) && MIN_SPAWN_SPEED <= speed < MAX_SPAWN_SPEED
            && !in_play_field(pos) && in_spawn_zone(pos, ENEMY_SIZE * 2 * UNIT) && aimed(
            pos,
            target,
            speed,
            aim_h,
            vel,
        ) && c == (Components {
            enemy: Some(Enemy),
            transform: Some(CTransform { pos, rot: aim_h as u32 }),
            physics: Some(Physics { vel, rot_vel: 0 }),
            grab_zone: Some(GrabZone { radius: ENEMY_GRAB_RADIUS }),
            capture: Some(CaptureInPlayField),
            ..Components::empty_spec()
        })
}

pub open spec fn enemy_spawned(c: Components) -> bool {
    exists|pos: Vec2, target: Vec2, speed: int, aim_h: int, vel: Vec2|
        #[trigger] enemy_from(c, pos, target, speed, aim_h, vel)
}

/// Steps the enemy timer; when it runs out, refills it and queues one enemy
/// just outside the field, facing and moving toward a random point of it.
pub fn spawn_enemies(timer: &mut EnemySpawnTimer, rng: &mut StdRng, cmds: &mut CommandBuffer)
    requires
        old(cmds).wf(),
    ensures
        final(cmds).wf(),
        timer_fired(*old(timer), *final(timer)),
        spawned(fires(*old(timer)), old(cmds)@, final(cmds)@, |c: Components| enemy_spawned(c)),
{
    timer.step();
    if timer.get_countdown() == 0 {
        timer.reset();
        let position = get_padded_position_outside_play_area(rng, ENEMY_SIZE * 2 * UNIT);
        let target = get_random_pos_in_play_area(rng);
        let speed = random_in(rng, MIN_SPAWN_SPEED, MAX_SPAWN_SPEED);
        let (aim_h, vel) = aim(position, target, speed);
        let c = Components {
            enemy: Some(Enemy),
            transform: Some(CTransform { pos: position, rot: aim_h }),
            physics: Some(Physics { vel, rot_vel: 0 }),
            grab_zone: Some(GrabZone { radius: ENEMY_GRAB_RADIUS }),
            capture: Some(CaptureInPlayField),
            ..Components::empty()
        };
        let ghost old_cmds = cmds@;
        cmds.spawn(c);
        assert(cmds@.drop_last() == old_cmds);
        assert(enemy_from(c, position, target, speed as int, aim_h as int, vel));
    }
}

/// What a spawned gun looks like: in a spawn zone, twice its size outside
/// the field, moving toward a
/// point of it, idle, attachable, with the capture tag.
pub open spec fn gun_from(c: Components, pos: Vec2, heading: int, fire_delay: int, target: Vec2, speed: int, aim_h: int, vel: Vec2) -> bool {
        0 <= heading < FULL_TURN && MIN_FIRE_DELAY <= fire_delay < MAX_FIRE_DELAY
            && in_field_or_edge(target) && MIN_SPAWN_SPEED <= speed < MAX_SPAWN_SPEED
            && !in_play_field(pos) && in_spawn_zone(pos, GUN_SIZE * 2 * UNIT) && aimed(
            pos,
            target,
            speed,
            aim_h,
            vel,
        ) && c == (Components {
            transform: Some(CTransform { pos, rot: heading as u32 }),
            physics: Some(Physics { vel, rot_vel: 0 }),
            gun: Some(Gun { wants_to_shoot: false, fire_delay: fire_delay as u32, cooldown: 0 }),
            attachable: Some(Attachable),
            capture: Some(CaptureInPlayField),
            ..Components::empty_spec()
        })
}

pub open spec fn gun_spawned(c: Components) -> bool {
    exists|pos: Vec2, heading: int, fire_delay: int, target: Vec2, speed: int, aim_h: int, vel: Vec2|
        #[trigger] gun_from(c, pos, heading, fire_delay, target, speed, aim_h, vel)
}

/// Steps the gun timer; when it runs out, refills it and queues one gun
/// just outside the field, moving toward a random point of it.
pub fn spawn_guns(timer: &mut GunSpawnTimer, rng: &mut StdRng, cmds: &mut CommandBuffer)
    requires
        old(cmds).wf(),
    ensures
        final(cmds).wf(),
        timer_fired(*old(timer), *final(timer)),
        spawned(fires(*old(timer)), old(cmds)@, final(cmds)@, |c: Components| gun_spawned(c)),
{
    timer.step();
    if timer.get_countdown() != 0 {
        return;
    }
    timer.reset();
    let position = get_padded_position_outside_play_area(rng, GUN_SIZE * 2 * UNIT);
    let target = get_random_pos_in_play_area(rng);
    let speed = random_in(rng, MIN_SPAWN_SPEED, MAX_SPAWN_SPEED);
    let (aim_h, vel) = aim(position, target, speed);
    let heading = random_in(rng, 0, FULL_TURN as i64) as u32;
    let fire_delay = random_in(rng, MIN_FIRE_DELAY, MAX_FIRE_DELAY) as u32;
    let c = Components {
        transform: Some(CTransform { pos: position, rot: heading }),
        physics: Some(Physics { vel, rot_vel: 0 }),
        gun: Some(Gun { wants_to_shoot: false, fire_delay, cooldown: 0 }),
        attachable: Some(Attachable),
        capture: Some(CaptureInPlayField),
        ..Components::empty()
    };
    let ghost old_cmds = cmds@;
    cmds.spawn(c);
    assert(cmds@.drop_last() == old_cmds);
    assert(gun_from(c, position, heading as int, fire_delay as int, target, speed as int, aim_h as int, vel));
}

} // verus!
