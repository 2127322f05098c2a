use ecstroids::audio::AudioCommand;
use ecstroids::commands::CommandBuffer;
use ecstroids::components::{
    Asteroid, AttachedTo, Attachable, Bullet, CTransform, CaptureInPlayField, ComponentKind,
    Components, Enemy, Entity, GrabZone, Gun, InputControlled, LifeSpan, LookAt, OwnedBy, Physics,
    Player, Score, VelocityUncapped, WantsToGoTo,
};
use ecstroids::geom::{Vec2, FIELD_WIDTH, MAX_VEL};
use ecstroids::rendering::DrawCommand;
use ecstroids::schedules::{build_play_schedule, build_title_schedule, step};
use ecstroids::state::{apply_transition, GameMode, PlayingInputs, State, TitleInputs};
use ecstroids::systems::attached::{
    attach_to_grab_zone, check_attached_to_null, check_owned_by_null, stick_to_attached,
};
use ecstroids::systems::collision::collision;
use ecstroids::systems::enemy::{enemy_behaviour, look_at};
use ecstroids::systems::input::handle_inputs;
use ecstroids::systems::title;
use ecstroids::systems::physics::{capture_in_play_field, physics, step_lifespan, world_wrap};
use ecstroids::systems::render::{entity_render, game_over};
use ecstroids::systems::shooting::guns;
use ecstroids::systems::spawning::{
    get_random_pos_in_play_area, spawn_asteroids, spawn_enemies, spawn_guns,
};
use ecstroids::timer::{AsteroidSpawnTimer, EnemySpawnTimer, GunSpawnTimer};
use ecstroids::world::{Filter, World};
use rand::rngs::StdRng;
use rand::SeedableRng;

fn rng() -> StdRng {
    StdRng::seed_from_u64(7)
}

fn placed(x: i64, y: i64, rot: u32) -> Components {
    let mut c = Components::empty();
    c.transform = Some(CTransform { pos: Vec2::new(x, y), rot });
    c
}

fn pos_of(w: &World, e: Entity) -> Vec2 {
    w.entry(e).unwrap().transform.unwrap().pos
}

#[test]
fn physics_caps_speed_of_capped_entities() {
    let mut w = World::new();
    let mut fast = placed(0, 0, 0);
    fast.physics = Some(Physics { vel: Vec2::new(3000, 4000), rot_vel: 0 });
    let f = w.spawn(fast).unwrap();
    let mut free = placed(0, 0, 0);
    free.physics = Some(Physics { vel: Vec2::new(100_000, 0), rot_vel: 0 });
    free.velocity_uncapped = Some(VelocityUncapped);
    let u = w.spawn(free).unwrap();
    physics(&mut w);
    let v = w.entry(f).unwrap().physics.unwrap().vel;
    assert_eq!(v, Vec2::new(1200, 1600));
    assert!(v.x * v.x + v.y * v.y <= MAX_VEL * MAX_VEL);
    assert_eq!(pos_of(&w, f), Vec2::new(1200, 1600));
    assert_eq!(w.entry(u).unwrap().physics.unwrap().vel, Vec2::new(100_000, 0));
    assert_eq!(pos_of(&w, u), Vec2::new(100_000, 0));
}

#[test]
fn physics_turns_by_a_tenth_of_rot_vel() {
    let mut w = World::new();
    let mut c = placed(0, 0, 3590);
    c.physics = Some(Physics { vel: Vec2::new(0, 0), rot_vel: 50 });
    let e = w.spawn(c).unwrap();
    physics(&mut w);
    assert_eq!(w.entry(e).unwrap().transform.unwrap().rot, 40);
}

#[test]
fn wrap_after_physics_moves_past_edge_back() {
    let mut w = World::new();
    let mut c = placed(FIELD_WIDTH + 1000, 50_000, 0);
    c.physics = Some(Physics { vel: Vec2::new(0, 0), rot_vel: 0 });
    let e = w.spawn(c).unwrap();
    let mut held = placed(FIELD_WIDTH + 1000, 50_000, 0);
    held.capture = Some(CaptureInPlayField);
    let h = w.spawn(held).unwrap();
    physics(&mut w);
    world_wrap(&mut w);
    assert_eq!(pos_of(&w, e).x, 1000);
    assert_eq!(pos_of(&w, h).x, FIELD_WIDTH + 1000);
}

#[test]
fn capture_tag_released_inside_field() {
    let mut w = World::new();
    let mut inside = placed(10_000, 10_000, 0);
    inside.capture = Some(CaptureInPlayField);
    let i = w.spawn(inside).unwrap();
    let mut outside = placed(-10_000, 10_000, 0);
    outside.capture = Some(CaptureInPlayField);
    let o = w.spawn(outside).unwrap();
    let mut cmds = CommandBuffer::new();
    capture_in_play_field(&w, &mut cmds);
    cmds.apply(&mut w);
    assert!(w.entry(i).unwrap().capture.is_none());
    assert!(w.entry(o).unwrap().capture.is_some());
}

#[test]
fn lifespan_expires() {
    let mut w = World::new();
    let mut a = Components::empty();
    a.life_span = Some(LifeSpan { frames_left: 1 });
    let ea = w.spawn(a).unwrap();
    let mut b = Components::empty();
    b.life_span = Some(LifeSpan { frames_left: 3 });
    let eb = w.spawn(b).unwrap();
    let mut cmds = CommandBuffer::new();
    step_lifespan(&mut w, &mut cmds);
    cmds.apply(&mut w);
    assert!(!w.contains(ea));
    assert_eq!(w.entry(eb).unwrap().life_span, Some(LifeSpan { frames_left: 2 }));
}

fn armed_gun(owner: Entity, cooldown: u32, wants: bool) -> Components {
    let mut g = placed(50_000, 50_000, 0);
    g.gun = Some(Gun { wants_to_shoot: wants, fire_delay: 10, cooldown });
    g.owned_by = Some(OwnedBy { owner });
    g
}

#[test]
fn ready_gun_fires_one_bullet() {
    let mut w = World::new();
    let owner = w.spawn(Components::empty()).unwrap();
    let g = w.spawn(armed_gun(owner, 0, true)).unwrap();
    let mut cmds = CommandBuffer::new();
    guns(&mut w, &mut cmds);
    assert_eq!(w.entry(g).unwrap().gun.unwrap().cooldown, 10);
    cmds.apply(&mut w);
    let bullets = w.query(&Filter::has(ComponentKind::Bullet));
    assert_eq!(bullets.len(), 1);
    let b = w.entry(bullets[0]).unwrap();
    assert_eq!(b.physics.unwrap().vel, Vec2::new(100_000, 0));
    assert_eq!(b.transform.unwrap().pos, Vec2::new(52_000, 50_000));
    assert_eq!(b.owned_by, Some(OwnedBy { owner }));
    assert_eq!(b.life_span, Some(LifeSpan { frames_left: 60 }));
    assert!(b.velocity_uncapped.is_some());
}

#[test]
fn cooling_or_idle_gun_does_not_fire() {
    let mut w = World::new();
    let owner = w.spawn(Components::empty()).unwrap();
    let cooling = w.spawn(armed_gun(owner, 3, true)).unwrap();
    let idle = w.spawn(armed_gun(owner, 0, false)).unwrap();
    let mut cmds = CommandBuffer::new();
    guns(&mut w, &mut cmds);
    assert_eq!(cmds.len(), 0);
    assert_eq!(w.entry(cooling).unwrap().gun.unwrap().cooldown, 2);
    assert_eq!(w.entry(idle).unwrap().gun.unwrap().cooldown, 0);
}

fn rock(x: i64, y: i64, size: u32) -> Components {
    let mut a = placed(x, y, 450);
    a.asteroid = Some(Asteroid { size });
    a
}

fn shot(x: i64, y: i64, owner: Option<Entity>) -> Components {
    let mut b = placed(x, y, 0);
    b.bullet = Some(Bullet);
    b.owned_by = owner.map(|o| OwnedBy { owner: o });
    b
}

#[test]
fn large_asteroid_splits_in_two() {
    let mut w = World::new();
    let a = w.spawn(rock(50_000, 50_000, 10)).unwrap();
    let b = w.spawn(shot(52_000, 50_000, None)).unwrap();
    let mut cmds = CommandBuffer::new();
    let mut audio = Vec::new();
    let mut r = rng();
    collision(&mut w, &mut cmds, &mut audio, &mut r);
    cmds.apply(&mut w);
    assert!(!w.contains(a));
    assert!(!w.contains(b));
    let rocks = w.query(&Filter::has(ComponentKind::Asteroid));
    assert_eq!(rocks.len(), 2);
    for e in rocks {
        let c = w.entry(e).unwrap();
        assert_eq!(c.asteroid, Some(Asteroid { size: 5 }));
        assert_eq!(c.transform, Some(CTransform { pos: Vec2::new(50_000, 50_000), rot: 450 }));
        let p = c.physics.unwrap();
        assert!(-500 <= p.vel.x && p.vel.x < 500 && -500 <= p.vel.y && p.vel.y < 500);
        assert!(-50 <= p.rot_vel && p.rot_vel < 50);
    }
    assert_eq!(audio, vec![AudioCommand::AsteroidExplosion]);
}

#[test]
fn small_asteroid_is_destroyed_without_fragments() {
    let mut w = World::new();
    let a = w.spawn(rock(50_000, 50_000, 2)).unwrap();
    let _b = w.spawn(shot(50_000, 51_000, None)).unwrap();
    let mut cmds = CommandBuffer::new();
    let mut audio = Vec::new();
    let mut r = rng();
    collision(&mut w, &mut cmds, &mut audio, &mut r);
    cmds.apply(&mut w);
    assert!(!w.contains(a));
    assert_eq!(w.query(&Filter::has(ComponentKind::Asteroid)).len(), 0);
    assert_eq!(w.query(&Filter::has(ComponentKind::Bullet)).len(), 0);
}

#[test]
fn bullet_outside_radius_misses() {
    let mut w = World::new();
    let a = w.spawn(rock(50_000, 50_000, 2)).unwrap();
    let b = w.spawn(shot(51_601, 50_000, None)).unwrap();
    let mut cmds = CommandBuffer::new();
    let mut audio = Vec::new();
    let mut r = rng();
    collision(&mut w, &mut cmds, &mut audio, &mut r);
    assert_eq!(cmds.len(), 0);
    assert!(audio.is_empty());
    assert!(w.contains(a) && w.contains(b));
}

#[test]
fn two_kills_by_one_owner_add_two_to_one_new_score() {
    let mut w = World::new();
    let p = w.spawn(Components::empty()).unwrap();
    w.spawn(rock(50_000, 50_000, 2)).unwrap();
    w.spawn(rock(150_000, 100_000, 2)).unwrap();
    w.spawn(shot(50_000, 50_000, Some(p))).unwrap();
    w.spawn(shot(150_000, 100_000, Some(p))).unwrap();
    let mut cmds = CommandBuffer::new();
    let mut audio = Vec::new();
    let mut r = rng();
    collision(&mut w, &mut cmds, &mut audio, &mut r);
    cmds.apply(&mut w);
    let scores = w.query(&Filter::has(ComponentKind::Score));
    assert_eq!(scores.len(), 1);
    assert_eq!(w.entry(scores[0]).unwrap().score, Some(Score { owner: p, score: 2 }));
    assert_eq!(audio.len(), 2);
}

#[test]
fn two_kills_by_one_owner_increment_existing_score() {
    let mut w = World::new();
    let p = w.spawn(Components::empty()).unwrap();
    let mut s = Components::empty();
    s.score = Some(Score { owner: p, score: 5 });
    let se = w.spawn(s).unwrap();
    w.spawn(rock(50_000, 50_000, 2)).unwrap();
    w.spawn(rock(150_000, 100_000, 2)).unwrap();
    w.spawn(shot(50_000, 50_000, Some(p))).unwrap();
    w.spawn(shot(150_000, 100_000, Some(p))).unwrap();
    let mut cmds = CommandBuffer::new();
    let mut audio = Vec::new();
    let mut r = rng();
    collision(&mut w, &mut cmds, &mut audio, &mut r);
    cmds.apply(&mut w);
    assert_eq!(w.query(&Filter::has(ComponentKind::Score)), vec![se]);
    assert_eq!(w.entry(se).unwrap().score, Some(Score { owner: p, score: 7 }));
}

#[test]
fn ship_touching_asteroid_dies_with_it() {
    let mut w = World::new();
    let a = w.spawn(rock(50_000, 50_000, 10)).unwrap();
    let mut ship = placed(58_800, 50_000, 0);
    ship.player = Some(Player);
    let s = w.spawn(ship).unwrap();
    let mut far = placed(58_801, 50_000, 0);
    far.enemy = Some(Enemy);
    let f = w.spawn(far).unwrap();
    let mut cmds = CommandBuffer::new();
    let mut audio = Vec::new();
    let mut r = rng();
    collision(&mut w, &mut cmds, &mut audio, &mut r);
    cmds.apply(&mut w);
    assert!(!w.contains(a));
    assert!(!w.contains(s));
    assert!(w.contains(f));
}

#[test]
fn dangling_attachment_and_owner_are_removed() {
    let mut w = World::new();
    let anchor = w.spawn(placed(0, 0, 0)).unwrap();
    let mut g = placed(0, 0, 0);
    g.attached_to = Some(AttachedTo { entity: anchor, offset: Vec2::new(0, 0) });
    g.owned_by = Some(OwnedBy { owner: anchor });
    let ge = w.spawn(g).unwrap();
    w.despawn(anchor);
    let mut cmds = CommandBuffer::new();
    check_attached_to_null(&w, &mut cmds);
    check_owned_by_null(&w, &mut cmds);
    cmds.apply(&mut w);
    let c = w.entry(ge).unwrap();
    assert!(c.attached_to.is_none());
    assert!(c.owned_by.is_none());
}

#[test]
fn live_attachment_is_kept() {
    let mut w = World::new();
    let anchor = w.spawn(placed(0, 0, 0)).unwrap();
    let mut g = placed(0, 0, 0);
    g.attached_to = Some(AttachedTo { entity: anchor, offset: Vec2::new(0, 0) });
    let ge = w.spawn(g).unwrap();
    let mut cmds = CommandBuffer::new();
    check_attached_to_null(&w, &mut cmds);
    assert_eq!(cmds.len(), 0);
    assert!(w.entry(ge).unwrap().attached_to.is_some());
}

#[test]
fn attached_entity_follows_its_anchor() {
    let mut w = World::new();
    let anchor = w.spawn(placed(100_000, 100_000, 900)).unwrap();
    let mut g = placed(0, 0, 0);
    g.attached_to = Some(AttachedTo { entity: anchor, offset: Vec2::new(10_000, 0) });
    let ge = w.spawn(g).unwrap();
    stick_to_attached(&mut w);
    assert_eq!(
        w.entry(ge).unwrap().transform,
        Some(CTransform { pos: Vec2::new(100_000, 110_000), rot: 900 })
    );
}

fn grabber(x: i64, y: i64) -> Components {
    let mut p = placed(x, y, 900);
    p.player = Some(Player);
    p.input_controlled = Some(InputControlled);
    p.grab_zone = Some(GrabZone { radius: 15_000 });
    p
}

fn loose_gun(x: i64, y: i64) -> Components {
    let mut g = placed(x, y, 0);
    g.gun = Some(Gun { wants_to_shoot: false, fire_delay: 30, cooldown: 0 });
    g.attachable = Some(Attachable);
    g
}

#[test]
fn grab_zone_attaches_a_loose_gun() {
    let mut w = World::new();
    let p = w.spawn(grabber(100_000, 100_000)).unwrap();
    let g = w.spawn(loose_gun(105_000, 100_000)).unwrap();
    let far = w.spawn(loose_gun(130_000, 100_000)).unwrap();
    let mut cmds = CommandBuffer::new();
    attach_to_grab_zone(&w, &mut cmds);
    cmds.apply(&mut w);
    let c = w.entry(g).unwrap();
    assert_eq!(c.attached_to, Some(AttachedTo { entity: p, offset: Vec2::new(0, -5000) }));
    assert!(c.input_controlled.is_some());
    assert_eq!(c.owned_by, Some(OwnedBy { owner: p }));
    assert!(w.entry(far).unwrap().attached_to.is_none());
}

#[test]
fn settle_stage_attaches_gun_to_player() {
    let mut state = State::new(rng());
    let p = state.ecs.spawn(grabber(100_000, 100_000)).unwrap();
    let g = state.ecs.spawn(loose_gun(105_000, 100_000)).unwrap();
    let play = build_play_schedule();
    play.execute_stage(1, &mut state);
    let c = state.ecs.entry(g).unwrap();
    assert_eq!(c.attached_to.unwrap().entity, p);
    assert!(c.input_controlled.is_some());
    assert_eq!(c.owned_by, Some(OwnedBy { owner: p }));
}

#[test]
fn input_steers_controlled_entities() {
    let mut w = World::new();
    let mut s = placed(0, 0, 0);
    s.physics = Some(Physics { vel: Vec2::new(0, 0), rot_vel: 7 });
    s.input_controlled = Some(InputControlled);
    s.player = Some(Player);
    let e = w.spawn(s).unwrap();
    let mut gun = Components::empty();
    gun.gun = Some(Gun { wants_to_shoot: false, fire_delay: 1, cooldown: 0 });
    gun.input_controlled = Some(InputControlled);
    let ge = w.spawn(gun).unwrap();
    let inputs = PlayingInputs { left: true, right: false, up: true, down: false, shoot: true };
    let mut transition = None;
    handle_inputs(&mut w, &inputs, &mut transition);
    let p = w.entry(e).unwrap().physics.unwrap();
    assert_eq!(p.rot_vel, -50);
    assert_eq!(p.vel, Vec2::new(40, 0));
    assert!(w.entry(ge).unwrap().gun.unwrap().wants_to_shoot);
    assert_eq!(transition, None);
}

#[test]
fn shoot_with_no_player_asks_for_game_over() {
    let mut w = World::new();
    let inputs = PlayingInputs { left: false, right: true, up: false, down: true, shoot: true };
    let mut transition = None;
    handle_inputs(&mut w, &inputs, &mut transition);
    assert_eq!(transition, Some(GameMode::GameOver));
    let mut t2 = None;
    title::handle_inputs(&TitleInputs { confirm: true }, &mut t2);
    assert_eq!(t2, Some(GameMode::Playing));
    let mut t3 = None;
    title::handle_inputs(&TitleInputs { confirm: false }, &mut t3);
    assert_eq!(t3, None);
}

#[test]
fn game_over_banner_only_without_players() {
    let mut w = World::new();
    let mut render = Vec::new();
    game_over(&w, &mut render);
    assert_eq!(render.len(), 2);
    match &render[0] {
        DrawCommand::Text { text, size, .. } => {
            assert_eq!(text, "GAME OVER!");
            assert_eq!(*size, 20);
        }
        _ => panic!("expected text"),
    }
    let mut p = placed(0, 0, 0);
    p.player = Some(Player);
    w.spawn(p).unwrap();
    let mut render2 = Vec::new();
    game_over(&w, &mut render2);
    assert!(render2.is_empty());
}

#[test]
fn render_one_drawing_per_drawable() {
    let mut w = World::new();
    w.spawn(rock(1, 2, 3)).unwrap();
    w.spawn(shot(4, 5, None)).unwrap();
    let mut ship = placed(6, 7, 8);
    ship.player = Some(Player);
    w.spawn(ship).unwrap();
    w.spawn(loose_gun(9, 10)).unwrap();
    w.spawn(Components::empty()).unwrap();
    let mut render = Vec::new();
    let mut r = rng();
    entity_render(&w, &mut r, &mut render);
    assert_eq!(render.len(), 4);
    assert_eq!(render[0], DrawCommand::Asteroid { pos: Vec2::new(1, 2), size: 3, dir: 450 });
    match &render[1] {
        DrawCommand::ColoredSquare { pos, color } => {
            assert_eq!(*pos, Vec2::new(4, 5));
            assert!(color.g >= 10 && color.g < 255);
        }
        _ => panic!("expected square"),
    }
    assert_eq!(render[2], DrawCommand::Ship { pos: Vec2::new(6, 7), dir: 8 });
    assert_eq!(render[3], DrawCommand::Gun { pos: Vec2::new(9, 10), dir: 0 });
}

#[test]
fn spawners_fire_when_timer_runs_out() {
    let mut r = rng();
    let mut cmds = CommandBuffer::new();
    let mut at = AsteroidSpawnTimer::new(2);
    spawn_asteroids(&mut at, &mut r, &mut cmds);
    assert_eq!(cmds.len(), 0);
    spawn_asteroids(&mut at, &mut r, &mut cmds);
    assert_eq!(cmds.len(), 1);
    assert_eq!(at.get_countdown(), 2);
    let mut et = EnemySpawnTimer::new(1);
    spawn_enemies(&mut et, &mut r, &mut cmds);
    let mut gt = GunSpawnTimer::new(1);
    spawn_guns(&mut gt, &mut r, &mut cmds);
    assert_eq!(cmds.len(), 3);
    let mut w = World::new();
    cmds.apply(&mut w);
    for e in w.query(&Filter::has(ComponentKind::Transform)) {
        let c = w.entry(e).unwrap();
        let p = c.transform.unwrap().pos;
        assert!(p.x <= 0 || p.x >= FIELD_WIDTH || p.y <= 0 || p.y >= 160_000);
        assert!(c.capture.is_some());
    }
    let rocks = w.query(&Filter::has(ComponentKind::Asteroid));
    let size = w.entry(rocks[0]).unwrap().asteroid.unwrap().size;
    assert!(10 <= size && size < 30);
    let guns_found = w.query(&Filter::has(ComponentKind::Gun).and(Filter::has(ComponentKind::Attachable)));
    assert_eq!(guns_found.len(), 1);
    assert_eq!(w.query(&Filter::has(ComponentKind::Enemy)).len(), 1);
}

#[test]
fn random_points_vary() {
    let mut r = rng();
    let first = get_random_pos_in_play_area(&mut r);
    let mut differs = false;
    for _ in 0..20 {
        let p = get_random_pos_in_play_area(&mut r);
        assert!(0 <= p.x && p.x < FIELD_WIDTH && 0 <= p.y && p.y < 160_000);
        if p != first {
            differs = true;
        }
    }
    assert!(differs);
}

#[test]
fn enemy_picks_target_and_goal_then_heads_for_free_gun() {
    let mut w = World::new();
    let player = w.spawn(grabber(10_000, 10_000)).unwrap();
    let mut en = placed(100_000, 100_000, 0);
    en.enemy = Some(Enemy);
    en.physics = Some(Physics { vel: Vec2::new(0, 0), rot_vel: 0 });
    let e = w.spawn(en).unwrap();
    let mut r = rng();
    let mut cmds = CommandBuffer::new();
    enemy_behaviour(&mut w, &mut r, &mut cmds);
    cmds.apply(&mut w);
    let c = w.entry(e).unwrap();
    assert_eq!(c.look_at, Some(LookAt { entity: player }));
    assert!(c.wants_to_go_to.is_some());
    // now a free gun appears to the right: the goal moves there, thrust follows
    w.spawn(loose_gun(150_000, 100_000)).unwrap();
    let mut cmds = CommandBuffer::new();
    enemy_behaviour(&mut w, &mut r, &mut cmds);
    let c = w.entry(e).unwrap();
    assert_eq!(c.wants_to_go_to, Some(WantsToGoTo { pos: Vec2::new(150_000, 100_000) }));
    assert_eq!(c.physics.unwrap().vel, Vec2::new(500, 0));
}

#[test]
fn enemy_drops_goal_on_arrival() {
    let mut w = World::new();
    let mut en = placed(100_000, 100_000, 0);
    en.enemy = Some(Enemy);
    en.wants_to_go_to = Some(WantsToGoTo { pos: Vec2::new(104_000, 100_000) });
    let e = w.spawn(en).unwrap();
    let mut r = rng();
    let mut cmds = CommandBuffer::new();
    enemy_behaviour(&mut w, &mut r, &mut cmds);
    cmds.apply(&mut w);
    assert!(w.entry(e).unwrap().wants_to_go_to.is_none());
}

#[test]
fn enemy_turns_toward_its_target() {
    let mut w = World::new();
    let target = w.spawn(placed(100_000, 150_000, 0)).unwrap();
    let mut en = placed(100_000, 100_000, 0);
    en.enemy = Some(Enemy);
    en.physics = Some(Physics { vel: Vec2::new(0, 0), rot_vel: 0 });
    en.look_at = Some(LookAt { entity: target });
    let e = w.spawn(en).unwrap();
    look_at(&mut w);
    // a quarter turn to the left: 900 tenths of a degree at gain 0.1745
    assert_eq!(w.entry(e).unwrap().physics.unwrap().rot_vel, 157);
}

#[test]
fn schedules_have_their_stages() {
    assert_eq!(build_title_schedule().stages.len(), 1);
    let play = build_play_schedule();
    assert_eq!(play.stages.len(), 4);
    assert_eq!(play.stages[1].len(), 9);
    assert_eq!(play.stages[2].len(), 6);
    assert_eq!(play.stages[3].len(), 3);
}

#[test]
fn starting_a_game_spawns_player_and_gun() {
    let mut state = State::new(rng());
    assert_eq!(state.resources.game_mode, GameMode::Title);
    state.resources.transition_to = Some(GameMode::Playing);
    apply_transition(&mut state);
    assert_eq!(state.resources.game_mode, GameMode::Playing);
    assert_eq!(state.resources.transition_to, None);
    let players = state.ecs.query(&Filter::has(ComponentKind::Player));
    assert_eq!(players.len(), 1);
    let gun = state.ecs.query(&Filter::has(ComponentKind::Gun));
    assert_eq!(gun.len(), 1);
    let gc = state.ecs.entry(gun[0]).unwrap();
    assert_eq!(gc.owned_by, Some(OwnedBy { owner: players[0] }));
    // a full step of play runs and draws the ship and the gun
    let title = build_title_schedule();
    let play = build_play_schedule();
    step(&mut state, &title, &play);
    assert!(state.resources.render.len() >= 2);
    let gc = state.ecs.entry(gun[0]).unwrap();
    assert_eq!(gc.attached_to.unwrap().entity, players[0]);
    state.resources.transition_to = Some(GameMode::Title);
    apply_transition(&mut state);
    assert_eq!(state.ecs.query(&Filter::has(ComponentKind::Transform)).len(), 0);
}

#[test]
fn new_state_starts_with_nothing_pending() {
    let state = State::new(rng());
    assert!(state.running);
    assert!(state.resources.messages.is_empty());
    assert!(state.resources.render.is_empty());
    assert!(state.resources.audio.is_empty());
    assert!(!state.resources.inputs.shoot && !state.resources.inputs.left);
    assert!(!state.resources.title_inputs.confirm);
    assert_eq!(state.resources.asteroid_spawn_timer.get_countdown(), 500);
}

#[test]
fn two_bullets_on_one_asteroid_split_it_once() {
    let mut w = World::new();
    let a = w.spawn(rock(50_000, 50_000, 10)).unwrap();
    let b1 = w.spawn(shot(51_000, 50_000, None)).unwrap();
    let b2 = w.spawn(shot(49_000, 50_000, None)).unwrap();
    let mut cmds = CommandBuffer::new();
    let mut audio = Vec::new();
    let mut r = rng();
    collision(&mut w, &mut cmds, &mut audio, &mut r);
    cmds.apply(&mut w);
    assert!(!w.contains(a));
    assert!(!w.contains(b1));
    assert!(!w.contains(b2));
    let rocks = w.query(&Filter::has(ComponentKind::Asteroid));
    assert_eq!(rocks.len(), 2);
    for e in rocks {
        assert_eq!(w.entry(e).unwrap().asteroid, Some(Asteroid { size: 5 }));
    }
}
