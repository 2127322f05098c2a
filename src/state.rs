use vstd::prelude::*;

use rand::rngs::StdRng;

use crate::audio::AudioCommand;
use crate::components::{
    Entity, AttachedTo, CTransform, Components, GrabZone, Gun, InputControlled, OwnedBy, Physics, Player,
};
use crate::geom::Vec2;
use crate::messages::ExpiringMessage;
use crate::rendering::DrawCommand;
use crate::timer::{AsteroidSpawnTimer, EnemySpawnTimer, GunSpawnTimer};
use crate::world::{alive_in, World};

verus! {

/// Simulation steps per second.
pub const FRAMES_PER_SECOND: u32 = 60;

/// Frames between spawns of asteroids, guns and enemies.
pub const ASTEROID_SPAWN_INTERVAL: u32 = 500;
pub const GUN_SPAWN_INTERVAL: u32 = 100;
pub const ENEMY_SPAWN_INTERVAL: u32 = 2000;

/// Where the player starts, on both axes: 100 pixels.
pub const START_POS: i64 = 100_000;

/// The player's starting drift per step on both axes: one pixel.
pub const START_DRIFT: i64 = 1_000;

/// The player's grab radius: 15 pixels.
pub const START_GRAB_RADIUS: i64 = 15_000;

/// How far the starting gun sits from the player: 10 pixels.
pub const GUN_OFFSET: i64 = 10_000;

/// The three modes of the game.
#[derive(Clone, Copy, PartialEq, Eq, Structural, Debug)]
pub enum GameMode {
    Title,
    Playing,
    GameOver,
}

/// The keys held during play, sampled once per frame.
#[derive(Clone, Copy, PartialEq, Eq, Debug)]
pub struct PlayingInputs {
    pub left: bool,
    pub right: bool,
    pub up: bool,
    pub down: bool,
    pub shoot: bool,
}

/// The keys pressed on the title screen.
#[derive(Clone, Copy, PartialEq, Eq, Debug)]
pub struct TitleInputs {
    pub confirm: bool,
}

/// The singleton values that systems share: one of each, owned by the
/// driver and lent to the systems for a step.
pub struct Resources {
    pub rng: StdRng,
    pub asteroid_spawn_timer: AsteroidSpawnTimer,
    pub gun_spawn_timer: GunSpawnTimer,
    pub enemy_spawn_timer: EnemySpawnTimer,
    pub inputs: PlayingInputs,
    pub title_inputs: TitleInputs,
    /// Drawings for the render layer, cleared by the driver before a step.
    pub render: Vec<DrawCommand>,
    /// Sounds for the audio layer.
    pub audio: Vec<AudioCommand>,
    /// Short messages on screen, each with the frames it has left.
    pub messages: Vec<ExpiringMessage>,
    pub game_mode: GameMode,
    /// A mode change asked for during a step, taken up by the driver.
    pub transition_to: Option<GameMode>,
}

/// The whole simulation: the store and the resources.
pub struct State {
    pub running: bool,
    pub ecs: World,
    pub resources: Resources,
}

impl State {
    pub open spec fn wf(&self) -> bool {
        self.ecs.wf()
    }

    /// A fresh simulation on the title screen, with an empty store, full
    /// spawn timers and nothing queued.
    pub fn new(rng: StdRng) -> (r: State)
        ensures
            r.wf(),
            r.running,
            r.ecs@.len() == 0,
            r.resources.game_mode == GameMode::Title,
            r.resources.transition_to is None,
            r.resources.render@.len() == 0,
            r.resources.audio@.len() == 0,
            r.resources.messages@.len() == 0,
            r.resources.inputs == (PlayingInputs {
                left: false,
                right: false,
                up: false,
                down: false,
                shoot: false,
            }),
            r.resources.title_inputs == (TitleInputs { confirm: false }),
            r.resources.asteroid_spawn_timer.countdown() == ASTEROID_SPAWN_INTERVAL,
            r.resources.asteroid_spawn_timer.interval() == ASTEROID_SPAWN_INTERVAL,
            r.resources.gun_spawn_timer.countdown() == GUN_SPAWN_INTERVAL,
            r.resources.gun_spawn_timer.interval() == GUN_SPAWN_INTERVAL,
            r.resources.enemy_spawn_timer.countdown() == ENEMY_SPAWN_INTERVAL,
            r.resources.enemy_spawn_timer.interval() == ENEMY_SPAWN_INTERVAL,
    {
        State {
            running: true,
            ecs: World::new(),
            resources: Resources {
                rng,
                asteroid_spawn_timer: AsteroidSpawnTimer::new(ASTEROID_SPAWN_INTERVAL),
                gun_spawn_timer: GunSpawnTimer::new(GUN_SPAWN_INTERVAL),
                enemy_spawn_timer: EnemySpawnTimer::new(ENEMY_SPAWN_INTERVAL),
                inputs: PlayingInputs { left: false, right: false, up: false, down: false, shoot: false },
                title_inputs: TitleInputs { confirm: false },
                render: Vec::new(),
                audio: Vec::new(),
                messages: Vec::new(),
                game_mode: GameMode::Title,
                transition_to: None,
            },
        }
    }
}

/// The starting player: at (100, 100) pixels facing down the y axis,
/// drifting, input controlled, with a grab zone of 15 pixels.
pub open spec fn player_bundle() -> Components {
    Components {
        transform: Some(CTransform { pos: Vec2 { x: START_POS, y: START_POS }, rot: 900 }),
        physics: Some(Physics { vel: Vec2 { x: START_DRIFT, y: START_DRIFT }, rot_vel: 30 }),
        input_controlled: Some(InputControlled),
        player: Some(Player),
        grab_zone: Some(GrabZone { radius: START_GRAB_RADIUS }),
        ..Components::empty_spec()
    }
}

/// The starting gun, attached to `player` 10 pixels off and owned by it.
pub open spec fn starting_gun(player: Entity) -> Components {
    Components {
        transform: Some(CTransform { pos: Vec2 { x: START_POS, y: START_POS }, rot: 900 }),
        gun: Some(Gun { wants_to_shoot: false, fire_delay: 10, cooldown: 0 }),
        attached_to: Some(AttachedTo { entity: player, offset: Vec2 { x: GUN_OFFSET, y: 0 } }),
        input_controlled: Some(InputControlled),
        owned_by: Some(OwnedBy { owner: player }),
        ..Components::empty_spec()
    }
}

/// Starts a game: clears the store and spawns the player and its gun.
/// Every entity alive before is gone afterwards.
pub fn init(state: &mut State)
    requires
        old(state).wf(),
    ensures
        final(state).wf(),
        forall|e: Entity| alive_in(old(state).ecs@, e) ==> !alive_in(final(state).ecs@, e),
        old(state).ecs@.len() + 2 <= usize::MAX ==> exists|p: Entity, g: Entity|
            #[trigger] started(final(state).ecs@, p, g),
{
    let ghost before = state.ecs@;
    state.ecs.clear();
    let player = Components {
        transform: Some(CTransform { pos: Vec2 { x: START_POS, y: START_POS }, rot: 900 }),
        physics: Some(Physics { vel: Vec2 { x: START_DRIFT, y: START_DRIFT }, rot_vel: 30 }),
        input_controlled: Some(InputControlled),
        player: Some(Player),
        grab_zone: Some(GrabZone { radius: START_GRAB_RADIUS }),
        ..Components::empty()
    };
    let ghost cleared = state.ecs@;
    let p = state.ecs.spawn(player);
    let ghost s1 = state.ecs@;
    assert forall|e: Entity| alive_in(before, e) implies !alive_in(s1, e) by {
        assert(!alive_in(cleared, e));
        assert(cleared[e.index as int].generation == e.generation);
    }
    if let Some(p) = p {
        let gun = Components {
            transform: Some(CTransform { pos: Vec2 { x: START_POS, y: START_POS }, rot: 900 }),
            gun: Some(Gun { wants_to_shoot: false, fire_delay: 10, cooldown: 0 }),
            attached_to: Some(AttachedTo { entity: p, offset: Vec2 { x: GUN_OFFSET, y: 0 } }),
            input_controlled: Some(InputControlled),
            owned_by: Some(OwnedBy { owner: p }),
            ..Components::empty()
        };
        let g = state.ecs.spawn(gun);
        let ghost s2 = state.ecs@;
        assert forall|e: Entity| alive_in(before, e) implies !alive_in(s2, e) by {
            assert(!alive_in(s1, e));
            assert(cleared[e.index as int].generation == e.generation);
            if e.index < s1.len() {
                assert(s1[e.index as int].generation >= cleared[e.index as int].generation || e.index == p.index);
            }
        }
        if let Some(g) = g {
            assert(g.index != p.index);
            assert(s2[p.index as int] == s1[p.index as int]);
            assert forall|e: Entity| #[trigger] alive_in(s2, e) implies e == p || e == g by {
                if e.index != g.index {
                    assert(s2[e.index as int] == s1[e.index as int]);
                    if e.index != p.index {
                        if e.index < cleared.len() {
                            assert(s1[e.index as int] == cleared[e.index as int]);
                        }
                    }
                }
            }
            assert(started(s2, p, g));
        }
    }
}

/// `p` is a live starting player and `g` a live gun attached to it, and
/// no other entity is alive.
pub open spec fn started(rows: Seq<crate::world::Row>, p: Entity, g: Entity) -> bool {
    &&& alive_in(rows, p)
    &&& alive_in(rows, g)
    &&& forall|e: Entity| #[trigger] alive_in(rows, e) ==> e == p || e == g
    &&& rows[p.index as int].comps == player_bundle()
    &&& rows[g.index as int].comps == starting_gun(p)
}

/// Takes up a requested mode change: entering play starts a new game,
/// returning to the title clears the store, and game over keeps the store
/// as it is. The request is consumed.
pub fn apply_transition(state: &mut State)
    requires
        old(state).wf(),
    ensures
        final(state).wf(),
        final(state).resources.transition_to is None,
        final(state).resources.game_mode == match old(state).resources.transition_to {
            Some(m) => m,
            None => old(state).resources.game_mode,
        },
        old(state).resources.transition_to is None ==> final(state).ecs@ == old(state).ecs@,
        old(state).resources.transition_to == Some(GameMode::GameOver) ==> final(state).ecs@
            == old(state).ecs@,
        old(state).resources.transition_to == Some(GameMode::Title) ==> forall|e: Entity|
            !alive_in(#[trigger] final(state).ecs@, e),
        old(state).resources.transition_to == Some(GameMode::Playing) ==> forall|e: Entity|
            alive_in(old(state).ecs@, e) ==> !alive_in(#[trigger] final(state).ecs@, e),
        old(state).resources.transition_to == Some(GameMode::Playing) && old(state).ecs@.len() + 2
            <= usize::MAX ==> exists|p: Entity, g: Entity| #[trigger] started(final(state).ecs@, p, g),
{
    match state.resources.transition_to {
        Some(m) => {
            match m {
                GameMode::Title => {
                    state.ecs.clear();
                },
                GameMode::Playing => {
                    init(state);
                },
                GameMode::GameOver => {},
            }
            state.resources.game_mode = m;
        },
        None => {},
    }
    state.resources.transition_to = None;
}

} // verus!
