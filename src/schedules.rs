use vstd::prelude::*;

use crate::commands::{apply_all, Command, CommandBuffer};
use crate::components::Components;
use crate::messages::{aged, message_views, step_alerts};
use crate::state::{GameMode, State};
use crate::systems::attached::{attached_removals, grabs, owner_removals, stuck};
use crate::systems::collision::{collision_queued, explosions, scores_credited};
use crate::systems::enemy::{enemy_queued, free_guns, looked, pursue};
use crate::systems::input::{no_players, steered};
use crate::systems::physics::{age, capture_releases, expiries, integrate, wrap_row};
use crate::systems::render::{banner_drawn, drawn};
use crate::systems::shooting::{gun_step, shots};
use crate::systems::spawning::{
    asteroid_spawned, enemy_spawned, fires, gun_spawned, spawned, timer_fired,
};
use crate::world::{lemma_mapped_same_entities, rows_mapped, same_entities};
use crate::systems::attached::{
    attach_to_grab_zone, check_attached_to_null, check_owned_by_null, stick_to_attached,
};
use crate::systems::collision::collision;
use crate::systems::enemy::{enemy_behaviour, look_at};
use crate::systems::input::handle_inputs;
use crate::systems::title;
use crate::systems::physics::{capture_in_play_field, physics, step_lifespan, world_wrap};
use crate::systems::render::{entity_render, game_over};
use crate::systems::shooting::guns;
use crate::systems::spawning::{spawn_asteroids, spawn_enemies, spawn_guns};

verus! {

/// The systems a schedule can run.
#[derive(Clone, Copy, PartialEq, Eq, Structural, Debug)]
pub enum SystemId {
    TitleInput,
    Input,
    EnemyBehaviour,
    LookAt,
    Physics,
    CheckAttachedToNull,
    CheckOwnedByNull,
    StickToAttached,
    Guns,
    Collision,
    AttachToGrabZone,
    SpawnEnemies,
    SpawnAsteroids,
    SpawnGuns,
    WorldWrap,
    CaptureInPlayField,
    StepLifespan,
    GameOver,
    EntityRender,
    StepAlerts,
}

/// Systems grouped into stages. The systems of a stage run in order and
/// queue their structural edits in one buffer; at the barrier after the
/// stage the buffer is applied, so those edits are seen only by later
/// stages.
pub struct Schedule {
    pub stages: Vec<Vec<SystemId>>,
}

impl Schedule {
    /// The stages, as sequences.
    pub open spec fn stage_seqs(&self) -> Seq<Seq<SystemId>> {
        self.stages@.map_values(|s: Vec<SystemId>| s@)
    }
}

/// The title pipeline: one stage that reads the title input.
pub open spec fn title_stages() -> Seq<Seq<SystemId>> {
    seq![seq![SystemId::TitleInput]]
}

/// The play pipeline: input; behaviour, motion and interaction; spawning
/// and bookkeeping; presentation and message expiry.
pub open spec fn play_stages() -> Seq<Seq<SystemId>> {
    seq![
        seq![SystemId::Input],
        seq![
            SystemId::EnemyBehaviour,
            SystemId::LookAt,
            SystemId::Physics,
            SystemId::CheckAttachedToNull,
            SystemId::CheckOwnedByNull,
            SystemId::StickToAttached,
            SystemId::Guns,
            SystemId::Collision,
            SystemId::AttachToGrabZone,
        ],
        seq![
            SystemId::SpawnEnemies,
            SystemId::SpawnAsteroids,
            SystemId::SpawnGuns,
            SystemId::WorldWrap,
            SystemId::CaptureInPlayField,
            SystemId::StepLifespan,
        ],
        seq![SystemId::GameOver, SystemId::EntityRender, SystemId::StepAlerts],
    ]
}

pub fn build_title_schedule() -> (r: Schedule)
    ensures
        r.stage_seqs() == title_stages(),
{
    let stages = vec![vec![SystemId::TitleInput]];
    let r = Schedule { stages };
    assert(r.stage_seqs()[0] =~= title_stages()[0]);
    assert(r.stage_seqs() =~= title_stages());
    r
}

pub fn build_play_schedule() -> (r: Schedule)
    ensures
        r.stage_seqs() == play_stages(),
{
    let stages = vec![
        vec![SystemId::Input],
        vec![
            SystemId::EnemyBehaviour,
            SystemId::LookAt,
            SystemId::Physics,
            SystemId::CheckAttachedToNull,
            SystemId::CheckOwnedByNull,
            SystemId::StickToAttached,
            SystemId::Guns,
            SystemId::Collision,
            SystemId::AttachToGrabZone,
        ],
        vec![
            SystemId::SpawnEnemies,
            SystemId::SpawnAsteroids,
            SystemId::SpawnGuns,
            SystemId::WorldWrap,
            SystemId::CaptureInPlayField,
            SystemId::StepLifespan,
        ],
        vec![SystemId::GameOver, SystemId::EntityRender, SystemId::StepAlerts],
    ];
    let r = Schedule { stages };
    assert(r.stage_seqs()[0] =~= play_stages()[0]);
    assert(r.stage_seqs()[1] =~= play_stages()[1]);
    assert(r.stage_seqs()[2] =~= play_stages()[2]);
    assert(r.stage_seqs()[3] =~= play_stages()[3]);
    assert(r.stage_seqs() =~= play_stages());
    r
}

/// The resources that a system leaves alone. The running flag, the inputs
/// and the game mode are never changed by a system; each flag says whether
/// the generator, the timers, the mode request, the drawings, the sounds
/// or the messages are kept too.
pub open spec fn keeps(
    s: State,
    t: State,
    rng: bool,
    timers: bool,
    transition: bool,
    render: bool,
    audio: bool,
    messages: bool,
) -> bool {
    &&& t.running == s.running
    &&& t.resources.inputs == s.resources.inputs
    &&& t.resources.title_inputs == s.resources.title_inputs
    &&& t.resources.game_mode == s.resources.game_mode
    &&& rng ==> t.resources.rng == s.resources.rng
    &&& timers ==> t.resources.asteroid_spawn_timer == s.resources.asteroid_spawn_timer
        && t.resources.gun_spawn_timer == s.resources.gun_spawn_timer
        && t.resources.enemy_spawn_timer == s.resources.enemy_spawn_timer
    &&& transition ==> t.resources.transition_to == s.resources.transition_to
    &&& render ==> t.resources.render == s.resources.render
    &&& audio ==> t.resources.audio == s.resources.audio
    &&& messages ==> t.resources.messages == s.resources.messages
}

/// Running system `id` took state `s` to state `t`, and its queue of
/// structural edits from `c` to `d`: each case is that system's own
/// contract.
pub open spec fn ran(id: SystemId, s: State, t: State, c: Seq<Command>, d: Seq<Command>) -> bool {
    let w = s.ecs@;
    let v = t.ecs@;
    let n = w.len() as int;
    match id {
        SystemId::TitleInput => {
            &&& v == w
            &&& d == c
            &&& keeps(s, t, true, true, false, true, true, true)
            &&& t.resources.transition_to == if s.resources.title_inputs.confirm {
                Some(GameMode::Playing)
            } else {
                s.resources.transition_to
            }
        },
        SystemId::Input => {
            &&& rows_mapped(w, v, |x: Components| steered(x, s.resources.inputs))
            &&& d == c
            &&& keeps(s, t, true, true, false, true, true, true)
            &&& t.resources.transition_to == if no_players(w) && s.resources.inputs.shoot {
                Some(GameMode::GameOver)
            } else {
                s.resources.transition_to
            }
        },
        SystemId::EnemyBehaviour => {
            &&& rows_mapped(w, v, |x: Components| pursue(x, free_guns(w, n)))
            &&& enemy_queued(w, v, c, d)
            &&& keeps(s, t, false, true, true, true, true, true)
        },
        SystemId::LookAt => {
            &&& rows_mapped(w, v, |x: Components| looked(w, x))
            &&& d == c
            &&& keeps(s, t, true, true, true, true, true, true)
        },
        SystemId::Physics => {
            &&& rows_mapped(w, v, |x: Components| integrate(x))
            &&& d == c
            &&& keeps(s, t, true, true, true, true, true, true)
        },
        SystemId::CheckAttachedToNull => {
            &&& v == w
            &&& d == c + attached_removals(w, n)
            &&& keeps(s, t, true, true, true, true, true, true)
        },
        SystemId::CheckOwnedByNull => {
            &&& v == w
            &&& d == c + owner_removals(w, n)
            &&& keeps(s, t, true, true, true, true, true, true)
        },
        SystemId::StickToAttached => {
            &&& rows_mapped(w, v, |x: Components| stuck(w, x))
            &&& d == c
            &&& keeps(s, t, true, true, true, true, true, true)
        },
        SystemId::Guns => {
            &&& rows_mapped(w, v, |x: Components| gun_step(x))
            &&& d == c + shots(w, n)
            &&& keeps(s, t, true, true, true, true, true, true)
        },
        SystemId::Collision => {
            &&& v == scores_credited(w)
            &&& collision_queued(w, c, d)
            &&& t.resources.audio@ == s.resources.audio@ + explosions(w)
            &&& keeps(s, t, false, true, true, true, false, true)
        },
        SystemId::AttachToGrabZone => {
            &&& v == w
            &&& d == c + grabs(w, n)
            &&& keeps(s, t, true, true, true, true, true, true)
        },
        SystemId::SpawnEnemies => {
            &&& v == w
            &&& timer_fired(s.resources.enemy_spawn_timer, t.resources.enemy_spawn_timer)
            &&& spawned(fires(s.resources.enemy_spawn_timer), c, d, |x: Components| enemy_spawned(x))
            &&& t.resources.asteroid_spawn_timer == s.resources.asteroid_spawn_timer
            &&& t.resources.gun_spawn_timer == s.resources.gun_spawn_timer
            &&& keeps(s, t, false, false, true, true, true, true)
        },
        SystemId::SpawnAsteroids => {
            &&& v == w
            &&& timer_fired(s.resources.asteroid_spawn_timer, t.resources.asteroid_spawn_timer)
            &&& spawned(
                fires(s.resources.asteroid_spawn_timer),
                c,
                d,
                |x: Components| asteroid_spawned(x),
            )
            &&& t.resources.gun_spawn_timer == s.resources.gun_spawn_timer
            &&& t.resources.enemy_spawn_timer == s.resources.enemy_spawn_timer
            &&& keeps(s, t, false, false, true, true, true, true)
        },
        SystemId::SpawnGuns => {
            &&& v == w
            &&& timer_fired(s.resources.gun_spawn_timer, t.resources.gun_spawn_timer)
            &&& spawned(fires(s.resources.gun_spawn_timer), c, d, |x: Components| gun_spawned(x))
            &&& t.resources.asteroid_spawn_timer == s.resources.asteroid_spawn_timer
            &&& t.resources.enemy_spawn_timer == s.resources.enemy_spawn_timer
            &&& keeps(s, t, false, false, true, true, true, true)
        },
        SystemId::WorldWrap => {
            &&& rows_mapped(w, v, |x: Components| wrap_row(x))
            &&& d == c
            &&& keeps(s, t, true, true, true, true, true, true)
        },
        SystemId::CaptureInPlayField => {
            &&& v == w
            &&& d == c + capture_releases(w, n)
            &&& keeps(s, t, true, true, true, true, true, true)
        },
        SystemId::StepLifespan => {
            &&& rows_mapped(w, v, |x: Components| age(x))
            &&& d == c + expiries(w, n)
            &&& keeps(s, t, true, true, true, true, true, true)
        },
        SystemId::GameOver => {
            &&& v == w
            &&& d == c
            &&& banner_drawn(w, s.resources.render@, t.resources.render@)
            &&& keeps(s, t, true, true, true, false, true, true)
        },
        SystemId::EntityRender => {
            &&& v == w
            &&& d == c
            &&& drawn(w, s.resources.render@, t.resources.render@)
            &&& keeps(s, t, false, true, true, false, true, true)
        },
        SystemId::StepAlerts => {
            &&& v == w
            &&& d == c
            &&& message_views(t.resources.messages@) == aged(message_views(s.resources.messages@))
            &&& keeps(s, t, true, true, true, true, true, false)
        },
    }
}

/// Runs one system on the state, queueing its structural edits in `cmds`.
pub fn run_system(id: SystemId, state: &mut State, cmds: &mut CommandBuffer)
    requires
        old(state).wf(),
        old(cmds).wf(),
    ensures
        final(state).wf(),
        final(cmds).wf(),
        ran(id, *old(state), *final(state), old(cmds)@, final(cmds)@),
        same_entities(old(state).ecs@, final(state).ecs@),
{
    let ghost before = state.ecs@;
    let res = &mut state.resources;
    match id {
        SystemId::TitleInput => title::handle_inputs(&res.title_inputs, &mut res.transition_to),
        SystemId::Input => handle_inputs(&mut state.ecs, &res.inputs, &mut res.transition_to),
        SystemId::EnemyBehaviour => enemy_behaviour(&mut state.ecs, &mut res.rng, cmds),
        SystemId::LookAt => look_at(&mut state.ecs),
        SystemId::Physics => physics(&mut state.ecs),
        SystemId::CheckAttachedToNull => check_attached_to_null(&state.ecs, cmds),
        SystemId::CheckOwnedByNull => check_owned_by_null(&state.ecs, cmds),
        SystemId::StickToAttached => stick_to_attached(&mut state.ecs),
        SystemId::Guns => guns(&mut state.ecs, cmds),
        SystemId::Collision => collision(&mut state.ecs, cmds, &mut res.audio, &mut res.rng),
        SystemId::AttachToGrabZone => attach_to_grab_zone(&state.ecs, cmds),
        SystemId::SpawnEnemies => spawn_enemies(&mut res.enemy_spawn_timer, &mut res.rng, cmds),
        SystemId::SpawnAsteroids => spawn_asteroids(&mut res.asteroid_spawn_timer, &mut res.rng, cmds),
        SystemId::SpawnGuns => spawn_guns(&mut res.gun_spawn_timer, &mut res.rng, cmds),
        SystemId::WorldWrap => world_wrap(&mut state.ecs),
        SystemId::CaptureInPlayField => capture_in_play_field(&state.ecs, cmds),
        SystemId::StepLifespan => step_lifespan(&mut state.ecs, cmds),
        SystemId::GameOver => game_over(&state.ecs, &mut res.render),
        SystemId::EntityRender => entity_render(&state.ecs, &mut res.rng, &mut res.render),
        SystemId::StepAlerts => step_alerts(&mut res.messages),
    }
    proof {
        let after = state.ecs@;
        match id {
            SystemId::Input => lemma_mapped_same_entities(
                before,
                after,
                |c: Components| steered(c, old(state).resources.inputs),
            ),
            SystemId::EnemyBehaviour => lemma_mapped_same_entities(
                before,
                after,
                |c: Components| pursue(c, free_guns(before, before.len() as int)),
            ),
            SystemId::LookAt => lemma_mapped_same_entities(
                before,
                after,
                |c: Components| looked(before, c),
            ),
            SystemId::Physics => lemma_mapped_same_entities(
                before,
                after,
                |c: Components| integrate(c),
            ),
            SystemId::StickToAttached => lemma_mapped_same_entities(
                before,
                after,
                |c: Components| stuck(before, c),
            ),
            SystemId::Guns => lemma_mapped_same_entities(before, after, |c: Components| gun_step(c)),
            SystemId::WorldWrap => lemma_mapped_same_entities(
                before,
                after,
                |c: Components| wrap_row(c),
            ),
            SystemId::StepLifespan => lemma_mapped_same_entities(before, after, |c: Components| age(c)),
            _ => {},
        }
    }
}

/// The states `ss` and queues `cs` trace the systems `ids` run one after
/// another, each adding to the queue left by the one before, starting
/// from an empty queue.
pub open spec fn chain(ids: Seq<SystemId>, ss: Seq<State>, cs: Seq<Seq<Command>>) -> bool {
    &&& ss.len() == ids.len() + 1
    &&& cs.len() == ids.len() + 1
    &&& cs[0] == Seq::<Command>::empty()
    &&& forall|k: int|
        0 <= k < ids.len() ==> #[trigger] ran(ids[k], ss[k], ss[k + 1], cs[k], cs[k + 1])
}

/// The stage `ids` took `s` to `t` by way of the trace `ss`, `cs`: its
/// systems ran in order, changing component values only, and then the
/// barrier applied all that they queued, first to last.
pub open spec fn stage_witness(
    ids: Seq<SystemId>,
    s: State,
    t: State,
    ss: Seq<State>,
    cs: Seq<Seq<Command>>,
) -> bool {
    &&& chain(ids, ss, cs)
    &&& ss[0] == s
    &&& same_entities(s.ecs@, ss.last().ecs@)
    &&& t.ecs@ == apply_all(ss.last().ecs@, cs.last())
    &&& t.resources == ss.last().resources
    &&& t.running == ss.last().running
}

/// Running the stage `ids` on `s` can give `t`.
pub open spec fn stage_effect(ids: Seq<SystemId>, s: State, t: State) -> bool {
    exists|ss: Seq<State>, cs: Seq<Seq<Command>>| #[trigger] stage_witness(ids, s, t, ss, cs)
}

/// The stages ran in order from `s` to `t` through the states `ss`.
pub open spec fn schedule_witness(
    stages: Seq<Seq<SystemId>>,
    s: State,
    t: State,
    ss: Seq<State>,
) -> bool {
    &&& ss.len() == stages.len() + 1
    &&& ss[0] == s
    &&& ss.last() == t
    &&& forall|k: int|
        0 <= k < stages.len() ==> #[trigger] stage_effect(stages[k], ss[k], ss[k + 1])
}

/// Running the stages on `s` can give `t`.
pub open spec fn schedule_effect(stages: Seq<Seq<SystemId>>, s: State, t: State) -> bool {
    exists|ss: Seq<State>| #[trigger] schedule_witness(stages, s, t, ss)
}

impl Schedule {
    /// Runs the systems of one stage in order, then applies the edits they
    /// queued (the barrier).
    pub fn execute_stage(&self, k: usize, state: &mut State)
        requires
            k < self.stages@.len(),
            old(state).wf(),
        ensures
            final(state).wf(),
            stage_effect(self.stage_seqs()[k as int], *old(state), *final(state)),
    {
        let stage = &self.stages[k];
        let ghost ids = stage@;
        assert(ids == self.stage_seqs()[k as int]);
        let mut cmds = CommandBuffer::new();
        let ghost mut ss: Seq<State> = seq![*state];
        let ghost mut cs: Seq<Seq<Command>> = seq![cmds@];
        let mut i: usize = 0;
        while i < stage.len()
            invariant
                state.wf(),
                cmds.wf(),
                i <= ids.len(),
                ids == stage@,
                same_entities(old(state).ecs@, state.ecs@),
                chain(ids.take(i as int), ss, cs),
                ss[0] == *old(state),
                ss.last() == *state,
                cs.last() == cmds@,
            decreases ids.len() - i,
        {
            run_system(stage[i], state, &mut cmds);
            proof {
                let ss2 = ss.push(*state);
                let cs2 = cs.push(cmds@);
                let ids2 = ids.take(i + 1);
                assert forall|j: int| 0 <= j < ids2.len() implies #[trigger] ran(
                    ids2[j],
                    ss2[j],
                    ss2[j + 1],
                    cs2[j],
                    cs2[j + 1],
                ) by {
                    if j < i {
                        assert(ids2[j] == ids.take(i as int)[j]);
                        assert(ran(ids.take(i as int)[j], ss[j], ss[j + 1], cs[j], cs[j + 1]));
                    }
                }
                ss = ss2;
                cs = cs2;
            }
            i = i + 1;
        }
        cmds.apply(&mut state.ecs);
        assert(ids.take(ids.len() as int) == ids);
        assert(stage_witness(ids, *old(state), *state, ss, cs));
    }

    /// Runs every stage in order, each followed by its barrier.
    pub fn execute(&self, state: &mut State)
        requires
            old(state).wf(),
        ensures
            final(state).wf(),
            schedule_effect(self.stage_seqs(), *old(state), *final(state)),
    {
        let ghost mut ss: Seq<State> = seq![*state];
        let mut k: usize = 0;
        while k < self.stages.len()
            invariant
                state.wf(),
                k <= self.stages@.len(),
                ss.len() == k + 1,
                ss[0] == *old(state),
                ss.last() == *state,
                forall|j: int|
                    0 <= j < k ==> #[trigger] stage_effect(self.stage_seqs()[j], ss[j], ss[j + 1]),
            decreases self.stages@.len() - k,
        {
            self.execute_stage(k, state);
            proof {
                let ss2 = ss.push(*state);
                assert forall|j: int| 0 <= j < k + 1 implies #[trigger] stage_effect(
                    self.stage_seqs()[j],
                    ss2[j],
                    ss2[j + 1],
                ) by {
                    if j < k {
                        assert(ss2[j] == ss[j] && ss2[j + 1] == ss[j + 1]);
                    }
                }
                ss = ss2;
            }
            k = k + 1;
        }
        assert(schedule_witness(self.stage_seqs(), *old(state), *state, ss));
    }
}

/// `c` is `s` with the pending drawings cleared and nothing else changed.
pub open spec fn render_cleared(s: State, c: State) -> bool {
    &&& c.ecs@ == s.ecs@
    &&& c.running == s.running
    &&& c.resources.render@ == Seq::<crate::rendering::DrawCommand>::empty()
    &&& c.resources.rng == s.resources.rng
    &&& c.resources.asteroid_spawn_timer == s.resources.asteroid_spawn_timer
    &&& c.resources.gun_spawn_timer == s.resources.gun_spawn_timer
    &&& c.resources.enemy_spawn_timer == s.resources.enemy_spawn_timer
    &&& c.resources.inputs == s.resources.inputs
    &&& c.resources.title_inputs == s.resources.title_inputs
    &&& c.resources.audio == s.resources.audio
    &&& c.resources.messages == s.resources.messages
    &&& c.resources.game_mode == s.resources.game_mode
    &&& c.resources.transition_to == s.resources.transition_to
}

/// One simulation step: clears the pending drawings, then runs the title
/// pipeline on the title screen and the play pipeline otherwise.
pub fn step(state: &mut State, title: &Schedule, play: &Schedule)
    requires
        old(state).wf(),
    ensures
        final(state).wf(),
        exists|c: State|
            #[trigger] render_cleared(*old(state), c) && schedule_effect(
                if old(state).resources.game_mode == GameMode::Title {
                    title.stage_seqs()
                } else {
                    play.stage_seqs()
                },
                c,
                *final(state),
            ),
{
    state.resources.render.clear();
    let ghost c = *state;
    assert(render_cleared(*old(state), c));
    match state.resources.game_mode {
        GameMode::Title => title.execute(state),
        _ => play.execute(state),
    }
}

} // verus!
