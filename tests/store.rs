use ecstroids::commands::{Command, CommandBuffer};
use ecstroids::components::{
    Asteroid, Bullet, CTransform, Component, ComponentKind, Components, Entity, Player,
};
use ecstroids::geom::Vec2;
use ecstroids::messages::{step_alerts, ExpiringMessage};
use ecstroids::timer::{AsteroidSpawnTimer, Timer};
use ecstroids::world::{Filter, World};

fn at(x: i64, y: i64) -> Components {
    let mut c = Components::empty();
    c.transform = Some(CTransform { pos: Vec2::new(x, y), rot: 0 });
    c
}

#[test]
fn timer_counts_down_and_resets() {
    let t = Timer::new(3);
    assert_eq!(t.interval, 3);
    assert_eq!(t.countdown, 3);
    let mut tt = AsteroidSpawnTimer::new(2);
    assert_eq!(tt.get_countdown(), 2);
    tt.step();
    assert_eq!(tt.get_countdown(), 1);
    tt.step();
    assert_eq!(tt.get_countdown(), 0);
    tt.step();
    assert_eq!(tt.get_countdown(), 0);
    tt.reset();
    assert_eq!(tt.get_countdown(), 2);
}

#[test]
fn spawn_and_lookup() {
    let mut w = World::new();
    let e = w.spawn(at(5, 6)).unwrap();
    assert!(w.contains(e));
    let c = w.entry(e).unwrap();
    assert_eq!(c.transform.unwrap().pos, Vec2::new(5, 6));
    assert!(c.physics.is_none());
}

#[test]
fn stale_handle_is_not_found_after_reuse() {
    let mut w = World::new();
    let e1 = w.spawn(at(1, 1)).unwrap();
    w.despawn(e1);
    assert!(!w.contains(e1));
    assert!(w.entry(e1).is_none());
    let e2 = w.spawn(at(2, 2)).unwrap();
    assert_eq!(e2.index, e1.index);
    assert_eq!(e2.generation, e1.generation + 1);
    assert!(w.entry(e1).is_none());
    assert!(w.entry(e2).is_some());
    assert_eq!(w.len(), 1);
}

#[test]
fn unknown_entity_is_not_found() {
    let w = World::new();
    assert!(w.entry(Entity { index: 3, generation: 0 }).is_none());
    assert!(!w.contains(Entity { index: 0, generation: 0 }));
}

#[test]
fn insert_and_remove_components() {
    let mut w = World::new();
    let e = w.spawn(at(0, 0)).unwrap();
    w.insert(e, Component::Asteroid(Asteroid { size: 4 }));
    assert_eq!(w.entry(e).unwrap().asteroid, Some(Asteroid { size: 4 }));
    w.insert(e, Component::Asteroid(Asteroid { size: 9 }));
    assert_eq!(w.entry(e).unwrap().asteroid, Some(Asteroid { size: 9 }));
    w.remove(e, ComponentKind::Asteroid);
    assert!(w.entry(e).unwrap().asteroid.is_none());
    // on a dead entity both are no-ops
    w.despawn(e);
    w.insert(e, Component::Player(Player));
    assert!(w.entry(e).is_none());
}

#[test]
fn query_filters_by_presence_and_absence() {
    let mut w = World::new();
    let mut a = at(0, 0);
    a.asteroid = Some(Asteroid { size: 3 });
    let ea = w.spawn(a).unwrap();
    let mut b = at(0, 0);
    b.bullet = Some(Bullet);
    let eb = w.spawn(b).unwrap();
    let plain = w.spawn(Components::empty()).unwrap();
    assert_eq!(w.query(&Filter::has(ComponentKind::Asteroid)), vec![ea]);
    assert_eq!(
        w.query(&Filter::has(ComponentKind::Asteroid).or(Filter::has(ComponentKind::Bullet))),
        vec![ea, eb]
    );
    assert_eq!(
        w.query(&Filter::has(ComponentKind::Transform).and(Filter::lacks(ComponentKind::Bullet))),
        vec![ea]
    );
    assert_eq!(w.query(&Filter::lacks(ComponentKind::Transform)), vec![plain]);
    w.despawn(ea);
    assert_eq!(w.query(&Filter::has(ComponentKind::Asteroid)), Vec::<Entity>::new());
}

#[test]
fn commands_wait_for_apply_and_run_in_order() {
    let mut w = World::new();
    let e = w.spawn(at(0, 0)).unwrap();
    let mut cmds = CommandBuffer::new();
    cmds.spawn(at(7, 7));
    cmds.add_component(e, Component::Player(Player));
    cmds.remove_component(e, ComponentKind::Player);
    cmds.add_component(e, Component::Asteroid(Asteroid { size: 2 }));
    assert_eq!(cmds.len(), 4);
    // nothing visible before the barrier
    assert_eq!(w.len(), 1);
    assert!(w.entry(e).unwrap().player.is_none());
    cmds.apply(&mut w);
    assert_eq!(cmds.len(), 0);
    assert_eq!(w.len(), 2);
    let c = w.entry(e).unwrap();
    assert!(c.player.is_none());
    assert_eq!(c.asteroid, Some(Asteroid { size: 2 }));
    let spawned = w.query(&Filter::lacks(ComponentKind::Asteroid));
    assert_eq!(spawned.len(), 1);
    assert_eq!(w.entry(spawned[0]).unwrap().transform.unwrap().pos, Vec2::new(7, 7));
}

#[test]
fn edits_on_dead_entities_are_no_ops() {
    let mut w = World::new();
    let e = w.spawn(at(0, 0)).unwrap();
    let mut cmds = CommandBuffer::new();
    cmds.despawn(e);
    cmds.despawn(e);
    cmds.add_component(e, Component::Player(Player));
    cmds.remove_component(e, ComponentKind::Transform);
    cmds.apply(&mut w);
    assert!(!w.contains(e));
    let again = w.spawn(Components::empty()).unwrap();
    assert!(w.entry(again).unwrap().player.is_none());
    assert!(matches!(Command::Despawn(e), Command::Despawn(_)));
}

#[test]
fn append_keeps_registration_order() {
    let mut w = World::new();
    let e = w.spawn(at(0, 0)).unwrap();
    let mut first = CommandBuffer::new();
    first.add_component(e, Component::Asteroid(Asteroid { size: 1 }));
    let mut second = CommandBuffer::new();
    second.add_component(e, Component::Asteroid(Asteroid { size: 2 }));
    first.append(&second);
    first.apply(&mut w);
    assert_eq!(w.entry(e).unwrap().asteroid, Some(Asteroid { size: 2 }));
}

#[test]
fn clear_despawns_everything() {
    let mut w = World::new();
    let a = w.spawn(at(0, 0)).unwrap();
    let b = w.spawn(at(1, 0)).unwrap();
    w.clear();
    assert!(!w.contains(a));
    assert!(!w.contains(b));
    let c = w.spawn(Components::empty()).unwrap();
    assert_ne!(c, a);
}

#[test]
fn messages_count_down_and_expire() {
    let mut ms = vec![
        ExpiringMessage { text: "a".to_string(), lifetime: 1 },
        ExpiringMessage { text: "b".to_string(), lifetime: 3 },
        ExpiringMessage { text: "c".to_string(), lifetime: 0 },
    ];
    step_alerts(&mut ms);
    assert_eq!(ms.len(), 1);
    assert_eq!(ms[0].text, "b");
    assert_eq!(ms[0].lifetime, 2);
}
