use vstd::prelude::*;

use crate::geom::{Vec2, COORD_LIMIT};

verus! {

/// A handle on a game object: a row of the entity table and the generation
/// that the row had when the handle was issued. A despawned row is reused
/// only under a new generation, so stale handles stop resolving.
#[derive(Clone, Copy, PartialEq, Eq, Structural, Debug, Hash)]
pub struct Entity {
    pub index: usize,
    pub generation: u32,
}

/// Where a thing is and which way it faces.
#[derive(Clone, Copy, PartialEq, Eq, Debug)]
pub struct CTransform {
    pub pos: Vec2,
    /// Heading in tenths of a degree; read modulo a full turn.
    pub rot: u32,
}

/// Tag: a ship steered by the player.
#[derive(Clone, Copy, PartialEq, Eq, Debug)]
pub struct Player;

#[derive(Clone, Copy, PartialEq, Eq, Debug)]
pub struct Gun {
    pub wants_to_shoot: bool,
    /// Frames to wait after a shot.
    pub fire_delay: u32,
    /// Frames left before the next shot.
    pub cooldown: u32,
}

/// Tag: a projectile.
#[derive(Clone, Copy, PartialEq, Eq, Debug)]
pub struct Bullet;

/// Frames left before the entity is removed.
#[derive(Clone, Copy, PartialEq, Eq, Debug)]
pub struct LifeSpan {
    pub frames_left: u32,
}

#[derive(Clone, Copy, PartialEq, Eq, Debug)]
pub struct Asteroid {
    pub size: u32,
}

/// Tag: driven by the player's input.
#[derive(Clone, Copy, PartialEq, Eq, Debug)]
pub struct InputControlled;

/// Tag: exempt from the speed cap.
#[derive(Clone, Copy, PartialEq, Eq, Debug)]
pub struct VelocityUncapped;

#[derive(Clone, Copy, PartialEq, Eq, Debug)]
pub struct Physics {
    /// Displacement per step.
    pub vel: Vec2,
    /// Rotational velocity in degrees; a step turns the heading by a tenth of it.
    pub rot_vel: i32,
}

/// Tag: spawned outside the field; not wrapped until it first enters it.
#[derive(Clone, Copy, PartialEq, Eq, Debug)]
pub struct CaptureInPlayField;

/// Points earned by `owner`.
#[derive(Clone, Copy, PartialEq, Eq, Debug)]
pub struct Score {
    pub owner: Entity,
    pub score: u32,
}

/// Weak reference to the entity that owns this one.
#[derive(Clone, Copy, PartialEq, Eq, Debug)]
pub struct OwnedBy {
    pub owner: Entity,
}

/// Weak reference to an anchor that this entity follows at `offset`, taken
/// in the anchor's frame.
#[derive(Clone, Copy, PartialEq, Eq, Debug)]
pub struct AttachedTo {
    pub entity: Entity,
    pub offset: Vec2,
}

/// Attachables that come within `radius` get attached to this entity.
#[derive(Clone, Copy, PartialEq, Eq, Debug)]
pub struct GrabZone {
    pub radius: i64,
}

/// Tag: a hostile ship.
#[derive(Clone, Copy, PartialEq, Eq, Debug)]
pub struct Enemy;

/// Tag: can be grabbed by a grab zone.
#[derive(Clone, Copy, PartialEq, Eq, Debug)]
pub struct Attachable;

/// Weak reference to the entity that this one turns to face.
#[derive(Clone, Copy, PartialEq, Eq, Debug)]
pub struct LookAt {
    pub entity: Entity,
}

/// A point that this entity heads for.
#[derive(Clone, Copy, PartialEq, Eq, Debug)]
pub struct WantsToGoTo {
    pub pos: Vec2,
}

/// The components of one entity: at most one value of each type. Also used
/// as the bundle that a new entity is spawned with.
#[derive(Clone, Copy, PartialEq, Eq, Debug)]
pub struct Components {
    pub transform: Option<CTransform>,
    pub physics: Option<Physics>,
    pub player: Option<Player>,
    pub gun: Option<Gun>,
    pub bullet: Option<Bullet>,
    pub life_span: Option<LifeSpan>,
    pub asteroid: Option<Asteroid>,
    pub input_controlled: Option<InputControlled>,
    pub velocity_uncapped: Option<VelocityUncapped>,
    pub capture: Option<CaptureInPlayField>,
    pub score: Option<Score>,
    pub owned_by: Option<OwnedBy>,
    pub attached_to: Option<AttachedTo>,
    pub grab_zone: Option<GrabZone>,
    pub enemy: Option<Enemy>,
    pub attachable: Option<Attachable>,
    pub look_at: Option<LookAt>,
    pub wants_to_go_to: Option<WantsToGoTo>,
}

/// A component type.
#[derive(Clone, Copy, PartialEq, Eq, Structural, Debug)]
pub enum ComponentKind {
    Transform,
    Physics,
    Player,
    Gun,
    Bullet,
    LifeSpan,
    Asteroid,
    InputControlled,
    VelocityUncapped,
    CaptureInPlayField,
    Score,
    OwnedBy,
    AttachedTo,
    GrabZone,
    Enemy,
    Attachable,
    LookAt,
    WantsToGoTo,
}

/// A component value of any type.
#[derive(Clone, Copy, PartialEq, Eq, Debug)]
pub enum Component {
    Transform(CTransform),
    Physics(Physics),
    Player(Player),
    Gun(Gun),
    Bullet(Bullet),
    LifeSpan(LifeSpan),
    Asteroid(Asteroid),
    InputControlled(InputControlled),
    VelocityUncapped(VelocityUncapped),
    CaptureInPlayField(CaptureInPlayField),
    Score(Score),
    OwnedBy(OwnedBy),
    AttachedTo(AttachedTo),
    GrabZone(GrabZone),
    Enemy(Enemy),
    Attachable(Attachable),
    LookAt(LookAt),
    WantsToGoTo(WantsToGoTo),
}

impl Component {
    /// The type of this value.
    pub open spec fn kind_spec(self) -> ComponentKind {
        match self {
            Component::Transform(_) => ComponentKind::Transform,
            Component::Physics(_) => ComponentKind::Physics,
            Component::Player(_) => ComponentKind::Player,
            Component::Gun(_) => ComponentKind::Gun,
            Component::Bullet(_) => ComponentKind::Bullet,
            Component::LifeSpan(_) => ComponentKind::LifeSpan,
            Component::Asteroid(_) => ComponentKind::Asteroid,
            Component::InputControlled(_) => ComponentKind::InputControlled,
            Component::VelocityUncapped(_) => ComponentKind::VelocityUncapped,
            Component::CaptureInPlayField(_) => ComponentKind::CaptureInPlayField,
            Component::Score(_) => ComponentKind::Score,
            Component::OwnedBy(_) => ComponentKind::OwnedBy,
            Component::AttachedTo(_) => ComponentKind::AttachedTo,
            Component::GrabZone(_) => ComponentKind::GrabZone,
            Component::Enemy(_) => ComponentKind::Enemy,
            Component::Attachable(_) => ComponentKind::Attachable,
            Component::LookAt(_) => ComponentKind::LookAt,
            Component::WantsToGoTo(_) => ComponentKind::WantsToGoTo,
        }
    }

    /// Vectors and radii lie within the coordinate limit.
    pub open spec fn bounded(self) -> bool {
        match self {
            Component::Transform(t) => t.pos.bounded(),
            Component::Physics(p) => p.vel.bounded(),
            Component::AttachedTo(a) => a.offset.bounded(),
            Component::GrabZone(g) => 0 <= g.radius <= COORD_LIMIT,
            Component::WantsToGoTo(w) => w.pos.bounded(),
            _ => true,
        }
    }
}

impl Components {
    pub open spec fn empty_spec() -> Components {
        Components {
            transform: None,
            physics: None,
            player: None,
            gun: None,
            bullet: None,
            life_span: None,
            asteroid: None,
            input_controlled: None,
            velocity_uncapped: None,
            capture: None,
            score: None,
            owned_by: None,
            attached_to: None,
            grab_zone: None,
            enemy: None,
            attachable: None,
            look_at: None,
            wants_to_go_to: None,
        }
    }

    /// No components at all.
    pub fn empty() -> (r: Components)
        ensures
            r == Components::empty_spec(),
    {
        Components {
            transform: None,
            physics: None,
            player: None,
            gun: None,
            bullet: None,
            life_span: None,
            asteroid: None,
            input_controlled: None,
            velocity_uncapped: None,
            capture: None,
            score: None,
            owned_by: None,
            attached_to: None,
            grab_zone: None,
            enemy: None,
            attachable: None,
            look_at: None,
            wants_to_go_to: None,
        }
    }

    /// Whether a component of type `k` is present.
    pub open spec fn holds(self, k: ComponentKind) -> bool {
        match k {
            ComponentKind::Transform => self.transform.is_some(),
            ComponentKind::Physics => self.physics.is_some(),
            ComponentKind::Player => self.player.is_some(),
            ComponentKind::Gun => self.gun.is_some(),
            ComponentKind::Bullet => self.bullet.is_some(),
            ComponentKind::LifeSpan => self.life_span.is_some(),
            ComponentKind::Asteroid => self.asteroid.is_some(),
            ComponentKind::InputControlled => self.input_controlled.is_some(),
            ComponentKind::VelocityUncapped => self.velocity_uncapped.is_some(),
            ComponentKind::CaptureInPlayField => self.capture.is_some(),
            ComponentKind::Score => self.score.is_some(),
            ComponentKind::OwnedBy => self.owned_by.is_some(),
            ComponentKind::AttachedTo => self.attached_to.is_some(),
            ComponentKind::GrabZone => self.grab_zone.is_some(),
            ComponentKind::Enemy => self.enemy.is_some(),
            ComponentKind::Attachable => self.attachable.is_some(),
            ComponentKind::LookAt => self.look_at.is_some(),
            ComponentKind::WantsToGoTo => self.wants_to_go_to.is_some(),
        }
    }

    pub fn has(&self, k: ComponentKind) -> (r: bool)
        ensures
            r == self.holds(k),
    {
        match k {
            ComponentKind::Transform => self.transform.is_some(),
            ComponentKind::Physics => self.physics.is_some(),
            ComponentKind::Player => self.player.is_some(),
            ComponentKind::Gun => self.gun.is_some(),
            ComponentKind::Bullet => self.bullet.is_some(),
            ComponentKind::LifeSpan => self.life_span.is_some(),
            ComponentKind::Asteroid => self.asteroid.is_some(),
            ComponentKind::InputControlled => self.input_controlled.is_some(),
            ComponentKind::VelocityUncapped => self.velocity_uncapped.is_some(),
            ComponentKind::CaptureInPlayField => self.capture.is_some(),
            ComponentKind::Score => self.score.is_some(),
            ComponentKind::OwnedBy => self.owned_by.is_some(),
            ComponentKind::AttachedTo => self.attached_to.is_some(),
            ComponentKind::GrabZone => self.grab_zone.is_some(),
            ComponentKind::Enemy => self.enemy.is_some(),
            ComponentKind::Attachable => self.attachable.is_some(),
            ComponentKind::LookAt => self.look_at.is_some(),
            ComponentKind::WantsToGoTo => self.wants_to_go_to.is_some(),
        }
    }

    /// These components with `v` added, replacing any value of its type.
    pub open spec fn with(self, v: Component) -> Components {
        match v {
            Component::Transform(x) => Components { transform: Some(x), ..self },
            Component::Physics(x) => Components { physics: Some(x), ..self },
            Component::Player(x) => Components { player: Some(x), ..self },
            Component::Gun(x) => Components { gun: Some(x), ..self },
            Component::Bullet(x) => Components { bullet: Some(x), ..self },
            Component::LifeSpan(x) => Components { life_span: Some(x), ..self },
            Component::Asteroid(x) => Components { asteroid: Some(x), ..self },
            Component::InputControlled(x) => Components { input_controlled: Some(x), ..self },
            Component::VelocityUncapped(x) => Components { velocity_uncapped: Some(x), ..self },
            Component::CaptureInPlayField(x) => Components { capture: Some(x), ..self },
            Component::Score(x) => Components { score: Some(x), ..self },
            Component::OwnedBy(x) => Components { owned_by: Some(x), ..self },
            Component::AttachedTo(x) => Components { attached_to: Some(x), ..self },
            Component::GrabZone(x) => Components { grab_zone: Some(x), ..self },
            Component::Enemy(x) => Components { enemy: Some(x), ..self },
            Component::Attachable(x) => Components { attachable: Some(x), ..self },
            Component::LookAt(x) => Components { look_at: Some(x), ..self },
            Component::WantsToGoTo(x) => Components { wants_to_go_to: Some(x), ..self },
        }
    }

    /// These components with the one of type `k` taken away.
    pub open spec fn without(self, k: ComponentKind) -> Components {
        match k {
            ComponentKind::Transform => Components { transform: None, ..self },
            ComponentKind::Physics => Components { physics: None, ..self },
            ComponentKind::Player => Components { player: None, ..self },
            ComponentKind::Gun => Components { gun: None, ..self },
            ComponentKind::Bullet => Components { bullet: None, ..self },
            ComponentKind::LifeSpan => Components { life_span: None, ..self },
            ComponentKind::Asteroid => Components { asteroid: None, ..self },
            ComponentKind::InputControlled => Components { input_controlled: None, ..self },
            ComponentKind::VelocityUncapped => Components { velocity_uncapped: None, ..self },
            ComponentKind::CaptureInPlayField => Components { capture: None, ..self },
            ComponentKind::Score => Components { score: None, ..self },
            ComponentKind::OwnedBy => Components { owned_by: None, ..self },
            ComponentKind::AttachedTo => Components { attached_to: None, ..self },
            ComponentKind::GrabZone => Components { grab_zone: None, ..self },
            ComponentKind::Enemy => Components { enemy: None, ..self },
            ComponentKind::Attachable => Components { attachable: None, ..self },
            ComponentKind::LookAt => Components { look_at: None, ..self },
            ComponentKind::WantsToGoTo => Components { wants_to_go_to: None, ..self },
        }
    }

    pub fn insert(&mut self, v: Component)
        ensures
            *final(self) == old(self).with(v),
    {
        match v {
            Component::Transform(x) => {
                self.transform = Some(x);
            },
            Component::Physics(x) => {
                self.physics = Some(x);
            },
            Component::Player(x) => {
                self.player = Some(x);
            },
            Component::Gun(x) => {
                self.gun = Some(x);
            },
            Component::Bullet(x) => {
                self.bullet = Some(x);
            },
            Component::LifeSpan(x) => {
                self.life_span = Some(x);
            },
            Component::Asteroid(x) => {
                self.asteroid = Some(x);
            },
            Component::InputControlled(x) => {
                self.input_controlled = Some(x);
            },
            Component::VelocityUncapped(x) => {
                self.velocity_uncapped = Some(x);
            },
            Component::CaptureInPlayField(x) => {
                self.capture = Some(x);
            },
            Component::Score(x) => {
                self.score = Some(x);
            },
            Component::OwnedBy(x) => {
                self.owned_by = Some(x);
            },
            Component::AttachedTo(x) => {
                self.attached_to = Some(x);
            },
            Component::GrabZone(x) => {
                self.grab_zone = Some(x);
            },
            Component::Enemy(x) => {
                self.enemy = Some(x);
            },
            Component::Attachable(x) => {
                self.attachable = Some(x);
            },
            Component::LookAt(x) => {
                self.look_at = Some(x);
            },
            Component::WantsToGoTo(x) => {
                self.wants_to_go_to = Some(x);
            },
        }
    }

    pub fn remove(&mut self, k: ComponentKind)
        ensures
            *final(self) == old(self).without(k),
    {
        match k {
            ComponentKind::Transform => {
                self.transform = None;
            },
            ComponentKind::Physics => {
                self.physics = None;
            },
            ComponentKind::Player => {
                self.player = None;
            },
            ComponentKind::Gun => {
                self.gun = None;
            },
            ComponentKind::Bullet => {
                self.bullet = None;
            },
            ComponentKind::LifeSpan => {
                self.life_span = None;
            },
            ComponentKind::Asteroid => {
                self.asteroid = None;
            },
            ComponentKind::InputControlled => {
                self.input_controlled = None;
            },
            ComponentKind::VelocityUncapped => {
                self.velocity_uncapped = None;
            },
            ComponentKind::CaptureInPlayField => {
                self.capture = None;
            },
            ComponentKind::Score => {
                self.score = None;
            },
            ComponentKind::OwnedBy => {
                self.owned_by = None;
            },
            ComponentKind::AttachedTo => {
                self.attached_to = None;
            },
            ComponentKind::GrabZone => {
                self.grab_zone = None;
            },
            ComponentKind::Enemy => {
                self.enemy = None;
            },
            ComponentKind::Attachable => {
                self.attachable = None;
            },
            ComponentKind::LookAt => {
                self.look_at = None;
            },
            ComponentKind::WantsToGoTo => {
                self.wants_to_go_to = None;
            },
        }
    }

    /// Vectors and radii lie within the coordinate limit.
    pub open spec fn bounded(self) -> bool {
        &&& (self.transform matches Some(t) ==> t.pos.bounded())
        &&& (self.physics matches Some(p) ==> p.vel.bounded())
        &&& (self.attached_to matches Some(a) ==> a.offset.bounded())
        &&& (self.grab_zone matches Some(g) ==> 0 <= g.radius <= COORD_LIMIT)
        &&& (self.wants_to_go_to matches Some(w) ==> w.pos.bounded())
    }
}

pub proof fn lemma_with_bounded(c: Components, v: Component)
    requires
        c.bounded(),
        v.bounded(),
    ensures
        c.with(v).bounded(),
{
}

pub proof fn lemma_without_bounded(c: Components, k: ComponentKind)
    requires
        c.bounded(),
    ensures
        c.without(k).bounded(),
{
}

} // verus!
