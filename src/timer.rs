use vstd::prelude::*;

verus! {

/// A frame counter that counts down from `interval` to zero.
pub struct Timer {
    /// The number of frames between two firings.
    pub interval: u32,
    /// The frames left before the timer fires.
    pub countdown: u32,
}

impl Timer {
    /// A timer that starts full.
    pub fn new(interval: u32) -> (r: Self)
        ensures
            r.interval == interval,
            r.countdown == interval,
    {
        Timer { interval, countdown: interval }
    }
}

/// A timer tagged with the kind of thing it paces, so that several can live
/// side by side as distinct resources.
pub struct TypedTimer<T> {
    timer: Timer,
    _marker: std::marker::PhantomData<T>,
}

impl<T> TypedTimer<T> {
    /// The configured interval.
    pub closed spec fn interval(&self) -> u32 {
        self.timer.interval
    }

    /// The frames left before the timer fires.
    pub closed spec fn countdown(&self) -> u32 {
        self.timer.countdown
    }

    pub fn new(spawn_interval: u32) -> (r: Self)
        ensures
            r.interval() == spawn_interval,
            r.countdown() == spawn_interval,
    {
        TypedTimer { timer: Timer::new(spawn_interval), _marker: std::marker::PhantomData }
    }

    pub fn get_countdown(&self) -> (r: u32)
        ensures
            r == self.countdown(),
    {
        self.timer.countdown
    }

    /// Refills the countdown to the interval.
    pub fn reset(&mut self)
        ensures
            final(self).interval() == old(self).interval(),
            final(self).countdown() == old(self).interval(),
    {
        self.timer.countdown = self.timer.interval;
    }

    /// Counts one frame down, stopping at zero.
    pub fn step(&mut self)
        ensures
            final(self).interval() == old(self).interval(),
            final(self).countdown() == if old(self).countdown() > 0 {
                (old(self).countdown() - 1) as u32
            } else {
                0
            },
    {
        if self.timer.countdown > 0 {
            self.timer.countdown = self.timer.countdown - 1;
        }
    }
}

/// Marker for the timer that paces asteroid spawning.
pub struct ForAsteroidSpawning;

/// Marker for the timer that paces gun spawning.
pub struct ForGunSpawning;

/// Marker for the timer that paces enemy spawning.
pub struct ForEnemySpawning;

pub type AsteroidSpawnTimer = TypedTimer<ForAsteroidSpawning>;

pub type GunSpawnTimer = TypedTimer<ForGunSpawning>;

pub type EnemySpawnTimer = TypedTimer<ForEnemySpawning>;

} // verus!
