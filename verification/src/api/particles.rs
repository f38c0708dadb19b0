//! Particle bookkeeping: how many particles live, how long each lives, and
//! which ones leave after a frame.
//!
//! Positions and velocities are `f32` values, held here by their encodings
//! (see `f32_bits`). Moving a particle is floating-point work done outside
//! this library; a frame's update is that motion followed by
//! [`ParticleSystem::age_and_cull`].
use vstd::prelude::*;

verus! {

/// Frames a particle lives when no lifetime is given.
pub const DEFAULT_LIFETIME: u32 = 30;

/// Largest number of particles of a default system.
pub const DEFAULT_CAPACITY: usize = 256;

/// One particle: position and velocity (`f32` encodings), palette colour,
/// and the frames it has left.
#[derive(Clone, Copy, Debug, PartialEq, Eq, Structural)]
pub struct Particle {
    pub x_bits: u32,
    pub y_bits: u32,
    pub dx_bits: u32,
    pub dy_bits: u32,
    pub color: u8,
    pub life: u32,
}

/// The particle one frame older: one frame less to live, never below zero.
pub open spec fn aged(p: Particle) -> Particle {
    Particle { life: if p.life > 0 { (p.life - 1) as u32 } else { 0 }, ..p }
}

/// What is left of `s` after a frame: each particle that still had frames
/// to live stays, one frame older and in its order; those that had none
/// left are gone. (A particle emitted to live `n` frames is thus counted
/// through `n` updates and leaves at the next.)
pub open spec fn survivors(s: Seq<Particle>) -> Seq<Particle>
    decreases s.len(),
{
    if s.len() == 0 {
        Seq::empty()
    } else {
        let rest = survivors(s.drop_last());
        if s.last().life > 0 {
            rest.push(aged(s.last()))
        } else {
            rest
        }
    }
}

impl Particle {
    pub fn new(x_bits: u32, y_bits: u32, dx_bits: u32, dy_bits: u32, color: u8, lifetime: u32) -> (p: Particle)
        ensures
            p == (Particle { x_bits, y_bits, dx_bits, dy_bits, color, life: lifetime }),
    {
        Particle { x_bits, y_bits, dx_bits, dy_bits, color, life: lifetime }
    }

    /// Whether the particle has frames left.
    pub fn is_alive(&self) -> (r: bool)
        ensures
            r == (self.life > 0),
    {
        self.life > 0
    }

    /// The ageing part of a frame's update: one frame less to live, stopping
    /// at zero.
    pub fn age(&mut self)
        ensures
            *final(self) == aged(*old(self)),
    {
        self.life = self.life.saturating_sub(1);
    }
}

/// A bounded set of particles with a default lifetime for new ones.
pub struct ParticleSystem {
    pub particles: Vec<Particle>,
    max_particles: usize,
    default_lifetime: u32,
}

impl ParticleSystem {
    /// The live particles, in the order they were emitted.
    pub closed spec fn items(&self) -> Seq<Particle> {
        self.particles@
    }

    /// Most particles the system holds at once.
    pub closed spec fn capacity(&self) -> nat {
        self.max_particles as nat
    }

    /// Lifetime given to particles emitted without one.
    pub closed spec fn lifetime(&self) -> u32 {
        self.default_lifetime
    }

    /// An empty system holding at most `capacity` particles, each living
    /// 30 frames unless told otherwise.
    pub fn new(capacity: usize) -> (s: ParticleSystem)
        ensures
            s.items() == Seq::<Particle>::empty(),
            s.capacity() == capacity,
            s.lifetime() == DEFAULT_LIFETIME,
    {
        ParticleSystem { particles: Vec::new(), max_particles: capacity, default_lifetime: DEFAULT_LIFETIME }
    }

    /// Add a particle with the default lifetime, unless the system is full.
    pub fn emit(&mut self, x_bits: u32, y_bits: u32, dx_bits: u32, dy_bits: u32, color: u8)
        ensures
            final(self).capacity() == old(self).capacity(),
            final(self).lifetime() == old(self).lifetime(),
            final(self).items() == (if old(self).items().len() < old(self).capacity() {
                old(self).items().push(
                    Particle { x_bits, y_bits, dx_bits, dy_bits, color, life: old(self).lifetime() },
                )
            } else {
                old(self).items()
            }),
    {
        if self.particles.len() < self.max_particles {
            let p = Particle::new(x_bits, y_bits, dx_bits, dy_bits, color, self.default_lifetime);
            self.particles.push(p);
        }
    }

    /// Add a particle living `lifetime` frames, unless the system is full.
    pub fn emit_with_lifetime(&mut self, x_bits: u32, y_bits: u32, dx_bits: u32, dy_bits: u32, color: u8, lifetime: u32)
        ensures
            final(self).capacity() == old(self).capacity(),
            final(self).lifetime() == old(self).lifetime(),
            final(self).items() == (if old(self).items().len() < old(self).capacity() {
                old(self).items().push(Particle { x_bits, y_bits, dx_bits, dy_bits, color, life: lifetime })
            } else {
                old(self).items()
            }),
    {
        if self.particles.len() < self.max_particles {
            let p = Particle::new(x_bits, y_bits, dx_bits, dy_bits, color, lifetime);
            self.particles.push(p);
        }
    }

    /// The bookkeeping part of a frame's update: particles with no frames
    /// left are removed, the others age by one frame and keep their order.
    pub fn age_and_cull(&mut self)
        ensures
            final(self).capacity() == old(self).capacity(),
            final(self).lifetime() == old(self).lifetime(),
            final(self).items() == survivors(old(self).items()),
    {
        let ghost before = self.particles@;
        let mut kept: Vec<Particle> = Vec::new();
        let mut i: usize = 0;
        while i < self.particles.len()
            invariant
                self.particles@ == before,
                i <= before.len(),
                kept@ == survivors(before.take(i as int)),
            decreases before.len() - i,
        {
            let mut p = self.particles[i];
            proof {
                assert(before.take(i + 1).drop_last() =~= before.take(i as int));
                assert(before.take(i + 1).last() == before[i as int]);
            }
            if p.is_alive() {
                p.age();
                kept.push(p);
            }
            i = i + 1;
        }
        proof {
            assert(before.take(before.len() as int) =~= before);
        }
        self.particles = kept;
    }

    /// Number of live particles.
    pub fn count(&self) -> (n: usize)
        ensures
            n == self.items().len(),
    {
        self.particles.len()
    }

    /// Lifetime for particles emitted from now on without one.
    pub fn set_default_lifetime(&mut self, lifetime: u32)
        ensures
            final(self).lifetime() == lifetime,
            final(self).capacity() == old(self).capacity(),
            final(self).items() == old(self).items(),
    {
        self.default_lifetime = lifetime;
    }

    /// Remove every particle.
    pub fn clear(&mut self)
        ensures
            final(self).items() == Seq::<Particle>::empty(),
            final(self).capacity() == old(self).capacity(),
            final(self).lifetime() == old(self).lifetime(),
    {
        self.particles.clear();
    }
}

impl Default for ParticleSystem {
    /// An empty system of 256 particles at most.
    fn default() -> (s: ParticleSystem)
        ensures
            s.items() == Seq::<Particle>::empty(),
            s.capacity() == DEFAULT_CAPACITY,
            s.lifetime() == DEFAULT_LIFETIME,
    {
        ParticleSystem::new(DEFAULT_CAPACITY)
    }
}

/// A frame's update never adds particles, and it removes every particle
/// that had no frames left.
pub proof fn law_survivors_shrink(s: Seq<Particle>)
    ensures
        survivors(s).len() <= s.len(),
        (forall|i: int| 0 <= i < s.len() ==> #[trigger] s[i].life == 0) ==> survivors(s).len() == 0,
    decreases s.len(),
{
    if s.len() > 0 {
        law_survivors_shrink(s.drop_last());
    }
}

} // verus!
