use nantaraquad::api::particles::{Particle, ParticleSystem, DEFAULT_LIFETIME};

fn b(v: f32) -> u32 {
    v.to_bits()
}

#[test]
fn test_particle_creation() {
    let p = Particle::new(b(10.0), b(20.0), b(1.0), b(1.0), 5, 30);
    assert_eq!(f32::from_bits(p.x_bits), 10.0);
    assert_eq!(f32::from_bits(p.y_bits), 20.0);
    assert_eq!(p.color, 5);
    assert_eq!(p.life, 30);
    assert!(p.is_alive());
}

#[test]
fn test_particle_lifetime() {
    let mut p = Particle::new(b(0.0), b(0.0), b(0.0), b(0.0), 5, 3);

    assert!(p.is_alive());
    p.age();
    assert_eq!(p.life, 2);
    assert!(p.is_alive());

    p.age();
    p.age();
    assert_eq!(p.life, 0);
    assert!(!p.is_alive());
}

#[test]
fn test_particle_system_emit() {
    let mut system = ParticleSystem::new(10);

    system.emit(b(5.0), b(5.0), b(1.0), b(1.0), 3);
    assert_eq!(system.count(), 1);

    system.emit(b(10.0), b(10.0), b(-1.0), b(-1.0), 8);
    assert_eq!(system.count(), 2);
}

#[test]
fn test_particle_system_max_capacity() {
    let mut system = ParticleSystem::new(3);

    for i in 0..5 {
        system.emit(b(i as f32), b(i as f32), b(0.0), b(0.0), 7);
    }

    assert_eq!(system.count(), 3);
}

#[test]
fn test_particle_system_update_and_cleanup() {
    let mut system = ParticleSystem::new(10);

    system.emit(b(0.0), b(0.0), b(0.0), b(0.0), 3);
    system.emit_with_lifetime(b(10.0), b(10.0), b(0.0), b(0.0), 5, 1);

    assert_eq!(system.count(), 2);

    system.age_and_cull();
    assert_eq!(system.count(), 2);

    system.age_and_cull();
    assert_eq!(system.count(), 1);
}

#[test]
fn test_particle_system_clear() {
    let mut system = ParticleSystem::new(10);

    for _ in 0..5 {
        system.emit(b(0.0), b(0.0), b(0.0), b(0.0), 7);
    }

    assert_eq!(system.count(), 5);
    system.clear();
    assert_eq!(system.count(), 0);
}

#[test]
fn particle_age_stops_at_zero() {
    let mut p = Particle::new(0, 0, 0, 0, 1, 0);
    p.age();
    assert_eq!(p.life, 0);
    assert!(!p.is_alive());
}

#[test]
fn emitted_particle_gets_default_lifetime_and_order_is_kept() {
    let mut system = ParticleSystem::default();
    system.emit(b(1.0), b(2.0), b(0.5), b(0.0), 4);
    system.set_default_lifetime(2);
    system.emit(b(3.0), b(4.0), b(0.0), b(0.0), 9);
    assert_eq!(system.particles[0].life, DEFAULT_LIFETIME);
    assert_eq!(system.particles[1].life, 2);

    system.age_and_cull();
    assert_eq!(system.count(), 2);
    assert_eq!(system.particles[0].life, DEFAULT_LIFETIME - 1);
    assert_eq!(system.particles[0].color, 4);
    assert_eq!(system.particles[1].life, 1);

    system.age_and_cull();
    assert_eq!(system.count(), 2);
    assert_eq!(system.particles[1].life, 0);

    system.age_and_cull();
    assert_eq!(system.count(), 1);
    assert_eq!(system.particles[0].color, 4);
    assert_eq!(f32::from_bits(system.particles[0].x_bits), 1.0);
}

#[test]
fn culling_keeps_order_of_survivors() {
    let mut system = ParticleSystem::new(8);
    system.emit_with_lifetime(0, 0, 0, 0, 1, 5);
    system.emit_with_lifetime(0, 0, 0, 0, 2, 1);
    system.emit_with_lifetime(0, 0, 0, 0, 3, 0);
    system.emit_with_lifetime(0, 0, 0, 0, 4, 2);
    system.age_and_cull();
    let colors: Vec<u8> = system.particles.iter().map(|p| p.color).collect();
    assert_eq!(colors, vec![1, 2, 4]);
    let lives: Vec<u32> = system.particles.iter().map(|p| p.life).collect();
    assert_eq!(lives, vec![4, 0, 1]);
}
