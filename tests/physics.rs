use dso138_tests::phys::ensemble::{advance, pairs, random_ensemble, resolve, total_energy, Contact};
use dso138_tests::phys::particles::{Particle, ParticleColor};
use dso138_tests::phys::racket::Racket;
use wyhash::WyRng;

fn involved(cs: &[Contact], k: usize) -> usize {
    cs.iter()
        .filter(|c| match c {
            Contact::Wall(i) => *i == k,
            Contact::Pair(i, j) => *i == k || *j == k,
        })
        .count()
}

#[test]
fn four_particles_apart_do_not_collide() {
    let mut ens = vec![
        Particle::new(100, 50, 0, -5, 10, 1, ParticleColor::Green),
        Particle::new(100, 100, 0, -8, 10, 1, ParticleColor::Red),
        Particle::new(100, 150, 0, 5, 10, 1, ParticleColor::Blue),
        Particle::new(100, 200, 0, 8, 10, 1, ParticleColor::Yellow),
    ];
    assert_eq!(total_energy(&ens), 178);
    let cs = resolve(&mut ens, 0, 240, 0, 320);
    assert!(cs.is_empty());
    assert_eq!(pairs(&cs), 0);
    advance(&mut ens);
    let ys: Vec<i64> = ens.iter().map(|p| p.get_y()).collect();
    assert_eq!(ys, vec![45, 92, 155, 208]);
    assert!(ens.iter().all(|p| p.get_x() == 100 && !p.collided()));
    assert_eq!(total_energy(&ens), 178);
}

#[test]
fn head_on_close_pair_swaps_velocities() {
    let mut p = Particle::new(100, 100, 0, 5, 10, 1, ParticleColor::Green);
    let mut q = Particle::new(100, 108, 0, -5, 10, 1, ParticleColor::Red);
    assert!(Particle::will_collide(&p, &q));
    assert!(Particle::collide(&mut p, &mut q));
    assert!(p.collided() && q.collided());
    assert_eq!((p.get_vx(), p.get_vy()), (0, -5));
    assert_eq!((q.get_vx(), q.get_vy()), (0, 5));
    assert_eq!((p.get_x(), p.get_y(), q.get_x(), q.get_y()), (100, 100, 100, 108));
}

#[test]
fn oblique_collision_exchanges_along_line_of_centres() {
    let mut p = Particle::new(0, 0, 5, 0, 10, 1, ParticleColor::Green);
    let mut q = Particle::new(12, 12, 0, 0, 10, 1, ParticleColor::Green);
    let before = p.energy() + q.energy();
    assert!(Particle::collide(&mut p, &mut q));
    assert_eq!((p.get_vx(), p.get_vy()), (3, -2));
    assert_eq!((q.get_vx(), q.get_vy()), (2, 2));
    assert_eq!(p.get_vx() + q.get_vx(), 5);
    assert_eq!(p.get_vy() + q.get_vy(), 0);
    let after = p.energy() + q.energy();
    assert_eq!(before, 25);
    assert_eq!(after, 21);
    let tolerance = 2 * (p.get_vx().abs() + p.get_vy().abs() + q.get_vx().abs() + q.get_vy().abs()) + 4;
    assert!((after - before).abs() < tolerance);
}

#[test]
fn separating_pair_does_not_collide() {
    let mut p = Particle::new(100, 100, 0, -5, 10, 1, ParticleColor::Green);
    let mut q = Particle::new(100, 108, 0, 5, 10, 1, ParticleColor::Green);
    assert!(!Particle::collide(&mut p, &mut q));
    assert!(!p.collided() && !q.collided());
    assert_eq!((p.get_vy(), q.get_vy()), (-5, 5));
}

#[test]
fn distant_pair_does_not_collide() {
    let mut p = Particle::new(0, 0, 5, 0, 10, 1, ParticleColor::Green);
    let mut q = Particle::new(21, 0, -5, 0, 10, 1, ParticleColor::Green);
    assert!(!Particle::collide(&mut p, &mut q));
    let mut q = Particle::new(20, 0, -5, 0, 10, 1, ParticleColor::Green);
    assert!(Particle::collide(&mut p, &mut q));
}

#[test]
fn bounce_clamps_and_flips_one_axis() {
    let mut p = Particle::new(250, 100, 3, 4, 5, 1, ParticleColor::Green);
    assert!(Particle::bounce(&mut p, 0, 240, 0, 320));
    assert_eq!((p.get_x(), p.get_y(), p.get_vx(), p.get_vy()), (240, 100, -3, 4));
    assert!(p.collided());

    let mut p = Particle::new(-5, 330, -3, 4, 5, 1, ParticleColor::Green);
    assert!(Particle::bounce(&mut p, 0, 240, 0, 320));
    assert_eq!((p.get_x(), p.get_y(), p.get_vx(), p.get_vy()), (0, 320, 3, -4));

    let mut p = Particle::new(120, 160, 3, 4, 5, 1, ParticleColor::Green);
    assert!(!Particle::bounce(&mut p, 0, 240, 0, 320));
    assert_eq!((p.get_x(), p.get_y(), p.get_vx(), p.get_vy()), (120, 160, 3, 4));
    assert!(!p.collided());
}

#[test]
fn step_moves_by_velocity_times_dt() {
    let mut p = Particle::new(10, 20, 3, -4, 5, 2, ParticleColor::Blue);
    let mut q = Particle::new(100, 100, 0, 5, 10, 1, ParticleColor::Green);
    let mut r = Particle::new(100, 108, 0, -5, 10, 1, ParticleColor::Green);
    assert!(Particle::collide(&mut q, &mut r));
    p.step();
    q.step();
    assert_eq!((p.get_x(), p.get_y()), (16, 12));
    assert!(!q.collided());
    assert_eq!(p.energy(), 25);
    assert_eq!(p.get_color(), ParticleColor::Blue);
    p.set_color(ParticleColor::White);
    assert_eq!(p.get_color(), ParticleColor::White);
    assert_eq!(p.get_r(), 5);
    assert_eq!(p.area(), ((11, 7), (21, 17)));
}

#[test]
fn default_particle_and_color() {
    let p = Particle::default();
    assert_eq!((p.get_x(), p.get_y(), p.get_r()), (0, 0, 5));
    assert_eq!(ParticleColor::default(), ParticleColor::Green);
    assert!(p.in_range() && p.movable());
}

#[test]
fn three_overlapping_particles_collide_once_each() {
    let mut ens = vec![
        Particle::new(100, 100, 0, 5, 10, 1, ParticleColor::Green),
        Particle::new(100, 105, 0, 0, 10, 1, ParticleColor::Green),
        Particle::new(100, 110, 0, -5, 10, 1, ParticleColor::Green),
    ];
    let cs = resolve(&mut ens, 0, 240, 0, 320);
    assert_eq!(cs, vec![Contact::Pair(0, 1)]);
    for k in 0..3 {
        assert!(involved(&cs, k) <= 1);
    }
    assert_eq!(pairs(&cs), 1);
    assert_eq!(ens[0].get_vy(), 0);
    assert_eq!(ens[1].get_vy(), 5);
    assert_eq!(ens[2].get_vy(), -5);
    assert!(!ens[2].collided());
}

#[test]
fn wall_bounce_excludes_pair_collision_in_same_pass() {
    let mut ens = vec![
        Particle::new(0, 100, -2, 0, 10, 1, ParticleColor::Green),
        Particle::new(5, 100, -3, 0, 10, 1, ParticleColor::Green),
        Particle::new(200, 200, 1, 1, 10, 1, ParticleColor::Green),
    ];
    let cs = resolve(&mut ens, 0, 240, 0, 320);
    assert_eq!(cs, vec![Contact::Wall(0)]);
    assert_eq!(ens[0].get_vx(), 2);
    assert!(ens[0].collided());
    assert!(!ens[1].collided());
    assert_eq!(pairs(&cs), 0);
}

#[test]
fn already_collided_particles_are_skipped() {
    let mut a = Particle::new(100, 100, 0, 5, 10, 1, ParticleColor::Green);
    let mut b = Particle::new(100, 108, 0, -5, 10, 1, ParticleColor::Green);
    assert!(Particle::collide(&mut a, &mut b));
    let c = Particle::new(100, 115, 0, -5, 10, 1, ParticleColor::Green);
    let mut ens = vec![a, b, c];
    let cs = resolve(&mut ens, 0, 240, 0, 320);
    assert!(cs.is_empty());
    assert_eq!(ens[2].get_vy(), -5);
}

#[test]
fn random_ensemble_is_within_the_seeded_ranges() {
    let mut rng = WyRng::default();
    let ens = random_ensemble(&mut rng, 20, 4, 1);
    assert_eq!(ens.len(), 20);
    for p in &ens {
        assert!((0..128).contains(&p.get_x()));
        assert!((0..128).contains(&p.get_y()));
        assert!((1..=16).contains(&p.get_vx()));
        assert!((1..=16).contains(&p.get_vy()));
        assert_eq!(p.get_r(), 4);
        assert!(!p.collided());
    }
    assert_eq!(ens[0].get_color(), ParticleColor::Red);
    assert_eq!(ens[1].get_color(), ParticleColor::Blue);
    assert_eq!(ens[2].get_color(), ParticleColor::Yellow);
    assert_eq!(ens[3].get_color(), ParticleColor::White);
    assert_eq!(ens[4].get_color(), ParticleColor::Green);
    let distinct = ens
        .iter()
        .filter(|p| (p.get_x(), p.get_y()) != (ens[0].get_x(), ens[0].get_y()))
        .count();
    assert!(distinct > 0);
}

#[test]
fn from_bytes_places_particle() {
    let p = Particle::from_bytes([200, 7, 0x3F, 0x10], 4, 1, ParticleColor::Green);
    assert_eq!((p.get_x(), p.get_y(), p.get_vx(), p.get_vy()), (100, 3, 16, 1));
}

#[test]
fn racket_moves_and_clamps() {
    let mut r = Racket::new(120, 5, 15, 5);
    r.step(5);
    assert_eq!(r.get_cx(), 125);
    assert!(!Racket::bounce(&mut r, 0, 240));
    r.step(200);
    assert!(Racket::bounce(&mut r, 0, 240));
    assert_eq!(r.get_cx(), 240);
    r.step(-300);
    assert!(Racket::bounce(&mut r, 0, 240));
    assert_eq!(r.get_cx(), 0);
    assert_eq!((r.get_cy(), r.get_hw(), r.get_hh()), (5, 15, 5));
    assert_eq!(r.area(), ((-15, 0), (15, 10)));
}
