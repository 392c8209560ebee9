use dso138_tests::debounce::{Buttons, Debounce, Edge, Level};
use dso138_tests::game::{racket_shift, score, Squash};
use dso138_tests::phys::particles::{Particle, ParticleColor};
use dso138_tests::phys::racket::Racket;
use dso138_tests::sched::{finish_periodic, CycleClock, DeadlineQueue, Entry, SchedError};

fn feed(d: &mut Debounce, samples: &[Level]) -> Vec<Edge> {
    samples.iter().filter_map(|l| d.sample(*l)).collect()
}

#[test]
fn steady_input_gives_no_event() {
    let mut d = Debounce::new();
    assert!(feed(&mut d, &[Level::High; 10]).is_empty());
    assert!(!d.is_pressed());
}

#[test]
fn high_then_low_gives_one_press() {
    let mut d = Debounce::new();
    let s = [Level::High, Level::High, Level::Low, Level::Low, Level::Low];
    assert_eq!(feed(&mut d, &s), vec![Edge::Press]);
    assert!(d.is_pressed());
    assert_eq!(feed(&mut d, &[Level::High]), vec![Edge::Release]);
    assert!(!d.is_pressed());
}

#[test]
fn events_alternate() {
    let mut d = Debounce::new();
    let s = [Level::Low, Level::High, Level::High, Level::Low, Level::High];
    assert_eq!(
        feed(&mut d, &s),
        vec![Edge::Press, Edge::Release, Edge::Press, Edge::Release]
    );
}

#[test]
fn buttons_sample_all_channels() {
    let mut b = Buttons::new();
    let e = b.sample_all([Level::Low, Level::High, Level::High, Level::Low]);
    assert_eq!(e, [Some(Edge::Press), None, None, Some(Edge::Press)]);
    assert!(b.is_pressed(0) && !b.is_pressed(1) && !b.is_pressed(2) && b.is_pressed(3));
    let e = b.sample_all([Level::Low, Level::High, Level::High, Level::High]);
    assert_eq!(e, [None, None, None, Some(Edge::Release)]);
}

#[test]
fn periodic_task_does_not_drift() {
    let d0: u64 = 1000;
    let period: u64 = 720_000;
    let mut q = DeadlineQueue::new(4);
    q.schedule(d0, 7).unwrap();
    let delays = [0u64, 5, 719_999, 3, 1_500_000, 17, 40_000, 1, 900_000, 2];
    let mut now: u64 = 0;
    let mut fired = Vec::new();
    for step in 0..200 {
        now += 100_000 + delays[step % delays.len()];
        while let Some(e) = q.pop_due(now) {
            assert_eq!(e.task, 7);
            fired.push(e.at);
            finish_periodic(&mut q, e, period, false).unwrap();
        }
    }
    assert!(fired.len() > 10);
    for (k, d) in fired.iter().enumerate() {
        assert_eq!(*d, d0 + k as u64 * period);
    }
}

#[test]
fn finished_task_is_not_requeued() {
    let mut q = DeadlineQueue::new(2);
    q.schedule(10, 1).unwrap();
    let e = q.pop_due(10).unwrap();
    assert_eq!(finish_periodic(&mut q, e, 5, true), Ok(()));
    assert_eq!(q.len(), 0);
    assert_eq!(q.next_deadline(), None);
}

#[test]
fn queue_orders_by_deadline_and_reports_full() {
    let mut q = DeadlineQueue::new(3);
    assert_eq!(q.capacity(), 3);
    q.schedule(30, 1).unwrap();
    q.schedule(10, 2).unwrap();
    q.schedule(10, 3).unwrap();
    assert_eq!(q.schedule(5, 4), Err(SchedError::Full));
    assert_eq!(q.next_deadline(), Some(10));
    assert_eq!(q.pop_due(9), None);
    assert_eq!(q.pop_due(10), Some(Entry { at: 10, task: 2 }));
    assert_eq!(q.pop_due(10), Some(Entry { at: 10, task: 3 }));
    assert_eq!(q.pop_due(29), None);
    assert_eq!(q.pop_due(100), Some(Entry { at: 30, task: 1 }));
    assert_eq!(q.pop_due(100), None);
}

#[test]
fn reschedule_past_counter_range_overflows() {
    let mut q = DeadlineQueue::new(2);
    let e = Entry { at: u64::MAX - 3, task: 0 };
    assert_eq!(finish_periodic(&mut q, e, 4, false), Err(SchedError::Overflow));
    assert_eq!(q.len(), 0);
    let mut full = DeadlineQueue::new(0);
    assert_eq!(finish_periodic(&mut full, Entry { at: 1, task: 0 }, 4, false), Err(SchedError::Full));
}

#[test]
fn cycle_clock_extends_wrapping_counter() {
    let mut c = CycleClock::new(u32::MAX - 9);
    assert_eq!(c.observe(u32::MAX), 9);
    assert_eq!(c.observe(5), 15);
    assert_eq!(c.observe(5), 15);
    assert_eq!(c.ticks(), 15);
}

#[test]
fn scoring_depends_on_lateral_miss() {
    let r = Racket::new(120, 5, 15, 5);
    let miss = Particle::new(200, 10, 0, -5, 1, 1, ParticleColor::Blue);
    let hit = Particle::new(120, 10, 0, -5, 1, 1, ParticleColor::Blue);
    assert!(score(&miss, &r));
    assert!(!score(&hit, &r));
    let above = Particle::new(200, 11, 0, -5, 1, 1, ParticleColor::Blue);
    assert!(!score(&above, &r));
}

#[test]
fn racket_shift_follows_buttons() {
    assert_eq!(racket_shift(true, false, 5), 5);
    assert_eq!(racket_shift(false, true, 5), -5);
    assert_eq!(racket_shift(true, true, 5), 0);
    assert_eq!(racket_shift(false, false, 5), 0);
}

#[test]
fn missed_ball_ends_the_game() {
    let ball = Particle::new(200, 12, 0, -5, 1, 1, ParticleColor::Blue);
    let racket = Racket::new(120, 5, 15, 5);
    let mut g = Squash::new(ball, racket, 240, 320, 5).unwrap();
    assert!(!g.step(false, false));
    assert_eq!(g.ball().get_y(), 7);
    assert!(!g.step(false, false));
    assert!(g.step(false, false));
    assert!(g.is_over());
    assert_eq!(g.ball().get_y(), 0);
    let frozen = g.ball().get_y();
    assert!(g.step(true, false));
    assert_eq!(g.ball().get_y(), frozen);
}

#[test]
fn returned_ball_keeps_the_game_going() {
    let ball = Particle::new(120, 12, 0, -5, 1, 1, ParticleColor::Blue);
    let racket = Racket::new(120, 5, 15, 5);
    let mut g = Squash::new(ball, racket, 240, 320, 5).unwrap();
    for _ in 0..3 {
        assert!(!g.step(false, false));
    }
    assert_eq!(g.ball().get_vy(), 5);
    assert!(!g.step(true, false));
    assert_eq!(g.racket().get_cx(), 125);
    assert!(!g.step(false, true));
    assert_eq!(g.racket().get_cx(), 120);
}

#[test]
fn racket_stays_in_field() {
    let ball = Particle::new(120, 160, 0, 0, 5, 1, ParticleColor::Blue);
    let racket = Racket::new(230, 5, 15, 5);
    let mut g = Squash::new(ball, racket, 240, 320, 5).unwrap();
    for _ in 0..5 {
        g.step(true, false);
    }
    assert_eq!(g.racket().get_cx(), 240);
}

#[test]
fn unplayable_setup_is_refused() {
    let ball = Particle::new(500, 160, 0, 0, 5, 1, ParticleColor::Blue);
    let racket = Racket::new(120, 5, 15, 5);
    assert!(Squash::new(ball, racket, 240, 320, 5).is_none());
    let ball = Particle::new(120, 160, 0, 0, 5, 1, ParticleColor::Blue);
    assert!(Squash::new(ball, racket, 0, 320, 5).is_none());
}
