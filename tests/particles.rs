use tiny_games::apps::App;
use tiny_games::grid::{Cell, GraphicsBuf};
use tiny_games::particles::{apply_forces, bounced, is_free, move_particle, solid, ForceRolls, Particle, Particles};

const SAND: (u8, u8, u8) = (100, 160, 220);

fn no_rolls() -> ForceRolls {
    ForceRolls { extra_gravity: false, friction: false, right_first: false, drift: false, drift_right: false }
}

fn particle_at(buf: &mut GraphicsBuf, position: (i16, i16), velocity: (i16, i16)) -> Particle {
    buf.set(position, Cell::Colored(SAND));
    Particle { color: SAND, position, velocity }
}

#[test]
fn falls_one_cell_over_open_floor() {
    let (mut game, _) = Particles::new();
    assert!(game.add_particle((5, 5), (0, 1), SAND));
    game.step(&vec![no_rolls()], None);
    let p = game.particle(0);
    assert_eq!(p.position, (5, 6));
    assert_eq!(p.velocity, (0, 2));
    assert_eq!(game.graphics().buf.get((5, 5)), Some(Cell::Blank));
    assert_eq!(game.graphics().buf.get((5, 6)), Some(Cell::Colored(SAND)));
}

#[test]
fn gravity_bonus_adds_two() {
    let (mut game, _) = Particles::new();
    assert!(game.add_particle((5, 5), (0, 1), SAND));
    let mut rolls = no_rolls();
    rolls.extra_gravity = true;
    game.step(&vec![rolls], None);
    assert_eq!(game.particle(0).position, (5, 6));
    assert_eq!(game.particle(0).velocity, (0, 3));
}

#[test]
fn blocked_below_stays_and_stops() {
    let mut buf = GraphicsBuf::new((30, 30));
    buf.set((5, 6), solid());
    let mut p = particle_at(&mut buf, (5, 5), (0, 1));
    move_particle(&mut buf, &mut p);
    assert_eq!(p.position, (5, 5));
    assert_eq!(p.velocity.1, 0);
    assert_eq!(buf.get((5, 5)), Some(Cell::Colored(SAND)));
}

#[test]
fn solid_below_never_moves_down() {
    let mut buf = GraphicsBuf::new((30, 30));
    buf.set((5, 6), solid());
    let mut p = particle_at(&mut buf, (5, 5), (0, 4));
    move_particle(&mut buf, &mut p);
    assert_eq!(p.position, (5, 5));
    assert_eq!(p.velocity, (0, 0));
}

#[test]
fn bounce_scales_by_six_tenths() {
    assert_eq!(bounced(5), -3);
    assert_eq!(bounced(1), 0);
    assert_eq!(bounced(-5), 3);
    assert_eq!(bounced(10), -6);
    assert_eq!(bounced(0), 0);
}

#[test]
fn bounces_off_a_wall() {
    let mut buf = GraphicsBuf::new((30, 30));
    buf.set((3, 10), solid());
    let mut p = particle_at(&mut buf, (1, 10), (5, 0));
    move_particle(&mut buf, &mut p);
    assert_eq!(p.position, (2, 10));
    assert_eq!(p.velocity, (-3, 0));
    assert_eq!(buf.get((1, 10)), Some(Cell::Blank));
    assert_eq!(buf.get((2, 10)), Some(Cell::Colored(SAND)));
}

#[test]
fn slides_diagonally_past_a_block() {
    let mut buf = GraphicsBuf::new((30, 30));
    buf.set((5, 6), solid());
    let mut p = particle_at(&mut buf, (5, 5), (1, 1));
    move_particle(&mut buf, &mut p);
    assert_eq!(p.position, (6, 6));
    assert_eq!(p.velocity, (1, 1));
}

#[test]
fn right_edge_counts_as_taken() {
    let mut buf = GraphicsBuf::new((30, 30));
    let mut p = particle_at(&mut buf, (28, 10), (4, 0));
    move_particle(&mut buf, &mut p);
    assert_eq!(p.position, (29, 10));
    assert_eq!(p.velocity, (-2, 0));
    assert!(!is_free(&buf, (30, 10)));
    assert!(!is_free(&buf, (-1, 0)));
}

#[test]
fn gravity_from_rest_gives_one_or_two() {
    let mut buf = GraphicsBuf::new((30, 30));
    let mut p = particle_at(&mut buf, (5, 5), (0, 0));
    apply_forces(&buf, &mut p, no_rolls());
    assert_eq!(p.velocity, (0, 1));
    let mut q = particle_at(&mut buf, (10, 5), (0, 0));
    let mut rolls = no_rolls();
    rolls.extra_gravity = true;
    apply_forces(&buf, &mut q, rolls);
    assert_eq!(q.velocity, (0, 2));
}

#[test]
fn friction_slows_a_sliding_particle() {
    let mut buf = GraphicsBuf::new((30, 30));
    buf.set((5, 6), solid());
    let mut p = particle_at(&mut buf, (5, 5), (-3, 0));
    let mut rolls = no_rolls();
    rolls.friction = true;
    apply_forces(&buf, &mut p, rolls);
    assert_eq!(p.velocity, (-2, 0));
    let mut q = particle_at(&mut buf, (5, 5), (3, 0));
    apply_forces(&buf, &mut q, no_rolls());
    assert_eq!(q.velocity, (3, 0));
}

#[test]
fn resting_particle_falls_diagonally() {
    let mut buf = GraphicsBuf::new((30, 30));
    buf.set((5, 6), solid());
    let mut p = particle_at(&mut buf, (5, 5), (0, 0));
    let mut rolls = no_rolls();
    rolls.right_first = true;
    apply_forces(&buf, &mut p, rolls);
    assert_eq!(p.velocity, (1, 1));
    buf.set((6, 6), solid());
    let mut q = Particle { color: SAND, position: (5, 5), velocity: (0, 0) };
    apply_forces(&buf, &mut q, rolls);
    assert_eq!(q.velocity, (-1, 1));
}

#[test]
fn blocked_particle_moves_to_the_open_side() {
    let mut buf = GraphicsBuf::new((30, 30));
    for x in 3..8 {
        buf.set((x, 6), solid());
    }
    buf.set((6, 5), solid());
    let mut p = particle_at(&mut buf, (5, 5), (0, 0));
    apply_forces(&buf, &mut p, no_rolls());
    assert_eq!(p.velocity, (-1, 0));
}

#[test]
fn particle_on_liquid_drifts() {
    let mut buf = GraphicsBuf::new((30, 30));
    for x in 3..8 {
        buf.set((x, 6), Cell::Colored(SAND));
    }
    let mut p = particle_at(&mut buf, (5, 5), (0, 0));
    let mut rolls = no_rolls();
    rolls.drift = true;
    rolls.drift_right = true;
    apply_forces(&buf, &mut p, rolls);
    assert_eq!(p.velocity, (1, 0));
    let mut q = Particle { color: SAND, position: (5, 5), velocity: (0, 0) };
    apply_forces(&buf, &mut q, no_rolls());
    assert_eq!(q.velocity, (0, 0));
}

#[test]
fn particle_on_a_wall_does_not_drift() {
    let mut buf = GraphicsBuf::new((30, 30));
    for x in 3..8 {
        buf.set((x, 6), solid());
    }
    let mut p = particle_at(&mut buf, (5, 5), (0, 0));
    let mut rolls = no_rolls();
    rolls.drift = true;
    apply_forces(&buf, &mut p, rolls);
    assert_eq!(p.velocity, (0, 0));
}

#[test]
fn spawn_rate_stays_within_bounds() {
    let (mut game, _) = Particles::new();
    assert_eq!(game.spawn_rate(), 10);
    for _ in 0..30 {
        game.handle_pressed_key('w');
    }
    assert_eq!(game.spawn_rate(), 100);
    for _ in 0..3 {
        game.handle_pressed_key('s');
    }
    assert_eq!(game.spawn_rate(), 85);
    for _ in 0..30 {
        game.handle_pressed_key('s');
    }
    assert_eq!(game.spawn_rate(), 0);
}

#[test]
fn spawn_velocity_stays_within_bounds() {
    let (mut game, _) = Particles::new();
    assert_eq!(game.spawn_velocity(), (1, 0));
    game.handle_pressed_key('a');
    assert_eq!(game.spawn_velocity(), (1, 0));
    for _ in 0..20 {
        game.handle_pressed_key('d');
    }
    assert_eq!(game.spawn_velocity(), (10, 0));
    game.handle_pressed_key('a');
    assert_eq!(game.spawn_velocity(), (9, 0));
    game.handle_pressed_key('x');
    assert_eq!(game.spawn_velocity(), (9, 0));
}

#[test]
fn spawn_takes_a_blank_slot_only() {
    let (mut game, _) = Particles::new();
    assert!(game.spawn(0, 1));
    let p = game.particle(0);
    assert_eq!(p.position, (0, 1));
    assert_eq!(p.color, (120, 120, 250));
    assert_eq!(p.velocity, (1, 0));
    assert!(!game.spawn(0, 2));
    assert_eq!(game.particle_count(), 1);
    assert!(game.spawn(2, 2));
    assert_eq!(game.particle(1).position, (0, 2));
    assert_eq!(game.particle(1).color, (150, 150, 250));
}

#[test]
fn step_spawns_after_moving() {
    let (mut game, _) = Particles::new();
    game.step(&vec![], Some((1, 0)));
    assert_eq!(game.particle_count(), 1);
    assert_eq!(game.particle(0).position, (0, 0));
    assert_eq!(game.graphics().buf.get((0, 0)), Some(Cell::Colored(SAND)));
}

#[test]
fn particles_stay_on_the_grid_and_apart() {
    let (mut game, _) = Particles::new();
    for _ in 0..30 {
        game.handle_pressed_key('w');
    }
    for _ in 0..300 {
        game.run_frame();
    }
    let n = game.particle_count();
    assert!(n > 0);
    for i in 0..n {
        let p = game.particle(i);
        assert!(p.position.0 >= 0 && p.position.0 < 30);
        assert!(p.position.1 >= 0 && p.position.1 < 30);
        assert_ne!(game.graphics().buf.get(p.position), Some(Cell::Blank));
        for j in 0..i {
            assert_ne!(game.particle(j).position, p.position);
        }
    }
}

#[test]
fn walls_are_drawn() {
    let (game, config) = Particles::new();
    assert_eq!(config.frame_rate, 5);
    assert_eq!(game.graphics().buf.get((0, 3)), Some(solid()));
    assert_eq!(game.graphics().buf.get((18, 11)), Some(solid()));
    assert_eq!(game.graphics().buf.get((5, 5)), Some(Cell::Blank));
    assert_eq!(game.graphics().title, "Particles");
}

#[test]
fn full_rate_spawns_every_frame() {
    let (mut game, _) = Particles::new();
    for _ in 0..18 {
        game.handle_pressed_key('w');
    }
    assert_eq!(game.spawn_rate(), 100);
    game.run_frame();
    assert_eq!(game.particle_count(), 1);
    let p = game.particle(0);
    assert!(p.position.0 == 0 && (0..3).contains(&p.position.1));
}

#[test]
fn zero_rate_never_spawns() {
    let (mut game, _) = Particles::new();
    game.handle_pressed_key('s');
    game.handle_pressed_key('s');
    assert_eq!(game.spawn_rate(), 0);
    for _ in 0..50 {
        game.run_frame();
    }
    assert_eq!(game.particle_count(), 0);
}

fn status(game: &Particles) -> String {
    match &game.graphics().side_panel().unwrap().items[0] {
        tiny_games::graphics::PanelItem::TextItem { text } => text.clone(),
        _ => panic!("expected text"),
    }
}

#[test]
fn status_text_shows_count_rate_and_velocity() {
    let (mut game, _) = Particles::new();
    assert_eq!(status(&game), "Particles: 0\nSpawn rate: 0.10\nSpawn velocity: [1, 0]");
    game.add_particle((5, 5), (0, 1), SAND);
    game.handle_pressed_key('d');
    for _ in 0..18 {
        game.handle_pressed_key('w');
    }
    game.step(&vec![no_rolls()], None);
    assert_eq!(status(&game), "Particles: 1\nSpawn rate: 1.00\nSpawn velocity: [2, 0]");
    game.handle_pressed_key('s');
    game.step(&vec![no_rolls()], Some((0, 0)));
    assert_eq!(status(&game), "Particles: 2\nSpawn rate: 0.95\nSpawn velocity: [2, 0]");
}

#[test]
fn walls_survive_frames() {
    let (mut game, _) = Particles::new();
    for _ in 0..20 {
        game.handle_pressed_key('w');
    }
    for _ in 0..100 {
        game.run_frame();
    }
    assert_eq!(game.graphics().buf.get((0, 3)), Some(solid()));
    assert_eq!(game.graphics().buf.get((8, 25)), Some(solid()));
    for i in 0..game.particle_count() {
        let p = game.particle(i);
        assert_eq!(game.graphics().buf.get(p.position), Some(Cell::Colored(p.color)));
    }
}
