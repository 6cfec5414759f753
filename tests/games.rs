use tiny_games::apps::App;
use tiny_games::conway::Conway;
use tiny_games::grid::{Cell, Direction};
use tiny_games::noise::Noise;
use tiny_games::race::{parse_map, Race};
use tiny_games::snake::Snake;

fn lines(map: &[&str]) -> Vec<Vec<char>> {
    map.iter().map(|l| l.chars().collect()).collect()
}

#[test]
fn blinker_turns() {
    let (mut game, config) = Conway::new((5, 5), (1, 1), &[(0, 1), (1, 1), (2, 1)]);
    assert_eq!(config.frame_rate, 10);
    assert_eq!(game.graphics().buf.get((2, 2)), Some(Cell::filled()));
    game.run_frame();
    let buf = &game.graphics().buf;
    assert_eq!(buf.get((2, 1)), Some(Cell::filled()));
    assert_eq!(buf.get((2, 2)), Some(Cell::filled()));
    assert_eq!(buf.get((2, 3)), Some(Cell::filled()));
    assert_eq!(buf.get((1, 2)), Some(Cell::Blank));
    assert_eq!(buf.get((3, 2)), Some(Cell::Blank));
    game.run_frame();
    assert_eq!(game.graphics().buf.get((1, 2)), Some(Cell::filled()));
    assert_eq!(game.graphics().buf.get((2, 1)), Some(Cell::Blank));
}

#[test]
fn block_is_still() {
    let (mut game, _) = Conway::new((4, 4), (0, 0), &[(1, 1), (2, 1), (1, 2), (2, 2)]);
    game.run_frame();
    for (x, y) in [(1, 1), (2, 1), (1, 2), (2, 2)] {
        assert_eq!(game.graphics().buf.get((x, y)), Some(Cell::filled()));
    }
    assert_eq!(game.graphics().buf.get((0, 0)), Some(Cell::Blank));
}

#[test]
fn noise_fills_every_cell() {
    let (mut game, config) = Noise::new();
    assert_eq!(config.frame_rate, 15);
    game.fill(0);
    assert_eq!(game.graphics().buf.get((0, 0)), Some(Cell::filled()));
    for _ in 0..49 {
        game.run_frame();
    }
    for i in 0..50 {
        assert_eq!(game.graphics().buf.get_by_index(i), Cell::filled());
    }
    assert_eq!(game.graphics().title, "The end.");
}

#[test]
fn snake_moves_right() {
    let (mut game, config) = Snake::new();
    assert_eq!(config.frame_rate, 10);
    assert_eq!(game.food_candidates().len(), 30 * 20 - 1);
    game.advance();
    assert_eq!(game.head(), (2, 5));
    assert!(game.len() == 1 || game.len() == 2);
    assert_eq!(game.graphics().buf.get((2, 5)), Some(Cell::Colored((255, 255, 100))));
}

#[test]
fn snake_cannot_reverse_when_long() {
    let (mut game, _) = Snake::new();
    game.set_direction(Direction::Left);
    game.handle_pressed_key('s');
    game.run_frame();
    assert_eq!(game.graphics().buf.get((1, 6)), Some(Cell::Colored((255, 255, 100))));
}

#[test]
fn snake_dies_at_the_wall() {
    let (mut game, _) = Snake::new();
    game.handle_pressed_key('w');
    for _ in 0..5 {
        game.run_frame();
    }
    assert!(game.alive());
    assert_eq!(game.head(), (1, 0));
    game.run_frame();
    assert!(!game.alive());
    assert_eq!(game.head(), (1, 0));
    assert!(!game.is_within_game_bounds((1, -1)));
    assert!(game.is_within_game_bounds((29, 19)));
    assert!(!game.is_within_game_bounds((30, 19)));
}

#[test]
fn direction_symbols() {
    assert_eq!(Snake::direction_symbol(Direction::Up), '^');
    assert_eq!(Snake::direction_symbol(Direction::Left), '<');
    assert_eq!(Snake::direction_symbol(Direction::Down), 'V');
    assert_eq!(Snake::direction_symbol(Direction::Right), '>');
}

#[test]
fn map_is_read() {
    let world = parse_map(&lines(&["x.x", " o ", "..x"])).unwrap();
    assert_eq!(world.car, (1, 1));
    assert_eq!(world.obstacles, vec![(0, 0), (2, 0), (2, 2)]);
    assert_eq!(world.grass, vec![(1, 0), (0, 2), (1, 2)]);
    assert_eq!(world.dimensions, (2, 2));
}

#[test]
fn map_needs_exactly_one_car() {
    assert!(parse_map(&lines(&["x.x"])).is_none());
    assert!(parse_map(&lines(&["o.o"])).is_none());
    assert!(parse_map(&lines(&[])).is_none());
}

#[test]
fn car_crashes_into_an_obstacle() {
    let (mut game, config) = Race::new(&lines(&["o x", "   "])).unwrap();
    assert_eq!(config.frame_rate, 30);
    game.handle_pressed_key('d');
    for _ in 0..8 {
        game.run_frame();
    }
    assert_eq!(game.car(), (1, 0));
    assert!(!game.is_crashed());
    for _ in 0..8 {
        game.run_frame();
    }
    assert_eq!(game.car(), (2, 0));
    assert!(game.is_crashed());
    assert_eq!(game.graphics().buf.get((14, 14)), Some(Cell::Colored((250, 50, 50))));
}

#[test]
fn race_needs_room() {
    assert!(Race::new(&lines(&["o"])).is_none());
    assert_eq!(Race::time_text(3), "Time: 3");
}
