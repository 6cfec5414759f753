use tiny_games::apps::App;
use tiny_games::grid::{Cell, Direction};
use tiny_games::tetris::{Orientation, Shape, Tetris, Tetromino};

#[test]
fn orientation_turns_round() {
    let o = Orientation::First;
    assert_eq!(o.rotated(), Orientation::Second);
    assert_eq!(o.rotated().rotated().rotated(), Orientation::Fourth);
    assert_eq!(o.rotated().rotated().rotated().rotated(), Orientation::First);
}

#[test]
fn pieces_enter_at_the_top() {
    let i = Tetromino::at_top(Shape::I);
    assert_eq!(i.origin, (3, -2));
    assert_eq!(i.blocks(), [(3, 0), (4, 0), (5, 0), (6, 0)]);
    let o = Tetromino::at_top(Shape::O);
    assert_eq!(o.blocks(), [(4, 0), (5, 0), (4, 1), (5, 1)]);
    let t = Tetromino::at_top(Shape::T);
    assert_eq!(t.blocks(), [(4, 0), (5, 0), (6, 0), (5, 1)]);
}

#[test]
fn preview_pieces_fit_four_by_two() {
    for shape in [Shape::I, Shape::O, Shape::T, Shape::S, Shape::Z, Shape::J, Shape::L] {
        for (x, y) in Tetromino::in_upcoming_hint(shape).blocks() {
            assert!((0..4).contains(&x) && (0..2).contains(&y));
        }
    }
}

#[test]
fn rotation_and_translation() {
    let t = Tetromino::at_top(Shape::I).rotated();
    assert_eq!(t.orientation, Orientation::Second);
    assert_eq!(t.blocks(), [(5, -2), (5, -1), (5, 0), (5, 1)]);
    let moved = t.translate(Direction::Down);
    assert_eq!(moved.origin, (3, -1));
    assert_eq!(moved.translate(Direction::Left).origin, (2, -1));
    let l = Tetromino::at_top(Shape::L).rotated().rotated();
    assert_eq!(l.blocks(), [(4, 0), (5, 0), (6, 0), (6, -1)]);
}

#[test]
fn colors_by_shape() {
    assert_eq!(Tetromino::at_top(Shape::I).color(), (235, 50, 50));
    assert_eq!(Tetromino::at_top(Shape::L).color(), (200, 100, 100));
}

#[test]
fn new_game_shows_its_piece() {
    let (game, config) = Tetris::new();
    assert_eq!(config.frame_rate, 30);
    assert_eq!(game.score(), 0);
    assert!(!game.is_over());
    let piece = game.falling_piece().unwrap();
    for block in piece.blocks() {
        assert_eq!(game.graphics().buf.get(block), Some(Cell::Colored(piece.color())));
    }
}

#[test]
fn keys_move_the_piece_sideways() {
    let (mut game, _) = Tetris::new();
    let start = game.falling_piece().unwrap().origin;
    game.handle_pressed_key('a');
    assert_eq!(game.falling_piece().unwrap().origin, (start.0 - 1, start.1));
    game.handle_pressed_key('d');
    game.handle_pressed_key('d');
    assert_eq!(game.falling_piece().unwrap().origin, (start.0 + 1, start.1));
    for _ in 0..20 {
        game.handle_pressed_key('d');
    }
    let right = game.falling_piece().unwrap();
    assert!(right.blocks().iter().any(|b| b.0 == 9));
}

#[test]
fn piece_falls_every_fifteenth_frame() {
    let (mut game, _) = Tetris::new();
    let start = game.falling_piece().unwrap().origin;
    for _ in 0..14 {
        game.run_frame();
    }
    assert_eq!(game.falling_piece().unwrap().origin, start);
    game.run_frame();
    assert_eq!(game.falling_piece().unwrap().origin, (start.0, start.1 + 1));
}

#[test]
fn holding_down_ends_the_game() {
    let (mut game, _) = Tetris::new();
    game.handle_pressed_key('s');
    let mut frames = 0;
    while !game.is_over() && frames < 100000 {
        game.run_frame();
        frames += 1;
    }
    assert!(game.is_over());
    game.run_frame();
    assert!(game.is_over());
}

#[test]
fn released_key_stops_the_fast_fall() {
    let (mut game, _) = Tetris::new();
    game.handle_pressed_key('s');
    game.handle_released_key('s');
    let start = game.falling_piece().unwrap().origin;
    game.run_frame();
    assert_eq!(game.falling_piece().unwrap().origin, start);
}

#[test]
fn landing_at_the_top_ends_the_game() {
    let (mut game, _) = Tetris::new();
    game.land(Shape::O);
    assert!(game.is_over());
    assert_eq!(game.score(), 0);
    assert_ne!(game.graphics().buf.get((5, 0)), Some(Cell::Blank));
}

#[test]
fn landing_low_brings_the_next_piece() {
    let (mut game, _) = Tetris::new();
    for _ in 0..10 {
        game.advance(Shape::I);
    }
    game.handle_pressed_key('s');
    let mut prev = game.falling_piece().unwrap().origin.1;
    let mut frames = 0;
    loop {
        game.run_frame();
        frames += 1;
        let now = game.falling_piece().unwrap().origin.1;
        if now < prev {
            break;
        }
        assert_eq!(now, prev + 1);
        prev = now;
        assert!(frames < 30);
    }
    assert!(prev >= 16);
    assert!(!game.is_over());
    let next = game.falling_piece().unwrap();
    assert_eq!(next.origin, Tetromino::at_top(next.shape).origin);
}

#[test]
fn game_over_text_shows_the_score() {
    let (mut game, _) = Tetris::new();
    let text = |g: &Tetris| match &g.graphics().side_panel().unwrap().items[0] {
        tiny_games::graphics::PanelItem::TextItem { text } => text.clone(),
        _ => panic!("expected text"),
    };
    assert_eq!(text(&game), "Score: 0");
    game.land(Shape::T);
    assert_eq!(text(&game), "Game over.\nScore: 0");
}
