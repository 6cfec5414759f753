use tiny_games::graphics::{labelled, Graphics, PanelItem, SidePanel};
use tiny_games::grid::{translated, Cell, Direction, GraphicsBuf};

#[test]
fn new_buffer_is_blank() {
    let buf = GraphicsBuf::new((4, 3));
    assert_eq!(buf.dimensions(), (4, 3));
    for i in 0..12 {
        assert_eq!(buf.get_by_index(i), Cell::Blank);
    }
    assert_eq!(buf.get((3, 2)), Some(Cell::Blank));
}

#[test]
fn outside_reads_none() {
    let buf = GraphicsBuf::new((4, 3));
    assert_eq!(buf.get((4, 0)), None);
    assert_eq!(buf.get((0, 3)), None);
    assert_eq!(buf.get((-1, 0)), None);
}

#[test]
fn set_paints_one_cell() {
    let mut buf = GraphicsBuf::new((4, 3));
    buf.set((2, 1), Cell::filled());
    assert_eq!(buf.get((2, 1)), Some(Cell::Colored((255, 255, 255))));
    assert_eq!(buf.get_by_index(6), Cell::filled());
    assert_eq!(buf.get((1, 2)), Some(Cell::Blank));
    buf.set_by_index(11, Cell::Colored((1, 2, 3)));
    assert_eq!(buf.get((3, 2)), Some(Cell::Colored((1, 2, 3))));
}

#[test]
fn large_buffer_indexes_past_i16() {
    let mut buf = GraphicsBuf::new((255, 255));
    buf.set((254, 254), Cell::filled());
    assert_eq!(buf.get_by_index(254 * 255 + 254), Cell::filled());
}

#[test]
fn translated_moves_one_cell() {
    assert_eq!(translated((3, 3), Direction::Up), (3, 2));
    assert_eq!(translated((3, 3), Direction::Left), (2, 3));
    assert_eq!(translated((3, 3), Direction::Down), (3, 4));
    assert_eq!(translated((3, 3), Direction::Right), (4, 3));
}

#[test]
fn default_cell_is_blank() {
    let c: Cell = Default::default();
    assert_eq!(c, Cell::Blank);
}

#[test]
fn side_panel_items() {
    let mut panel = SidePanel {
        items: vec![
            PanelItem::TextItem { text: "a".to_string() },
            PanelItem::GraphicsItem { buf: GraphicsBuf::new((2, 2)) },
        ],
    };
    panel.unwrap_text_item_mut(0).push('b');
    panel.unwrap_graphics_item_mut(1).set((1, 1), Cell::filled());
    match &panel.items[0] {
        PanelItem::TextItem { text } => assert_eq!(text, "ab"),
        _ => panic!("expected text"),
    }
    match &panel.items[1] {
        PanelItem::GraphicsItem { buf } => assert_eq!(buf.get((1, 1)), Some(Cell::filled())),
        _ => panic!("expected graphics"),
    }
    let graphics = Graphics::new("T".to_string(), Some(panel), GraphicsBuf::new((1, 1)));
    assert_eq!(graphics.side_panel().unwrap().items.len(), 2);
    assert_eq!(graphics.title, "T");
}

#[test]
fn labelled_numbers() {
    assert_eq!(labelled("Score: ", 0), "Score: 0");
    assert_eq!(labelled("Time: ", 1234), "Time: 1234");
}

#[test]
fn labelled_large_numbers() {
    assert_eq!(labelled("", 4294967295), "4294967295");
    assert_eq!(labelled("n=", 10), "n=10");
}
