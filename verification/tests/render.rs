use klondike::card::Card;
use klondike::game::GameState;
use klondike::geometry::{Quad, Vec2};
use klondike::render::{
    create_buffers, create_quad, index_from_card, stack_index, uv_from_index, Vertex,
    SPRITE_COLUMNS, SPRITE_ROWS,
};
use klondike::zone::Stack;

fn ordered_deck() -> Vec<Card> {
    (0..52u8).map(Card::new).collect()
}

fn vertex(x: i128, y: i128, u: u16, v: u16) -> Vertex {
    Vertex { position: [x, y, 0], tex_coords: [u, v] }
}

/// The four corners of a card-sized quad centred on `(x, y)` with the cell
/// `(column, row)`.
fn card_corners(x: i128, y: i128, column: u16, row: u16) -> Vec<Vertex> {
    vec![
        vertex(2 * x + 160, 2 * y + 240, column + 1, row),
        vertex(2 * x - 160, 2 * y + 240, column, row),
        vertex(2 * x - 160, 2 * y - 240, column, row + 1),
        vertex(2 * x + 160, 2 * y - 240, column + 1, row + 1),
    ]
}

#[test]
fn sprite_sheet_cells() {
    assert_eq!((SPRITE_COLUMNS, SPRITE_ROWS), (13, 5));
    assert_eq!(index_from_card(0), [0, 0]);
    assert_eq!(index_from_card(12), [12, 0]);
    assert_eq!(index_from_card(13), [0, 1]);
    assert_eq!(index_from_card(51), [12, 3]);
    assert_eq!(index_from_card(255), [8, 19]);
}

#[test]
fn stack_cell_is_front_card_or_empty_slot() {
    let mut stack = Stack::empty();
    assert_eq!(stack_index(&stack), [1, 4]);
    stack.cards.push(Card::new(30));
    stack.cards.push(Card::new(2));
    assert_eq!(stack_index(&stack), [4, 2]);
}

#[test]
fn uv_moves_to_the_cell() {
    assert_eq!(uv_from_index([0, 0], [0, 0]), [0, 0]);
    assert_eq!(uv_from_index([1, 0], [12, 3]), [13, 3]);
    assert_eq!(uv_from_index([0, 1], [1, 4]), [1, 5]);
    assert_eq!(uv_from_index([255, 255], [255, 255]), [510, 510]);
}

#[test]
fn create_quad_appends_four_corners_and_two_triangles() {
    let mut verts = vec![];
    let mut indis = vec![];
    let quad = Quad { pos: Vec2 { x: -700, y: 350 }, size: Vec2 { x: 160, y: 240 } };
    create_quad(&quad, [0, 4], &mut verts, &mut indis);
    assert_eq!(
        verts,
        vec![
            vertex(-1240, 940, 1, 4),
            vertex(-1560, 940, 0, 4),
            vertex(-1560, 460, 0, 5),
            vertex(-1240, 460, 1, 5),
        ]
    );
    assert_eq!(indis, vec![0, 1, 2, 0, 2, 3]);
    let odd = Quad { pos: Vec2 { x: 1, y: -1 }, size: Vec2 { x: 3, y: 5 } };
    create_quad(&odd, [12, 3], &mut verts, &mut indis);
    assert_eq!(verts.len(), 8);
    assert_eq!(
        verts[4..].to_vec(),
        vec![vertex(5, 3, 13, 3), vertex(-1, 3, 12, 3), vertex(-1, -7, 12, 4), vertex(5, -7, 13, 4)]
    );
    assert_eq!(indis, vec![0, 1, 2, 0, 2, 3, 4, 5, 6, 4, 6, 7]);
}

#[test]
fn buffers_of_a_fresh_game() {
    let game = GameState::deal(ordered_deck());
    let (verts, indis) = create_buffers(&game);
    // stock, talon, 28 cards in the columns, 4 foundations, empty hand
    assert_eq!(verts.len(), 4 * 34);
    assert_eq!(indis.len(), 6 * 34);
    // the stock shows a back
    assert_eq!(verts[0..4].to_vec(), card_corners(-700, 350, 0, 4));
    // the talon is an empty slot
    assert_eq!(verts[4..8].to_vec(), card_corners(-520, 350, 1, 4));
    // column 0: the ace of spades, face up
    assert_eq!(verts[8..12].to_vec(), card_corners(-700, 0, 0, 0));
    // column 1: card 1 face down, card 2 face up
    assert_eq!(verts[12..16].to_vec(), card_corners(-520, 0, 0, 4));
    assert_eq!(verts[16..20].to_vec(), card_corners(-520, -70, 2, 0));
    // the last card of the last column: ordinal 27, the two of clubs
    assert_eq!(verts[116..120].to_vec(), card_corners(380, -420, 1, 2));
    // the foundations are empty slots
    assert_eq!(verts[120..124].to_vec(), card_corners(-160, 350, 1, 4));
    assert_eq!(verts[132..136].to_vec(), card_corners(380, 350, 1, 4));
    for k in 0..34u16 {
        let at = 6 * k as usize;
        assert_eq!(
            indis[at..at + 6].to_vec(),
            vec![4 * k, 4 * k + 1, 4 * k + 2, 4 * k, 4 * k + 2, 4 * k + 3]
        );
    }
}

#[test]
fn buffers_show_talon_foundation_and_hand() {
    let mut game = GameState::deal(ordered_deck());
    // three cards to the talon; the king of diamonds, dealt first, ends up last
    for _ in 0..3 {
        let card = game.stock.cards.pop().unwrap();
        game.talon.cards.insert(0, card);
    }
    // the ace of spades to a foundation
    let ace = game.tableaux[0].cards.pop().unwrap();
    game.tableaux[0].shown_cards = 0;
    game.tableaux[0].calculate_card_quads();
    game.foundations[1].cards.push(ace);
    // two cards of the last column to the hand
    game.hand.cards = game.tableaux[6].drain_from(6);
    let more = game.tableaux[5].drain_from(5);
    game.hand.cards.extend(more);
    game.hand_origin = klondike::model::HandOrigin::Tableau(6);
    game.hand.quad.pos = Vec2 { x: 100, y: -50 };
    assert!(game.is_well_formed());

    let (verts, indis) = create_buffers(&game);
    // stock, talon, 25 cards in the columns, 4 foundations, 2 cards in the hand
    assert_eq!(verts.len(), 4 * 33);
    assert_eq!(indis.len(), 6 * 33);
    assert_eq!(verts[0..4].to_vec(), card_corners(-700, 350, 0, 4));
    // the talon shows its front card: ordinal 49, the jack of diamonds
    assert_eq!(verts[4..8].to_vec(), card_corners(-520, 350, 10, 3));
    // the empty column 0 draws nothing: next comes column 1
    assert_eq!(verts[8..12].to_vec(), card_corners(-520, 0, 0, 4));
    // foundations follow the 25 cards of the columns
    assert_eq!(verts[108..112].to_vec(), card_corners(-160, 350, 1, 4));
    assert_eq!(verts[112..116].to_vec(), card_corners(20, 350, 0, 0));
    // the hand: ordinals 27 and 20, fanned from the hand's place
    assert_eq!(verts[124..128].to_vec(), card_corners(100, -50, 1, 2));
    assert_eq!(verts[128..132].to_vec(), card_corners(100, -120, 7, 1));
    assert_eq!(indis[192..198].to_vec(), vec![128, 129, 130, 128, 130, 131]);
}

#[test]
fn buffers_of_an_empty_stock() {
    let mut game = GameState::deal(ordered_deck());
    game.talon.cards = std::mem::take(&mut game.stock.cards);
    assert!(game.is_well_formed());
    let (verts, _) = create_buffers(&game);
    assert_eq!(verts[0..4].to_vec(), card_corners(-700, 350, 1, 4));
    // the talon's front card is ordinal 28, the three of clubs
    assert_eq!(verts[4..8].to_vec(), card_corners(-520, 350, 2, 2));
}

#[test]
fn buffers_with_a_far_away_hand() {
    let mut game = GameState::deal(ordered_deck());
    game.tableaux[6].shown_cards = 2;
    game.hand.cards = game.tableaux[6].drain_from(5);
    game.hand_origin = klondike::model::HandOrigin::Tableau(6);
    game.hand.quad.pos = Vec2 { x: i64::MAX, y: i64::MIN };
    assert!(game.is_well_formed());
    let (verts, _) = create_buffers(&game);
    let n = verts.len();
    let x = i64::MAX as i128;
    let y = i64::MIN as i128;
    assert_eq!(verts[n - 8..n - 4].to_vec(), card_corners(x, y, 0, 2));
    assert_eq!(verts[n - 4..].to_vec(), card_corners(x, y - 70, 1, 2));
}
