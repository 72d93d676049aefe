use klondike::card::Card;
use klondike::census::holds_full_deck;
use klondike::game::GameState;
use klondike::geometry::{Quad, Vec2};
use klondike::model::{Cue, HandOrigin, InputEvent};
use klondike::zone::Stack;

fn cards(values: &[u8]) -> Vec<Card> {
    values.iter().map(|v| Card::new(*v)).collect()
}

fn values(cards: &[Card]) -> Vec<u8> {
    cards.iter().map(|c| c.value).collect()
}

fn ordered_deck() -> Vec<Card> {
    (0..52u8).map(Card::new).collect()
}

fn card_quad(x: i64, y: i64) -> Quad {
    Quad { pos: Vec2 { x, y }, size: Vec2 { x: 160, y: 240 } }
}

/// A table with the given columns (cards and how many of them lie face up),
/// talon and foundations; the stock takes the cards that are left, in
/// ascending order. Nothing is in the hand.
fn table(columns: [(&[u8], u8); 7], talon: &[u8], foundations: [&[u8]; 4]) -> GameState {
    let mut game = GameState::deal(ordered_deck());
    let mut used = [false; 52];
    for (t, (column, shown)) in columns.iter().enumerate() {
        game.tableaux[t].cards = cards(column);
        game.tableaux[t].shown_cards = *shown;
        game.tableaux[t].calculate_card_quads();
        for v in column.iter() {
            used[*v as usize] = true;
        }
    }
    game.talon.cards = cards(talon);
    for v in talon {
        used[*v as usize] = true;
    }
    for (f, pile) in foundations.iter().enumerate() {
        game.foundations[f].cards = cards(pile);
        for v in pile.iter() {
            used[*v as usize] = true;
        }
    }
    game.stock.cards = (0..52u8).filter(|v| !used[*v as usize]).map(Card::new).collect();
    assert!(game.is_well_formed());
    game
}

/// Moves the pointer to the point `(x, y)` of the virtual screen.
fn point(game: &mut GameState, x: i64, y: i64) {
    let event = InputEvent::CursorMoved { x: (x / 2 + 600) as i32, y: (450 - y / 2) as i32 };
    assert!(game.input(&event));
    assert_eq!(game.mouse_pos, Vec2 { x, y });
}

fn click(game: &mut GameState) {
    assert!(game.input(&InputEvent::LeftPressed));
    assert!(game.is_well_formed());
}

fn column_x(t: i64) -> i64 {
    -700 + 180 * t
}

fn foundation_x(f: i64) -> i64 {
    -160 + 180 * f
}

const NO_COLUMNS: [(&[u8], u8); 7] =
    [(&[], 0), (&[], 0), (&[], 0), (&[], 0), (&[], 0), (&[], 0), (&[], 0)];
const NO_PILES: [&[u8]; 4] = [&[], &[], &[], &[]];

#[test]
fn deal_from_ordered_deck() {
    let game = GameState::deal(ordered_deck());
    assert!(game.is_well_formed());
    let mut next = 0u8;
    for t in 0..7 {
        let tableau = &game.tableaux[t];
        assert_eq!(tableau.cards.len(), t + 1);
        assert_eq!(tableau.shown_cards, 1);
        assert_eq!(tableau.x_position, column_x(t as i64));
        assert_eq!(tableau.card_quads.len(), t + 1);
        for (i, card) in tableau.cards.iter().enumerate() {
            assert_eq!(card.value, next);
            assert_eq!(tableau.card_quads[i], card_quad(column_x(t as i64), -70 * i as i64));
            next += 1;
        }
    }
    assert_eq!(game.stock.cards.len(), 24);
    assert_eq!(values(&game.stock.cards), (28..52u8).collect::<Vec<u8>>());
    assert_eq!(game.stock.quad, card_quad(-700, 350));
    assert!(game.talon.cards.is_empty());
    assert_eq!(game.talon.quad, card_quad(-520, 350));
    for f in 0..4 {
        assert!(game.foundations[f].cards.is_empty());
        assert_eq!(game.foundations[f].quad, card_quad(foundation_x(f as i64), 350));
    }
    assert!(game.hand.cards.is_empty());
    assert_eq!(game.hand.quad, card_quad(0, 0));
    assert_eq!(game.hand_origin, HandOrigin::Talon);
    assert_eq!(game.mouse_pos, Vec2 { x: 0, y: 0 });
    assert_eq!(game.tick, 0);
    assert!(game.cues.is_empty());
}

#[test]
fn new_game_is_dealt_from_a_full_deck() {
    for _ in 0..20 {
        let game = GameState::new();
        assert!(game.is_well_formed());
        for t in 0..7 {
            assert_eq!(game.tableaux[t].cards.len(), t + 1);
            assert_eq!(game.tableaux[t].shown_cards, 1);
        }
        assert_eq!(game.stock.cards.len(), 24);
        assert!(game.talon.cards.is_empty());
        assert!(game.hand.cards.is_empty());
        assert!(game.foundations.iter().all(|f| f.cards.is_empty()));
    }
}

#[test]
fn random_deck_is_a_full_deck() {
    let mut orders: Vec<Vec<u8>> = vec![];
    for _ in 0..10 {
        let deck = Stack::random_deck();
        assert_eq!(deck.cards.len(), 52);
        assert!(holds_full_deck(&deck.cards));
        assert_eq!(deck.quad, card_quad(-700, 350));
        orders.push(values(&deck.cards));
    }
    // ten shuffles that all come out alike would be no shuffles
    assert!(orders.iter().any(|order| *order != orders[0]));
}

#[test]
fn fill_tableaux_takes_the_front_of_the_deck() {
    let mut deck = Stack { cards: cards(&(10..40u8).collect::<Vec<u8>>()), quad: card_quad(1, 2) };
    let tableaux = GameState::fill_tableaux(&mut deck);
    assert_eq!(values(&tableaux[0].cards), vec![10]);
    assert_eq!(values(&tableaux[1].cards), vec![11, 12]);
    assert_eq!(values(&tableaux[6].cards), vec![31, 32, 33, 34, 35, 36, 37]);
    assert_eq!(values(&deck.cards), vec![38, 39]);
    assert_eq!(deck.quad, card_quad(1, 2));
    assert_eq!(tableaux[6].card_quads[6], card_quad(380, -420));
}

#[test]
fn create_foundations_side_by_side() {
    let foundations = GameState::create_foundations();
    assert_eq!(foundations[0].quad, card_quad(-160, 350));
    assert_eq!(foundations[1].quad, card_quad(20, 350));
    assert_eq!(foundations[2].quad, card_quad(200, 350));
    assert_eq!(foundations[3].quad, card_quad(380, 350));
    assert!(foundations.iter().all(|f| f.cards.is_empty()));
}

#[test]
fn cursor_transform() {
    let mut game = GameState::deal(ordered_deck());
    assert!(game.input(&InputEvent::CursorMoved { x: 600, y: 450 }));
    assert_eq!(game.mouse_pos, Vec2 { x: 0, y: 0 });
    game.input(&InputEvent::CursorMoved { x: 0, y: 0 });
    assert_eq!(game.mouse_pos, Vec2 { x: -1200, y: 900 });
    game.input(&InputEvent::CursorMoved { x: 1200, y: 900 });
    assert_eq!(game.mouse_pos, Vec2 { x: 1200, y: -900 });
    game.cursor_moved(i32::MAX, i32::MIN);
    assert_eq!(game.mouse_pos, Vec2 { x: 4294966094, y: 4294968196 });
    game.cursor_moved(i32::MIN, i32::MAX);
    assert_eq!(game.mouse_pos, Vec2 { x: -4294968496, y: -4294966394 });
    assert!(game.is_well_formed());
}

#[test]
fn other_events_are_not_taken() {
    let mut game = GameState::deal(ordered_deck());
    let before = format!("{:?}", game);
    assert!(!game.input(&InputEvent::Other));
    assert_eq!(format!("{:?}", game), before);
}

#[test]
fn stock_click_deals_one_card() {
    let mut game = GameState::deal(ordered_deck());
    point(&mut game, -700, 350);
    click(&mut game);
    assert_eq!(game.stock.cards.len(), 23);
    assert_eq!(values(&game.talon.cards), vec![51]);
    click(&mut game);
    assert_eq!(game.stock.cards.len(), 22);
    assert_eq!(values(&game.talon.cards), vec![50, 51]);
    assert_eq!(values(&game.stock.cards), (28..50u8).collect::<Vec<u8>>());
    assert!(game.hand.cards.is_empty());
    for t in 0..7 {
        assert_eq!(game.tableaux[t].cards.len(), t + 1);
    }
    assert_eq!(game.take_cues(), vec![Cue::Place, Cue::Place]);
}

#[test]
fn stock_click_on_the_border_counts() {
    let mut game = GameState::deal(ordered_deck());
    point(&mut game, -620, 230);
    click(&mut game);
    assert_eq!(game.talon.cards.len(), 1);
    point(&mut game, -618, 230);
    click(&mut game);
    assert_eq!(game.talon.cards.len(), 1);
    assert!(game.hand.cards.is_empty());
}

#[test]
fn stock_click_recycles_the_talon() {
    let mut game = table(NO_COLUMNS, &[], NO_PILES);
    game.talon.cards = std::mem::take(&mut game.stock.cards);
    assert!(game.is_well_formed());
    let talon_before = values(&game.talon.cards);
    assert_eq!(talon_before.len(), 52);
    point(&mut game, -700, 350);
    click(&mut game);
    assert_eq!(values(&game.stock.cards), talon_before);
    assert!(game.talon.cards.is_empty());
    assert_eq!(game.cues, vec![Cue::Place]);
    // the next click deals the card that was dealt first
    click(&mut game);
    assert_eq!(values(&game.talon.cards), vec![51]);
    assert_eq!(game.stock.cards.len(), 51);
}

#[test]
fn dealing_through_the_stock_and_back() {
    let mut game = GameState::deal(ordered_deck());
    point(&mut game, -700, 350);
    for _ in 0..24 {
        click(&mut game);
    }
    assert!(game.stock.cards.is_empty());
    assert_eq!(values(&game.talon.cards), (28..52u8).collect::<Vec<u8>>());
    click(&mut game);
    assert_eq!(values(&game.stock.cards), (28..52u8).collect::<Vec<u8>>());
    assert!(game.talon.cards.is_empty());
}

#[test]
fn stock_click_with_nothing_to_deal() {
    let all: Vec<u8> = (0..52u8).collect();
    let mut game = table(
        [(&all, 52), (&[], 0), (&[], 0), (&[], 0), (&[], 0), (&[], 0), (&[], 0)],
        &[],
        NO_PILES,
    );
    point(&mut game, -700, 350);
    click(&mut game);
    assert!(game.stock.cards.is_empty());
    assert!(game.talon.cards.is_empty());
    assert!(game.hand.cards.is_empty());
    assert_eq!(game.tableaux[0].cards.len(), 52);
    assert_eq!(game.cues, vec![Cue::Place]);
}

#[test]
fn talon_click_lifts_the_front_card() {
    let mut game = table(NO_COLUMNS, &[7, 8, 9], NO_PILES);
    point(&mut game, -520, 350);
    click(&mut game);
    assert_eq!(values(&game.hand.cards), vec![7]);
    assert_eq!(values(&game.talon.cards), vec![8, 9]);
    assert_eq!(game.hand_origin, HandOrigin::Talon);
    assert_eq!(game.cues, vec![Cue::Pickup]);
}

#[test]
fn empty_talon_gives_nothing() {
    let mut game = GameState::deal(ordered_deck());
    point(&mut game, -520, 350);
    let before = format!("{:?}", game);
    click(&mut game);
    assert_eq!(format!("{:?}", game), before);
}

#[test]
fn click_on_nothing_changes_nothing() {
    let mut game = GameState::deal(ordered_deck());
    point(&mut game, 1000, -800);
    let before = format!("{:?}", game);
    click(&mut game);
    assert_eq!(format!("{:?}", game), before);
}

#[test]
fn column_click_lifts_a_run() {
    let mut game = table(
        [(&[30, 18, 4, 16], 3), (&[5], 1), (&[], 0), (&[], 0), (&[], 0), (&[], 0), (&[], 0)],
        &[],
        NO_PILES,
    );
    // card 2 of column 0 lies at y = -140; above the upper edge of card 3 only it is hit
    point(&mut game, column_x(0), -30);
    click(&mut game);
    assert_eq!(values(&game.hand.cards), vec![4, 16]);
    assert_eq!(values(&game.tableaux[0].cards), vec![30, 18]);
    assert_eq!(game.tableaux[0].shown_cards, 1);
    assert_eq!(game.tableaux[0].card_quads, vec![card_quad(-700, 0), card_quad(-700, -70)]);
    assert_eq!(game.hand_origin, HandOrigin::Tableau(0));
    assert_eq!(game.cues, vec![Cue::Pickup]);
}

#[test]
fn column_click_prefers_the_card_on_top() {
    let mut game = table(
        [(&[30, 18, 4, 16], 3), (&[], 0), (&[], 0), (&[], 0), (&[], 0), (&[], 0), (&[], 0)],
        &[],
        NO_PILES,
    );
    point(&mut game, column_x(0), -140);
    click(&mut game);
    assert_eq!(values(&game.hand.cards), vec![16]);
    assert_eq!(game.tableaux[0].shown_cards, 2);
}

#[test]
fn face_down_cards_cannot_be_lifted() {
    let mut game = table(
        [(&[30, 18, 4, 16], 1), (&[], 0), (&[], 0), (&[], 0), (&[], 0), (&[], 0), (&[], 0)],
        &[],
        NO_PILES,
    );
    // only the face-down cards 0 to 2 lie under the pointer
    point(&mut game, column_x(0), 100);
    let before = format!("{:?}", game);
    click(&mut game);
    assert_eq!(format!("{:?}", game), before);
}

#[test]
fn foundation_click_lifts_the_front_card() {
    let mut game = table(NO_COLUMNS, &[], [&[], &[], &[14, 13], &[]]);
    point(&mut game, foundation_x(2), 350);
    click(&mut game);
    assert_eq!(values(&game.hand.cards), vec![14]);
    assert_eq!(values(&game.foundations[2].cards), vec![13]);
    assert_eq!(game.hand_origin, HandOrigin::Foundation(2));
    assert_eq!(game.cues, vec![Cue::Pickup]);
}

#[test]
fn tableau_move_accepted() {
    // red 5 (17) in column 0, black 6 (5) in column 1
    let mut game = table(
        [(&[30, 17], 1), (&[40, 5], 1), (&[], 0), (&[], 0), (&[], 0), (&[], 0), (&[], 0)],
        &[],
        NO_PILES,
    );
    point(&mut game, column_x(0), -70);
    click(&mut game);
    assert_eq!(values(&game.hand.cards), vec![17]);
    assert_eq!(game.tableaux[0].shown_cards, 0);
    point(&mut game, column_x(1), -70);
    click(&mut game);
    assert!(game.hand.cards.is_empty());
    assert_eq!(values(&game.tableaux[1].cards), vec![40, 5, 17]);
    assert_eq!(game.tableaux[1].shown_cards, 2);
    assert_eq!(game.tableaux[1].card_quads.len(), 3);
    assert_eq!(game.tableaux[1].card_quads[2], card_quad(column_x(1), -140));
    // the card beneath the lifted one was turned up
    assert_eq!(values(&game.tableaux[0].cards), vec![30]);
    assert_eq!(game.tableaux[0].shown_cards, 1);
    assert_eq!(game.cues, vec![Cue::Pickup, Cue::Place]);
}

#[test]
fn tableau_move_of_a_run() {
    // black 6, red 5 in column 0; red 7 (19) in column 1
    let mut game = table(
        [(&[30, 5, 17], 2), (&[19], 1), (&[], 0), (&[], 0), (&[], 0), (&[], 0), (&[], 0)],
        &[],
        NO_PILES,
    );
    point(&mut game, column_x(0), 40);
    click(&mut game);
    assert_eq!(values(&game.hand.cards), vec![5, 17]);
    point(&mut game, column_x(1), 0);
    click(&mut game);
    assert_eq!(values(&game.tableaux[1].cards), vec![19, 5, 17]);
    assert_eq!(game.tableaux[1].shown_cards, 3);
    assert_eq!(game.tableaux[0].shown_cards, 1);
    assert!(game.hand.cards.is_empty());
}

#[test]
fn tableau_move_rejected_same_colour() {
    // red 5 (17) on red 6 (44)
    let mut game = table(
        [(&[30, 17], 1), (&[40, 44], 1), (&[], 0), (&[], 0), (&[], 0), (&[], 0), (&[], 0)],
        &[],
        NO_PILES,
    );
    point(&mut game, column_x(0), -70);
    click(&mut game);
    point(&mut game, column_x(1), -70);
    let before = format!("{:?}", game);
    click(&mut game);
    assert_eq!(format!("{:?}", game), before);
    assert_eq!(values(&game.hand.cards), vec![17]);
    assert_eq!(values(&game.tableaux[1].cards), vec![40, 44]);
}

#[test]
fn tableau_move_rejected_wrong_rank() {
    // black 5 (4) on red 8 (20)
    let mut game = table(
        [(&[30, 4], 1), (&[40, 20], 1), (&[], 0), (&[], 0), (&[], 0), (&[], 0), (&[], 0)],
        &[],
        NO_PILES,
    );
    point(&mut game, column_x(0), -70);
    click(&mut game);
    point(&mut game, column_x(1), -70);
    click(&mut game);
    assert_eq!(values(&game.hand.cards), vec![4]);
    assert_eq!(values(&game.tableaux[1].cards), vec![40, 20]);
    assert_eq!(game.tableaux[0].shown_cards, 0);
    assert_eq!(game.cues, vec![Cue::Pickup]);
}

#[test]
fn empty_column_takes_any_card() {
    let mut game = table(
        [(&[30, 4], 1), (&[], 0), (&[], 0), (&[], 0), (&[], 0), (&[], 0), (&[], 0)],
        &[],
        NO_PILES,
    );
    point(&mut game, column_x(0), -70);
    click(&mut game);
    point(&mut game, column_x(1), 0);
    click(&mut game);
    assert_eq!(values(&game.tableaux[1].cards), vec![4]);
    assert_eq!(game.tableaux[1].shown_cards, 1);
    assert_eq!(game.tableaux[0].shown_cards, 1);
}

#[test]
fn drop_needs_the_last_quad_of_the_column() {
    let mut game = table(
        [
            (&[30, 17], 1),
            (&[40, 41, 42, 43, 5], 1),
            (&[], 0),
            (&[], 0),
            (&[], 0),
            (&[], 0),
            (&[], 0),
        ],
        &[],
        NO_PILES,
    );
    point(&mut game, column_x(0), -70);
    click(&mut game);
    // the last card of column 1 lies at y = -280; its upper edge is at -160
    point(&mut game, column_x(1), -158);
    click(&mut game);
    assert_eq!(values(&game.hand.cards), vec![17]);
    point(&mut game, column_x(1), -160);
    click(&mut game);
    assert!(game.hand.cards.is_empty());
    assert_eq!(game.tableaux[1].cards.len(), 6);
}

#[test]
fn drop_back_on_the_own_column() {
    // red 5 on black 6, both face up; the 5 is lifted and laid back
    let mut game = table(
        [(&[5, 17], 2), (&[], 0), (&[], 0), (&[], 0), (&[], 0), (&[], 0), (&[], 0)],
        &[],
        NO_PILES,
    );
    point(&mut game, column_x(0), -70);
    click(&mut game);
    assert_eq!(values(&game.hand.cards), vec![17]);
    point(&mut game, column_x(0), 0);
    click(&mut game);
    assert!(game.hand.cards.is_empty());
    assert_eq!(values(&game.tableaux[0].cards), vec![5, 17]);
    assert_eq!(game.tableaux[0].shown_cards, 2);
}

#[test]
fn foundation_drop_accepts_the_next_card() {
    let mut game = table(
        [(&[30, 1], 1), (&[40, 14], 1), (&[], 0), (&[], 0), (&[], 0), (&[], 0), (&[], 0)],
        &[],
        [&[0], &[], &[], &[]],
    );
    // the two of hearts is refused on the ace of spades
    point(&mut game, column_x(1), -70);
    click(&mut game);
    point(&mut game, foundation_x(0), 350);
    click(&mut game);
    assert_eq!(values(&game.hand.cards), vec![14]);
    // and on an empty foundation
    point(&mut game, foundation_x(1), 350);
    click(&mut game);
    assert_eq!(values(&game.hand.cards), vec![14]);
    game.return_card();
    assert!(game.is_well_formed());
    // the two of spades is accepted
    point(&mut game, column_x(0), -70);
    click(&mut game);
    assert_eq!(values(&game.hand.cards), vec![1]);
    point(&mut game, foundation_x(0), 350);
    click(&mut game);
    assert!(game.hand.cards.is_empty());
    assert_eq!(values(&game.foundations[0].cards), vec![1, 0]);
    assert_eq!(game.tableaux[0].shown_cards, 1);
    assert_eq!(game.take_cues(), vec![Cue::Pickup, Cue::Place, Cue::Pickup, Cue::Place]);
    assert!(game.cues.is_empty());
}

#[test]
fn foundation_drop_of_an_ace() {
    let mut game = table(NO_COLUMNS, &[13], NO_PILES);
    point(&mut game, -520, 350);
    click(&mut game);
    point(&mut game, foundation_x(3), 350);
    click(&mut game);
    assert_eq!(values(&game.foundations[3].cards), vec![13]);
    assert!(game.hand.cards.is_empty());
}

#[test]
fn foundation_refuses_more_than_one_card() {
    // ace and two of spades lifted together
    let mut game = table(
        [(&[0, 1], 2), (&[], 0), (&[], 0), (&[], 0), (&[], 0), (&[], 0), (&[], 0)],
        &[],
        NO_PILES,
    );
    point(&mut game, column_x(0), 100);
    click(&mut game);
    assert_eq!(values(&game.hand.cards), vec![0, 1]);
    point(&mut game, foundation_x(0), 350);
    click(&mut game);
    assert_eq!(values(&game.hand.cards), vec![0, 1]);
    assert!(game.foundations[0].cards.is_empty());
}

#[test]
fn return_card_restores_the_column() {
    let mut game = table(
        [(&[30, 18, 4, 16], 3), (&[], 0), (&[], 0), (&[], 0), (&[], 0), (&[], 0), (&[], 0)],
        &[],
        NO_PILES,
    );
    let cards_before = values(&game.tableaux[0].cards);
    let quads_before = game.tableaux[0].card_quads.clone();
    point(&mut game, column_x(0), 40);
    click(&mut game);
    assert_eq!(values(&game.hand.cards), vec![18, 4, 16]);
    assert_eq!(game.tableaux[0].shown_cards, 0);
    assert!(game.input(&InputEvent::SpacePressed));
    assert!(game.is_well_formed());
    assert!(game.hand.cards.is_empty());
    assert_eq!(values(&game.tableaux[0].cards), cards_before);
    assert_eq!(game.tableaux[0].shown_cards, 3);
    assert_eq!(game.tableaux[0].card_quads, quads_before);
    assert_eq!(game.cues, vec![Cue::Pickup, Cue::Place]);
}

#[test]
fn return_card_to_talon_and_foundation() {
    let mut game = table(NO_COLUMNS, &[7, 8], [&[], &[27, 26], &[], &[]]);
    point(&mut game, -520, 350);
    click(&mut game);
    game.return_card();
    assert_eq!(values(&game.talon.cards), vec![7, 8]);
    assert!(game.hand.cards.is_empty());
    point(&mut game, foundation_x(1), 350);
    click(&mut game);
    assert_eq!(values(&game.hand.cards), vec![27]);
    game.return_card();
    assert_eq!(values(&game.foundations[1].cards), vec![27, 26]);
    assert!(game.hand.cards.is_empty());
    assert!(game.is_well_formed());
}

#[test]
fn return_card_with_empty_hand_does_nothing() {
    let mut game = GameState::deal(ordered_deck());
    let before = format!("{:?}", game);
    game.return_card();
    assert_eq!(format!("{:?}", game), before);
}

#[test]
fn stock_is_not_served_while_holding() {
    let mut game = table(NO_COLUMNS, &[7], NO_PILES);
    point(&mut game, -520, 350);
    click(&mut game);
    point(&mut game, -700, 350);
    let before = format!("{:?}", game);
    click(&mut game);
    assert_eq!(format!("{:?}", game), before);
}

#[test]
fn update_gathers_time() {
    let mut game = table(NO_COLUMNS, &[7], NO_PILES);
    game.mouse_pos = Vec2 { x: 10, y: 20 };
    // a sixtieth of a second is 16_666_666 and two thirds nanoseconds
    game.update(16_666_666);
    assert_eq!(game.tick, 999_999_960);
    assert_eq!(game.hand.quad.pos, Vec2 { x: 0, y: 0 });
    game.update(0);
    assert_eq!(game.tick, 999_999_960);
    // exactly one step is not yet more than one step
    game.tick = 0;
    game.update(0);
    game.tick = 999_999_940;
    game.update(1);
    assert_eq!(game.tick, 1_000_000_000);
    assert_eq!(game.hand.quad.pos, Vec2 { x: 0, y: 0 });
    game.update(1);
    assert_eq!(game.tick, 60);
    assert_eq!(game.hand.quad.pos, Vec2 { x: 10, y: 20 });
    assert_eq!(game.hand.quad.size, Vec2 { x: 160, y: 240 });
    assert!(game.is_well_formed());
}

#[test]
fn update_takes_one_step_at_a_time() {
    let mut game = GameState::deal(ordered_deck());
    game.update(1_000_000_000);
    assert_eq!(game.tick, 59_000_000_000);
    game.update(0);
    assert_eq!(game.tick, 58_000_000_000);
}

#[test]
fn update_stops_at_the_top_of_the_clock() {
    let mut game = GameState::deal(ordered_deck());
    game.tick = u128::MAX - 5;
    game.update(1);
    assert_eq!(game.tick, u128::MAX - 1_000_000_000);
    game.tick = u128::MAX;
    game.update(u64::MAX);
    assert_eq!(game.tick, u128::MAX - 1_000_000_000);
}

#[test]
fn deck_stays_whole_through_a_game() {
    let mut game = GameState::new();
    let points: [(i64, i64); 14] = [
        (-700, 350),
        (-520, 350),
        (-700, 0),
        (-520, -70),
        (-340, -140),
        (-160, -210),
        (20, -280),
        (200, -350),
        (380, -420),
        (-160, 350),
        (20, 350),
        (200, 350),
        (380, 350),
        (900, 0),
    ];
    let mut step = 0usize;
    for round in 0..400usize {
        step = (step * 7 + round * 3 + 1) % points.len();
        let (x, y) = points[step];
        point(&mut game, x, y);
        click(&mut game);
        if round % 5 == 4 {
            game.return_card();
            assert!(game.is_well_formed());
            assert!(game.hand.cards.is_empty());
        }
        game.update(5_000_000);
        assert!(game.is_well_formed());
        let held = game.hand.cards.len();
        let total: usize = game.stock.cards.len()
            + game.talon.cards.len()
            + game.tableaux.iter().map(|t| t.cards.len()).sum::<usize>()
            + game.foundations.iter().map(|f| f.cards.len()).sum::<usize>()
            + held;
        assert_eq!(total, 52);
        if held == 0 {
            for tableau in game.tableaux.iter() {
                assert!(tableau.cards.is_empty() || tableau.shown_cards >= 1);
            }
        }
    }
}
