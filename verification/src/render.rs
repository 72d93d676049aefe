//! What a renderer draws for a game: one textured quad for each visible
//! card or empty slot, as four vertices and six indices.
//!
//! Everything stays in whole numbers. A vertex position is given in half
//! units of the virtual screen: divided by twice the window's width and
//! height it is the normalised device coordinate. A texture coordinate
//! counts cells of the sprite sheet: divided by the sheet's 13 columns and
//! 5 rows it is the usual coordinate between 0 and 1.

use vstd::prelude::*;
use crate::card::{Card, RANKS};
use crate::counting::lemma_full_deck_len;
use crate::game::GameState;
use crate::geometry::{Quad, CARD_HEIGHT, CARD_WIDTH, FAN_OFFSET};
use crate::model::{columns_cards, stacks_cards, GameView};
use crate::zone::{Stack, StackView, Tableau, TableauView};

verus! {

/// Columns of the sprite sheet: one for each rank.
pub const SPRITE_COLUMNS: u8 = 13;

/// Rows of the sprite sheet: one for each suit, and one for the back of a
/// card and the empty slot.
pub const SPRITE_ROWS: u8 = 5;

/// A corner of a textured quad.
#[derive(Debug, Clone, Copy, PartialEq, Eq)]
pub struct Vertex {
    /// x and y in half units of the virtual screen; z is 0.
    pub position: [i128; 3],
    /// Column and row on the sprite sheet, counted in cells.
    pub tex_coords: [u16; 2],
}

/// One quad to draw: its centre and size on the virtual screen and its
/// cell on the sprite sheet.
pub struct Sprite {
    pub x: int,
    pub y: int,
    pub width: int,
    pub height: int,
    pub cell: [u8; 2],
}

/// The cell of a card: its rank is the column, its suit the row.
pub open spec fn card_cell(card: u8) -> [u8; 2] {
    [card % RANKS, card / RANKS]
}

/// The cell that shows the back of a card.
pub open spec fn back_cell() -> [u8; 2] {
    [0u8, 4u8]
}

/// The cell that shows an empty slot.
pub open spec fn empty_cell() -> [u8; 2] {
    [1u8, 4u8]
}

/// The cell of a stack that shows its front card.
pub open spec fn stack_cell(cards: Seq<Card>) -> [u8; 2] {
    if cards.len() == 0 {
        empty_cell()
    } else {
        card_cell(cards[0].value)
    }
}

/// A corner's texture coordinate within a cell, moved to the cell.
pub open spec fn spec_uv_from_index(uv: [u8; 2], sprite_index: [u8; 2]) -> [u16; 2] {
    [(uv[0] + sprite_index[0]) as u16, (uv[1] + sprite_index[1]) as u16]
}

/// The four corners of a quad, anticlockwise from the upper right: whether
/// the corner lies right of the centre, whether it lies above it, and its
/// texture coordinate within a cell. The texture's y axis points down.
pub open spec fn corner(k: int) -> (bool, bool, [u8; 2]) {
    if k == 0 {
        (true, true, [1u8, 0u8])
    } else if k == 1 {
        (false, true, [0u8, 0u8])
    } else if k == 2 {
        (false, false, [0u8, 1u8])
    } else {
        (true, false, [1u8, 1u8])
    }
}

/// The two triangles of a quad whose first vertex has index `first`.
pub open spec fn quad_indices(first: int) -> Seq<u16> {
    seq![
        first as u16,
        (first + 1) as u16,
        (first + 2) as u16,
        first as u16,
        (first + 2) as u16,
        (first + 3) as u16,
    ]
}

impl Sprite {
    /// The sprite that fills `quad` with `cell`.
    pub open spec fn of_quad(quad: Quad, cell: [u8; 2]) -> Sprite {
        Sprite {
            x: quad.pos.x as int,
            y: quad.pos.y as int,
            width: quad.size.x as int,
            height: quad.size.y as int,
            cell,
        }
    }

    /// Corner `k` of the sprite.
    pub open spec fn vertex(self, k: int) -> Vertex {
        Vertex {
            position: [
                (if corner(k).0 {
                    2 * self.x + self.width
                } else {
                    2 * self.x - self.width
                }) as i128,
                (if corner(k).1 {
                    2 * self.y + self.height
                } else {
                    2 * self.y - self.height
                }) as i128,
                0i128,
            ],
            tex_coords: spec_uv_from_index(corner(k).2, self.cell),
        }
    }

    /// The four corners of the sprite.
    pub open spec fn vertices(self) -> Seq<Vertex> {
        Seq::new(4, |k: int| self.vertex(k))
    }
}

/// The vertices of some sprites, four for each, in their order.
pub open spec fn sprites_vertices(sprites: Seq<Sprite>) -> Seq<Vertex>
    decreases sprites.len(),
{
    if sprites.len() == 0 {
        Seq::empty()
    } else {
        sprites_vertices(sprites.drop_last()) + sprites.last().vertices()
    }
}

/// The indices of some sprites, six for each: sprite `k` uses the vertices
/// from `4 * k` on.
pub open spec fn sprites_indices(sprites: Seq<Sprite>) -> Seq<u16>
    decreases sprites.len(),
{
    if sprites.len() == 0 {
        Seq::empty()
    } else {
        sprites_indices(sprites.drop_last()) + quad_indices(4 * (sprites.len() - 1))
    }
}

/// A stack drawn by its front card, or as an empty slot.
pub open spec fn stack_sprite(stack: StackView) -> Sprite {
    Sprite::of_quad(stack.quad, stack_cell(stack.cards))
}

/// The stock: the back of a card, or an empty slot.
pub open spec fn stock_sprite(stock: StackView) -> Sprite {
    Sprite::of_quad(
        stock.quad,
        if stock.cards.len() == 0 {
            empty_cell()
        } else {
            back_cell()
        },
    )
}

/// Card `i` of a column: its face if it lies face up, else its back.
pub open spec fn column_sprite(column: TableauView, i: int) -> Sprite {
    Sprite::of_quad(
        column.card_quads[i],
        if i >= column.first_shown() {
            card_cell(column.cards[i].value)
        } else {
            back_cell()
        },
    )
}

/// The cards of a column. An empty column draws nothing.
pub open spec fn column_sprites(column: TableauView) -> Seq<Sprite> {
    Seq::new(column.cards.len(), |i: int| column_sprite(column, i))
}

/// The cards of some columns, column after column.
pub open spec fn columns_sprites(columns: Seq<TableauView>) -> Seq<Sprite>
    decreases columns.len(),
{
    if columns.len() == 0 {
        Seq::empty()
    } else {
        columns_sprites(columns.drop_last()) + column_sprites(columns.last())
    }
}

/// Card `i` of the hand: face up, fanned downwards from the hand's place.
pub open spec fn hand_sprite(hand: StackView, i: int) -> Sprite {
    Sprite {
        x: hand.quad.pos.x as int,
        y: hand.quad.pos.y - i * FAN_OFFSET,
        width: CARD_WIDTH as int,
        height: CARD_HEIGHT as int,
        cell: card_cell(hand.cards[i].value),
    }
}

/// The cards of the hand.
pub open spec fn hand_sprites(hand: StackView) -> Seq<Sprite> {
    Seq::new(hand.cards.len(), |i: int| hand_sprite(hand, i))
}

/// Everything that is drawn for a game, in drawing order: stock, talon,
/// the columns, the foundations, and the hand on top.
pub open spec fn game_sprites(g: GameView) -> Seq<Sprite> {
    seq![stock_sprite(g.stock), stack_sprite(g.talon)] + columns_sprites(g.tableaux)
        + g.foundations.map_values(|f: StackView| stack_sprite(f)) + hand_sprites(g.hand)
}

/// The cell of a card on the sprite sheet.
pub fn index_from_card(card: u8) -> (cell: [u8; 2])
    ensures
        cell == card_cell(card),
{
    [card % RANKS, card / RANKS]
}

/// The cell of a stack: that of its front card, or the empty slot.
pub fn stack_index(stack: &Stack) -> (cell: [u8; 2])
    ensures
        cell == stack_cell(stack@.cards),
{
    if stack.cards.len() == 0 {
        [1, 4]
    } else {
        index_from_card(stack.cards[0].value)
    }
}

/// Moves a corner's texture coordinate to a cell of the sprite sheet.
pub fn uv_from_index(uv: [u8; 2], sprite_index: [u8; 2]) -> (moved: [u16; 2])
    ensures
        moved == spec_uv_from_index(uv, sprite_index),
{
    [uv[0] as u16 + sprite_index[0] as u16, uv[1] as u16 + sprite_index[1] as u16]
}

/// Appends the vertices and indices of one sprite.
fn push_sprite(
    x: i128,
    y: i128,
    width: i64,
    height: i64,
    sprite_index: [u8; 2],
    verts: &mut Vec<Vertex>,
    indis: &mut Vec<u16>,
)
    requires
        old(verts)@.len() + 3 <= u16::MAX,
        -0x1_0000_0000_0000_0000 <= x <= 0x1_0000_0000_0000_0000,
        -0x1_0000_0000_0000_0000 <= y <= 0x1_0000_0000_0000_0000,
    ensures
        final(verts)@ == old(verts)@ + (Sprite {
            x: x as int,
            y: y as int,
            width: width as int,
            height: height as int,
            cell: sprite_index,
        }).vertices(),
        final(indis)@ == old(indis)@ + quad_indices(old(verts)@.len() as int),
{
    let ghost sprite = Sprite {
        x: x as int,
        y: y as int,
        width: width as int,
        height: height as int,
        cell: sprite_index,
    };
    let first = verts.len() as u16;
    let right = 2 * x + width as i128;
    let left = 2 * x - width as i128;
    let top = 2 * y + height as i128;
    let bottom = 2 * y - height as i128;
    verts.push(
        Vertex { position: [right, top, 0], tex_coords: uv_from_index([1, 0], sprite_index) },
    );
    verts.push(
        Vertex { position: [left, top, 0], tex_coords: uv_from_index([0, 0], sprite_index) },
    );
    verts.push(
        Vertex { position: [left, bottom, 0], tex_coords: uv_from_index([0, 1], sprite_index) },
    );
    verts.push(
        Vertex { position: [right, bottom, 0], tex_coords: uv_from_index([1, 1], sprite_index) },
    );
    indis.push(first);
    indis.push(first + 1);
    indis.push(first + 2);
    indis.push(first);
    indis.push(first + 2);
    indis.push(first + 3);
    proof {
        let n = old(verts)@.len() as int;
        assert forall|k: int| 0 <= k < 4 implies verts@[n + k] == sprite.vertex(k) by {
            assert(verts@[n + k].position =~= sprite.vertex(k).position);
            assert(verts@[n + k].tex_coords =~= sprite.vertex(k).tex_coords);
        }
        assert(verts@ =~= old(verts)@ + sprite.vertices());
        assert(indis@ =~= old(indis)@ + quad_indices(n));
    }
}

/// Appends the four corners of `quad`, textured with the cell
/// `sprite_index`, and the six indices of its two triangles. The indices
/// are 16 bits wide, so the new vertices must still have such an index.
pub fn create_quad(
    quad: &Quad,
    sprite_index: [u8; 2],
    verts: &mut Vec<Vertex>,
    indis: &mut Vec<u16>,
)
    requires
        old(verts)@.len() + 3 <= u16::MAX,
    ensures
        final(verts)@ == old(verts)@ + Sprite::of_quad(*quad, sprite_index).vertices(),
        final(indis)@ == old(indis)@ + quad_indices(old(verts)@.len() as int),
{
    push_sprite(
        quad.pos.x as i128,
        quad.pos.y as i128,
        quad.size.x,
        quad.size.y,
        sprite_index,
        verts,
        indis,
    );
}

/// One more sprite adds its four vertices and its six indices, and each
/// sprite before it has four vertices.
pub proof fn lemma_sprite_pushed(sprites: Seq<Sprite>, sprite: Sprite)
    ensures
        sprites_vertices(sprites.push(sprite)) == sprites_vertices(sprites) + sprite.vertices(),
        sprites_indices(sprites.push(sprite)) == sprites_indices(sprites) + quad_indices(
            4 * (sprites.len() as int),
        ),
        sprites_vertices(sprites).len() == 4 * sprites.len(),
        sprites_indices(sprites).len() == 6 * sprites.len(),
    decreases sprites.len(),
{
    assert(sprites.push(sprite).drop_last() =~= sprites);
    if sprites.len() > 0 {
        lemma_sprite_pushed(sprites.drop_last(), sprites.last());
        assert(sprites.drop_last().push(sprites.last()) =~= sprites);
    }
}

/// The columns before column `t` and column `t` itself draw no more cards
/// than the columns hold.
pub proof fn lemma_columns_sprites_count(columns: Seq<TableauView>, t: int)
    requires
        0 <= t < columns.len(),
    ensures
        columns_sprites(columns.take(t)).len() + columns[t].cards.len() <= columns_cards(
            columns,
        ).len(),
        columns_sprites(columns).len() == columns_cards(columns).len(),
    decreases columns.len(),
{
    broadcast use vstd::seq_lib::group_to_multiset_ensures;
    broadcast use vstd::multiset::group_multiset_axioms;

    let rest = columns.drop_last();
    if rest.len() > 0 {
        lemma_columns_sprites_count(rest, 0);
    } else {
        assert(columns_sprites(rest).len() == 0);
        assert(columns_cards(rest).len() == 0);
    }
    if t == columns.len() - 1 {
        assert(columns.take(t) =~= rest);
    } else {
        assert(columns.take(t) =~= rest.take(t));
        lemma_columns_sprites_count(rest, t);
    }
}

/// Appends one sprite to buffers that hold the sprites `done`.
fn push_quad(
    quad: &Quad,
    sprite_index: [u8; 2],
    verts: &mut Vec<Vertex>,
    indis: &mut Vec<u16>,
    Ghost(done): Ghost<Seq<Sprite>>,
)
    requires
        old(verts)@ == sprites_vertices(done),
        old(indis)@ == sprites_indices(done),
        4 * done.len() + 3 <= u16::MAX,
    ensures
        final(verts)@ == sprites_vertices(done.push(Sprite::of_quad(*quad, sprite_index))),
        final(indis)@ == sprites_indices(done.push(Sprite::of_quad(*quad, sprite_index))),
{
    proof {
        lemma_sprite_pushed(done, Sprite::of_quad(*quad, sprite_index));
    }
    create_quad(quad, sprite_index, verts, indis);
}

/// Appends the cards of a column to buffers that hold the sprites `done`.
fn push_column(
    tableau: &Tableau,
    verts: &mut Vec<Vertex>,
    indis: &mut Vec<u16>,
    Ghost(done): Ghost<Seq<Sprite>>,
)
    requires
        tableau.wf(),
        old(verts)@ == sprites_vertices(done),
        old(indis)@ == sprites_indices(done),
        4 * (done.len() + tableau@.cards.len()) <= u16::MAX,
    ensures
        final(verts)@ == sprites_vertices(done + column_sprites(tableau@)),
        final(indis)@ == sprites_indices(done + column_sprites(tableau@)),
{
    let n = tableau.cards.len();
    let ghost column = tableau@;
    proof {
        assert(done + column_sprites(column).take(0) =~= done);
    }
    for i in 0..n
        invariant
            n == tableau.cards.len(),
            column == tableau@,
            tableau.wf(),
            4 * (done.len() + n) <= u16::MAX,
            verts@ == sprites_vertices(done + column_sprites(column).take(i as int)),
            indis@ == sprites_indices(done + column_sprites(column).take(i as int)),
    {
        let cell = if i >= n - tableau.shown_cards as usize {
            index_from_card(tableau.cards[i].value)
        } else {
            [0, 4]
        };
        let ghost so_far = done + column_sprites(column).take(i as int);
        push_quad(&tableau.card_quads[i], cell, verts, indis, Ghost(so_far));
        proof {
            assert(Sprite::of_quad(tableau.card_quads[i as int], cell) == column_sprite(
                column,
                i as int,
            ));
            assert(so_far.push(column_sprite(column, i as int)) =~= done + column_sprites(
                column,
            ).take(i + 1));
        }
    }
    proof {
        assert(column_sprites(column).take(n as int) =~= column_sprites(column));
    }
}

/// Appends the cards of the hand to buffers that hold the sprites `done`.
fn push_hand(
    hand: &Stack,
    verts: &mut Vec<Vertex>,
    indis: &mut Vec<u16>,
    Ghost(done): Ghost<Seq<Sprite>>,
)
    requires
        old(verts)@ == sprites_vertices(done),
        old(indis)@ == sprites_indices(done),
        4 * (done.len() + hand@.cards.len()) <= u16::MAX,
    ensures
        final(verts)@ == sprites_vertices(done + hand_sprites(hand@)),
        final(indis)@ == sprites_indices(done + hand_sprites(hand@)),
{
    let n = hand.cards.len();
    proof {
        assert(done + hand_sprites(hand@).take(0) =~= done);
    }
    for i in 0..n
        invariant
            n == hand.cards.len(),
            4 * (done.len() + n) <= u16::MAX,
            verts@ == sprites_vertices(done + hand_sprites(hand@).take(i as int)),
            indis@ == sprites_indices(done + hand_sprites(hand@).take(i as int)),
    {
        let ghost so_far = done + hand_sprites(hand@).take(i as int);
        proof {
            lemma_sprite_pushed(so_far, hand_sprite(hand@, i as int));
        }
        push_sprite(
            hand.quad.pos.x as i128,
            hand.quad.pos.y as i128 - (i as i128) * (FAN_OFFSET as i128),
            CARD_WIDTH,
            CARD_HEIGHT,
            index_from_card(hand.cards[i].value),
            verts,
            indis,
        );
        proof {
            assert(so_far.push(hand_sprite(hand@, i as int)) =~= done + hand_sprites(hand@).take(
                i + 1,
            ));
        }
    }
    proof {
        assert(hand_sprites(hand@).take(n as int) =~= hand_sprites(hand@));
    }
}

/// The vertices and indices that draw `state`: a quad for the stock (the
/// back of a card, or an empty slot), one for the talon's front card, one
/// for each card of each column (its face where it lies face up, else its
/// back), one for each foundation's front card, and one for each card in
/// the hand, fanned downwards from the hand's place.
pub fn create_buffers(state: &GameState) -> (buffers: (Vec<Vertex>, Vec<u16>))
    requires
        state.wf(),
    ensures
        buffers.0@ == sprites_vertices(game_sprites(state@)),
        buffers.1@ == sprites_indices(game_sprites(state@)),
        buffers.0@.len() == 4 * game_sprites(state@).len(),
        buffers.1@.len() == 6 * game_sprites(state@).len(),
        game_sprites(state@).len() <= 58,
{
    let mut verts: Vec<Vertex> = Vec::new();
    let mut indis: Vec<u16> = Vec::new();
    let ghost g = state@;
    let ghost head = seq![stock_sprite(g.stock), stack_sprite(g.talon)];
    let ghost piles = g.foundations.map_values(|f: StackView| stack_sprite(f));
    proof {
        lemma_cards_drawn(g);
    }

    let stock_cell: [u8; 2] = if state.stock.cards.len() == 0 {
        [1, 4]
    } else {
        [0, 4]
    };
    push_quad(&state.stock.quad, stock_cell, &mut verts, &mut indis, Ghost(Seq::empty()));
    push_quad(
        &state.talon.quad,
        stack_index(&state.talon),
        &mut verts,
        &mut indis,
        Ghost(Seq::<Sprite>::empty().push(stock_sprite(g.stock))),
    );
    proof {
        assert(g.tableaux.take(0) =~= Seq::<TableauView>::empty());
        assert(Seq::<Sprite>::empty().push(stock_sprite(g.stock)).push(stack_sprite(g.talon))
            =~= head
            + columns_sprites(g.tableaux.take(0)));
    }

    for t in 0..7usize
        invariant
            g == state@,
            state.wf(),
            head.len() == 2,
            columns_sprites(g.tableaux).len() + g.hand.cards.len() <= 52,
            verts@ == sprites_vertices(head + columns_sprites(g.tableaux.take(t as int))),
            indis@ == sprites_indices(head + columns_sprites(g.tableaux.take(t as int))),
    {
        proof {
            assert(g.tableaux[t as int].wf());
            assert(state.tableaux[t as int]@ == g.tableaux[t as int]);
            lemma_columns_sprites_count(g.tableaux, t as int);
            lemma_columns_sprites_count(g.tableaux, 0);
        }
        push_column(
            &state.tableaux[t],
            &mut verts,
            &mut indis,
            Ghost(head + columns_sprites(g.tableaux.take(t as int))),
        );
        proof {
            assert(g.tableaux.take(t + 1).drop_last() =~= g.tableaux.take(t as int));
            assert(g.tableaux.take(t + 1).last() == g.tableaux[t as int]);
            assert(head + columns_sprites(g.tableaux.take(t as int)) + column_sprites(
                g.tableaux[t as int],
            ) =~= head + columns_sprites(g.tableaux.take(t + 1)));
        }
    }
    let ghost body = head + columns_sprites(g.tableaux);
    proof {
        assert(g.tableaux.take(7) =~= g.tableaux);
        assert(body + piles.take(0) =~= body);
    }

    for f in 0..4usize
        invariant
            g == state@,
            body == head + columns_sprites(g.tableaux),
            piles == g.foundations.map_values(|f: StackView| stack_sprite(f)),
            g.foundations.len() == 4,
            head.len() == 2,
            columns_sprites(g.tableaux).len() + g.hand.cards.len() <= 52,
            verts@ == sprites_vertices(body + piles.take(f as int)),
            indis@ == sprites_indices(body + piles.take(f as int)),
    {
        push_quad(
            &state.foundations[f].quad,
            stack_index(&state.foundations[f]),
            &mut verts,
            &mut indis,
            Ghost(body + piles.take(f as int)),
        );
        proof {
            assert(state.foundations[f as int]@ == g.foundations[f as int]);
            assert((body + piles.take(f as int)).push(stack_sprite(g.foundations[f as int]))
                =~= body + piles.take(f + 1));
        }
    }
    proof {
        assert(piles.take(4) =~= piles);
    }
    push_hand(&state.hand, &mut verts, &mut indis, Ghost(body + piles));
    proof {
        assert(body + piles + hand_sprites(g.hand) =~= game_sprites(g));
        lemma_sprite_pushed(game_sprites(g), stock_sprite(g.stock));
    }
    (verts, indis)
}

/// A well-formed game draws no more cards than a deck has.
pub proof fn lemma_cards_drawn(g: GameView)
    requires
        g.wf(),
    ensures
        columns_sprites(g.tableaux).len() + g.hand.cards.len() <= 52,
{
    broadcast use vstd::seq_lib::group_to_multiset_ensures;
    broadcast use vstd::multiset::group_multiset_axioms;

    lemma_full_deck_len();
    lemma_columns_sprites_count(g.tableaux, 0);
    assert(g.cards().len() == g.stock.cards.len() + g.talon.cards.len() + columns_cards(
        g.tableaux,
    ).len() + stacks_cards(g.foundations).len() + g.hand.cards.len());
}

} // verus!
