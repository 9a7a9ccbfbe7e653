//! The 768 features of a position: one per colour, piece type and square,
//! seen once from the side to move and once from the other side.

use vstd::prelude::*;
use crate::bits::{
    first_square,
    has_square,
    lemma_popcount_disjoint,
    lemma_popcount_next,
    lowest_square,
    popcount,
    squares_from,
};
use crate::position::{Color, Piece, Position, PositionView};

verus! {

/// The feature set of one feature per colour, piece type and square.
pub struct Board768;

/// Features in all: 2 colours, 6 piece types, 64 squares.
pub const FEATURES: usize = 768;

/// The square that mirrors `square` across the middle of the board: same
/// file, rank 1 for rank 8 and so on.
pub open spec fn spec_flip_rank(square: u8) -> u8 {
    square ^ 0b111000
}

/// The index of the feature "a piece of this colour and type stands on this
/// square" from a perspective. From Black's perspective the board is
/// mirrored and the colours are swapped, so that a player's own pieces have
/// the same features whichever colour the player has.
pub open spec fn spec_feature(perspective: Color, color: Color, piece: Piece, square: u8) -> nat {
    let (square, color) = match perspective {
        Color::White => (square, color),
        Color::Black => (spec_flip_rank(square), color.spec_other()),
    };
    ((color.spec_index() * 6 + piece.spec_index()) * 64 + square) as nat
}

/// Computes the index of a feature.
pub fn feature(perspective: Color, color: Color, piece: Piece, square: u8) -> (index: usize)
    requires
        square < 64,
    ensures
        index == spec_feature(perspective, color, piece, square),
        index < FEATURES,
{
    let (square, color) = match perspective {
        Color::White => (square, color),
        Color::Black => {
            assert(square ^ 0b111000 < 64) by (bit_vector)
                requires
                    square < 64,
            ;
            (square ^ 0b111000, color.other())
        },
    };
    let mut index: usize = 0;
    index = index * 2 + color.index();
    index = index * 6 + piece.index();
    index = index * 64 + square as usize;
    index
}

/// Whether a piece of this colour and type stands on this square.
pub open spec fn stands(p: PositionView, color: int, piece: int, square: nat) -> bool {
    has_square(p.pieces[piece] & p.colors[color], square)
}

/// The colour with this number.
pub open spec fn color_of(index: int) -> Color {
    if index == 0 {
        Color::White
    } else {
        Color::Black
    }
}

/// The piece type with this number.
pub open spec fn piece_of(index: int) -> Piece {
    if index == 0 {
        Piece::Pawn
    } else if index == 1 {
        Piece::Knight
    } else if index == 2 {
        Piece::Bishop
    } else if index == 3 {
        Piece::Rook
    } else if index == 4 {
        Piece::Queen
    } else {
        Piece::King
    }
}

/// The pair of features of one piece: from the side to move, and from the
/// other side.
pub open spec fn feature_pair(p: PositionView, color: int, piece: int, square: nat) -> (i64, i64) {
    let stm = if p.white_to_move { Color::White } else { Color::Black };
    (
        spec_feature(stm, color_of(color), piece_of(piece), square as u8) as i64,
        spec_feature(stm.spec_other(), color_of(color), piece_of(piece), square as u8) as i64,
    )
}

/// The feature pairs of the pieces found among the first `n` places, where
/// the places run through the colours, White first, within a colour through
/// the piece types from pawn to king, and within a piece type through the
/// squares from a1 to h8.
pub open spec fn features_upto(p: PositionView, n: nat) -> Seq<(i64, i64)>
    decreases n,
{
    if n == 0 {
        Seq::empty()
    } else {
        let place = (n - 1) as nat;
        let before = features_upto(p, place);
        let color = place as int / 384;
        let piece = (place as int / 64) % 6;
        let square = place % 64;
        if stands(p, color, piece, square) {
            before.push(feature_pair(p, color, piece, square))
        } else {
            before
        }
    }
}

/// The feature pairs of all the pieces of a position.
pub open spec fn spec_features(p: PositionView) -> Seq<(i64, i64)> {
    features_upto(p, FEATURES as nat)
}

/// The pieces of the first `n` colours.
pub open spec fn pieces_of_colors(p: PositionView, n: int) -> nat {
    if n <= 0 {
        0
    } else if n == 1 {
        popcount(p.colors[0])
    } else {
        popcount(p.colors[0]) + popcount(p.colors[1])
    }
}

/// The place of a colour, piece type and square in the order of the
/// features.
pub open spec fn place_of(color: int, piece: int, square: int) -> int {
    color * 384 + piece * 64 + square
}

/// A place names its colour, piece type and square.
proof fn lemma_place(color: int, piece: int, square: int)
    requires
        0 <= color < 2,
        0 <= piece < 6,
        0 <= square < 64,
    ensures
        0 <= place_of(color, piece, square) < 768,
        place_of(color, piece, square) / 384 == color,
        (place_of(color, piece, square) / 64) % 6 == piece,
        place_of(color, piece, square) % 64 == square,
{
    let place = place_of(color, piece, square);
    let row = 6 * color + piece;
    assert(place == 64 * row + square);
    vstd::arithmetic::div_mod::lemma_fundamental_div_mod_converse(place, 64, row, square);
    vstd::arithmetic::div_mod::lemma_fundamental_div_mod_converse(row, 6, color, piece);
    assert(place == 384 * color + (piece * 64 + square));
    vstd::arithmetic::div_mod::lemma_fundamental_div_mod_converse(
        place,
        384,
        color,
        piece * 64 + square,
    );
}

/// One place further, the feature pairs are those before, with the pair of
/// the piece that stands at the place, if one does.
proof fn lemma_features_step(p: PositionView, color: int, piece: int, square: int)
    requires
        0 <= color < 2,
        0 <= piece < 6,
        0 <= square < 64,
    ensures
        features_upto(p, (place_of(color, piece, square) + 1) as nat) == (if stands(
            p,
            color,
            piece,
            square as nat,
        ) {
            features_upto(p, place_of(color, piece, square) as nat).push(
                feature_pair(p, color, piece, square as nat),
            )
        } else {
            features_upto(p, place_of(color, piece, square) as nat)
        }),
{
    lemma_place(color, piece, square);
    let place = place_of(color, piece, square) as nat;
    let n = (place + 1) as nat;
    assert((n - 1) as nat == place);
    assert(place as int / 384 == color);
    assert((place as int / 64) % 6 == piece);
    assert(place % 64 == square as nat);
}

/// Squares without a piece of the colour and type add no feature pairs.
proof fn lemma_empty_squares(p: PositionView, color: int, piece: int, from: nat, to: nat)
    requires
        0 <= color < 2,
        0 <= piece < 6,
        from <= to <= 64,
        forall|j: nat| from <= j < to ==> !stands(p, color, piece, j),
    ensures
        features_upto(p, place_of(color, piece, to as int) as nat) == features_upto(
            p,
            place_of(color, piece, from as int) as nat,
        ),
    decreases to - from,
{
    if from < to {
        let last = (to - 1) as nat;
        lemma_empty_squares(p, color, piece, from, last);
        lemma_features_step(p, color, piece, last as int);
        assert(!stands(p, color, piece, last));
        assert(place_of(color, piece, last as int) + 1 == place_of(color, piece, to as int));
    }
}

/// The walk over the pieces of one colour and type takes a step: from
/// `next` on, the lowest square with such a piece is found, the squares
/// before it add nothing, and the square itself adds its pair.
proof fn lemma_walk_step(p: PositionView, color: int, piece: int, next: nat)
    requires
        0 <= color < 2,
        0 <= piece < 6,
        next < 64,
        squares_from(p.pieces[piece] & p.colors[color], next) != 0,
    ensures
        ({
            let board = p.pieces[piece] & p.colors[color];
            let square = lowest_square(squares_from(board, next));
            &&& next <= square < 64
            &&& features_upto(p, place_of(color, piece, square as int + 1) as nat) == features_upto(
                p,
                place_of(color, piece, next as int) as nat,
            ).push(feature_pair(p, color, piece, square))
            &&& popcount(squares_from(board, next)) == 1 + popcount(squares_from(board, square + 1))
        }),
{
    let board = p.pieces[piece] & p.colors[color];
    let rest = squares_from(board, next);
    let square = lowest_square(rest);
    lemma_popcount_next(board, next);
    vstd::std_specs::bits::axiom_u64_trailing_zeros(rest);
    let at = square as u64;
    let low = next as u64;
    assert((board >> at) & 1 == 1) by (bit_vector)
        requires
            rest == board & (0xffff_ffff_ffff_ffffu64 << low),
            low < 64,
            at < 64,
            (rest >> at) & 1 == 1,
    ;
    assert forall|j: nat| next <= j < square implies !stands(p, color, piece, j) by {
        let here = j as u64;
        assert((rest >> here) & 1 == 0);
        assert((board >> here) & 1 == 0) by (bit_vector)
            requires
                rest == board & (0xffff_ffff_ffff_ffffu64 << low),
                low <= here < 64,
                low < 64,
                (rest >> here) & 1 == 0,
        ;
    }
    lemma_empty_squares(p, color, piece, next, square);
    lemma_features_step(p, color, piece, square as int);
    assert(stands(p, color, piece, square));
    assert(place_of(color, piece, square as int) + 1 == place_of(color, piece, square as int + 1));
}

/// The walk over the pieces of one colour and type ends: from `next` on no
/// square holds such a piece, and the squares that are left add nothing.
proof fn lemma_walk_end(p: PositionView, color: int, piece: int, next: nat)
    requires
        0 <= color < 2,
        0 <= piece < 6,
        next <= 64,
        squares_from(p.pieces[piece] & p.colors[color], next) == 0,
    ensures
        features_upto(p, place_of(color, piece, 64) as nat) == features_upto(
            p,
            place_of(color, piece, next as int) as nat,
        ),
        popcount(squares_from(p.pieces[piece] & p.colors[color], next)) == 0,
{
    let board = p.pieces[piece] & p.colors[color];
    if next < 64 {
        let low = next as u64;
        assert forall|j: nat| next <= j < 64 implies !stands(p, color, piece, j) by {
            let here = j as u64;
            assert((board >> here) & 1 == 0) by (bit_vector)
                requires
                    board & (0xffff_ffff_ffff_ffffu64 << low) == 0,
                    low <= here < 64,
                    low < 64,
            ;
        }
        lemma_empty_squares(p, color, piece, next, 64);
    }
}

/// The pieces of one type and colour are new among the pieces of the
/// colour: none of them is of an earlier type.
proof fn lemma_count_type(p: PositionView, color: int, piece: int)
    requires
        p.valid(),
        0 <= color < 2,
        0 <= piece < 6,
    ensures
        popcount(p.pieces_below(piece + 1) & p.colors[color]) == popcount(
            p.pieces_below(piece) & p.colors[color],
        ) + popcount(p.pieces[piece] & p.colors[color]),
{
    let below = p.pieces_below(piece);
    let of_type = p.pieces[piece];
    let of_color = p.colors[color];
    assert(below & of_type == 0);
    assert((below | of_type) & of_color == (below & of_color) | (of_type & of_color) && (below
        & of_color) & (of_type & of_color) == 0) by (bit_vector)
        requires
            below & of_type == 0,
    ;
    lemma_popcount_disjoint(below & of_color, of_type & of_color);
}

/// The pieces of the colours, colour by colour, are the pieces of the
/// board.
proof fn lemma_count_colors(p: PositionView)
    requires
        p.valid(),
    ensures
        popcount(p.pieces_below(0) & p.colors[0]) == 0,
        popcount(p.pieces_below(0) & p.colors[1]) == 0,
        popcount(p.pieces_below(6) & p.colors[0]) == popcount(p.colors[0]),
        popcount(p.pieces_below(6) & p.colors[1]) == popcount(p.colors[1]),
        pieces_of_colors(p, 2) == p.piece_count(),
{
    let white = p.colors[0];
    let black = p.colors[1];
    assert(0u64 & white == 0 && 0u64 & black == 0) by (bit_vector);
    assert((white | black) & white == white && (white | black) & black == black) by (bit_vector);
    lemma_popcount_disjoint(white, black);
}

impl Board768 {
    /// The most feature pairs that a caller makes room for; no position
    /// has more.
    pub const MAX_INDICES: usize = 64;

    /// Lists the feature pairs of all the pieces of a position, one pair
    /// per piece: colour by colour, within a colour piece type by piece
    /// type, within a piece type square by square.
    pub fn add_features(position: &Position) -> (features: Vec<(i64, i64)>)
        ensures
            features@ == spec_features(position@),
            features.len() == position@.piece_count(),
            features.len() <= Self::MAX_INDICES,
            forall|i: int|
                0 <= i < features.len() ==> 0 <= (#[trigger] features[i]).0 < FEATURES && 0
                    <= features[i].1 < FEATURES,
    {
        let count = position.piece_count();
        let mut features: Vec<(i64, i64)> = Vec::with_capacity(count as usize);
        let stm = position.side_to_move();
        let colors = [Color::White, Color::Black];
        let pieces = [
            Piece::Pawn,
            Piece::Knight,
            Piece::Bishop,
            Piece::Rook,
            Piece::Queen,
            Piece::King,
        ];
        proof {
            lemma_count_colors(position@);
        }
        let mut c: usize = 0;
        while c < 2
            invariant
                0 <= c <= 2,
                position@.valid(),
                stm == (if position@.white_to_move { Color::White } else { Color::Black }),
                colors[0] == Color::White && colors[1] == Color::Black,
                pieces[0] == Piece::Pawn && pieces[1] == Piece::Knight && pieces[2]
                    == Piece::Bishop && pieces[3] == Piece::Rook && pieces[4] == Piece::Queen
                    && pieces[5] == Piece::King,
                features@ == features_upto(position@, place_of(c as int, 0, 0) as nat),
                features.len() == pieces_of_colors(position@, c as int),
                forall|i: int|
                    0 <= i < features.len() ==> 0 <= (#[trigger] features[i]).0 < FEATURES && 0
                        <= features[i].1 < FEATURES,
            decreases 2 - c,
        {
            let color = colors[c];
            let ghost before_color = features.len();
            let mut t: usize = 0;
            proof {
                lemma_count_colors(position@);
            }
            while t < 6
                invariant
                    0 <= t <= 6,
                    0 <= c < 2,
                    position@.valid(),
                    color == colors[c as int],
                    stm == (if position@.white_to_move { Color::White } else { Color::Black }),
                    colors[0] == Color::White && colors[1] == Color::Black,
                    pieces[0] == Piece::Pawn && pieces[1] == Piece::Knight && pieces[2]
                        == Piece::Bishop && pieces[3] == Piece::Rook && pieces[4] == Piece::Queen
                        && pieces[5] == Piece::King,
                    features@ == features_upto(position@, place_of(c as int, t as int, 0) as nat),
                    features.len() == before_color + popcount(
                        position@.pieces_below(t as int) & position@.colors[c as int],
                    ),
                    forall|i: int|
                        0 <= i < features.len() ==> 0 <= (#[trigger] features[i]).0 < FEATURES && 0
                            <= features[i].1 < FEATURES,
                decreases 6 - t,
            {
                let piece = pieces[t];
                let board = position.pieces(piece) & position.colors(color);
                let ghost before_type = features.len();
                let mut next: u8 = 0;
                proof {
                    assert(board & (0xffff_ffff_ffff_ffffu64 << 0u64) == board) by (bit_vector);
                }
                while next < 64 && board & (u64::MAX << next) != 0
                    invariant
                        0 <= next <= 64,
                        0 <= t < 6,
                        0 <= c < 2,
                        color == color_of(c as int),
                        piece == piece_of(t as int),
                        board == position@.pieces[t as int] & position@.colors[c as int],
                        stm == (if position@.white_to_move { Color::White } else { Color::Black }),
                        features@ == features_upto(
                            position@,
                            place_of(c as int, t as int, next as int) as nat,
                        ),
                        features.len() + popcount(squares_from(board, next as nat)) == before_type
                            + popcount(board),
                        forall|i: int|
                            0 <= i < features.len() ==> 0 <= (#[trigger] features[i]).0 < FEATURES
                                && 0 <= features[i].1 < FEATURES,
                    decreases 64 - next,
                {
                    let square = first_square(board & (u64::MAX << next));
                    proof {
                        lemma_walk_step(position@, c as int, t as int, next as nat);
                    }
                    let stm_feature = feature(stm, color, piece, square);
                    let nstm_feature = feature(stm.other(), color, piece, square);
                    features.push((stm_feature as i64, nstm_feature as i64));
                    next = square + 1;
                }
                proof {
                    lemma_walk_end(position@, c as int, t as int, next as nat);
                    lemma_count_type(position@, c as int, t as int);
                    assert(place_of(c as int, t as int, 64) == place_of(c as int, t + 1, 0));
                }
                t += 1;
            }
            proof {
                assert(place_of(c as int, 6, 0) == place_of(c + 1, 0, 0));
            }
            c += 1;
        }
        proof {
            assert(place_of(2, 0, 0) == 768);
        }
        features
    }
}

} // verus!
