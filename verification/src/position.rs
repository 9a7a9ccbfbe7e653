//! A chess position as the plain values that the library reads from it.
//!
//! Squares are numbered 0 to 63 from a1 to h8, rank by rank; piece types
//! and colours are numbered in the order of [`Piece`] and [`Color`].

use vstd::prelude::*;
use cozy_chess::Board;
use crate::bits::{
    count_squares,
    first_square,
    lemma_popcount_disjoint,
    lemma_popcount_subset,
    lowest_square,
    popcount,
};
use crate::record::CodecError;

verus! {

/// The type of a piece.
#[derive(Clone, Copy, Debug, PartialEq, Eq, Structural)]
pub enum Piece {
    Pawn,
    Knight,
    Bishop,
    Rook,
    Queen,
    King,
}

/// The colour of a piece or of a player.
#[derive(Clone, Copy, Debug, PartialEq, Eq, Structural)]
pub enum Color {
    White,
    Black,
}

impl Piece {
    /// The piece type's number, 0 for a pawn to 5 for a king.
    pub open spec fn spec_index(self) -> usize {
        match self {
            Piece::Pawn => 0,
            Piece::Knight => 1,
            Piece::Bishop => 2,
            Piece::Rook => 3,
            Piece::Queen => 4,
            Piece::King => 5,
        }
    }

    #[verifier::when_used_as_spec(spec_index)]
    pub fn index(self) -> (i: usize)
        ensures
            i == self.spec_index(),
            i < 6,
    {
        match self {
            Piece::Pawn => 0,
            Piece::Knight => 1,
            Piece::Bishop => 2,
            Piece::Rook => 3,
            Piece::Queen => 4,
            Piece::King => 5,
        }
    }

    /// The piece type with this number, if there is one.
    pub fn from_index(i: u8) -> (p: Option<Piece>)
        ensures
            i >= 6 <==> p is None,
            p matches Some(piece) ==> piece.spec_index() == i,
    {
        match i {
            0 => Some(Piece::Pawn),
            1 => Some(Piece::Knight),
            2 => Some(Piece::Bishop),
            3 => Some(Piece::Rook),
            4 => Some(Piece::Queen),
            5 => Some(Piece::King),
            _ => None,
        }
    }
}

impl Color {
    /// The colour's number, 0 for White and 1 for Black.
    pub open spec fn spec_index(self) -> usize {
        match self {
            Color::White => 0,
            Color::Black => 1,
        }
    }

    /// The other colour.
    pub open spec fn spec_other(self) -> Color {
        match self {
            Color::White => Color::Black,
            Color::Black => Color::White,
        }
    }

    #[verifier::when_used_as_spec(spec_index)]
    pub fn index(self) -> (i: usize)
        ensures
            i == self.spec_index(),
            i < 2,
    {
        match self {
            Color::White => 0,
            Color::Black => 1,
        }
    }

    #[verifier::when_used_as_spec(spec_other)]
    pub fn other(self) -> (c: Color)
        ensures
            c == self.spec_other(),
    {
        match self {
            Color::White => Color::Black,
            Color::Black => Color::White,
        }
    }
}

/// The mathematical content of a [`Position`]: one bitboard per colour and
/// per piece type, the side to move and the two move counters.
pub struct PositionView {
    pub colors: Seq<u64>,
    pub pieces: Seq<u64>,
    pub white_to_move: bool,
    pub halfmove_clock: u8,
    pub fullmove_number: u16,
}

impl PositionView {
    /// The squares that hold a piece.
    pub open spec fn occupied(self) -> u64 {
        self.colors[0] | self.colors[1]
    }

    /// The squares that hold a piece of any of the first `n` types.
    pub open spec fn pieces_below(self, n: int) -> u64
        decreases n,
    {
        if n <= 0 {
            0
        } else {
            self.pieces_below(n - 1) | self.pieces[n - 1]
        }
    }

    /// The number of pieces on the board.
    pub open spec fn piece_count(self) -> nat {
        popcount(self.occupied())
    }

    /// The number of pieces of one type.
    pub open spec fn type_count(self, piece: int) -> nat {
        popcount(self.pieces[piece])
    }

    /// The bitboard of the kings of one colour.
    pub open spec fn kings(self, color: int) -> u64 {
        self.pieces[5] & self.colors[color]
    }

    /// The square of the king of one colour.
    pub open spec fn king_square(self, color: int) -> nat {
        lowest_square(self.kings(color))
    }

    /// The board is sound: no square holds two piece types or two colours,
    /// the squares with a piece type are those with a colour, each side has
    /// one king and at most 16 pieces.
    pub open spec fn valid(self) -> bool {
        &&& self.colors.len() == 2
        &&& self.pieces.len() == 6
        &&& forall|t: int| 0 <= t < 6 ==> self.pieces_below(t) & #[trigger] self.pieces[t] == 0
        &&& self.colors[0] & self.colors[1] == 0
        &&& self.pieces_below(6) == self.occupied()
        &&& popcount(self.colors[0]) <= 16
        &&& popcount(self.colors[1]) <= 16
        &&& popcount(self.kings(0)) == 1
        &&& popcount(self.kings(1)) == 1
    }

    /// A sound board holds at most 32 pieces, at most 32 of any type, and
    /// both kings stand on the board.
    pub proof fn lemma_valid_counts(self)
        requires
            self.valid(),
        ensures
            self.piece_count() <= 32,
            forall|t: int| 0 <= t < 6 ==> #[trigger] self.type_count(t) <= 32,
            self.king_square(0) < 64,
            self.king_square(1) < 64,
    {
        lemma_popcount_disjoint(self.colors[0], self.colors[1]);
        assert forall|t: int| 0 <= t < 6 implies #[trigger] self.type_count(t) <= 32 by {
            self.lemma_type_within(t, 6);
            lemma_popcount_subset(self.pieces[t], self.occupied());
        }
        vstd::std_specs::bits::axiom_u64_trailing_zeros(self.kings(0));
        vstd::std_specs::bits::axiom_u64_trailing_zeros(self.kings(1));
    }

    proof fn lemma_type_within(self, t: int, n: int)
        requires
            0 <= t < n <= 6,
        ensures
            self.pieces[t] & self.pieces_below(n) == self.pieces[t],
        decreases n,
    {
        let p = self.pieces[t];
        let below = self.pieces_below(n - 1);
        let top = self.pieces[n - 1];
        if t == n - 1 {
            assert(p & (below | p) == p) by (bit_vector);
        } else {
            self.lemma_type_within(t, n - 1);
            assert(p & (below | top) == p) by (bit_vector)
                requires
                    p & below == p,
            ;
        }
    }
}

/// A chess position. Every value of this type is a sound board in the
/// sense of [`PositionView::valid`].
#[derive(Clone, Copy, Debug, PartialEq, Eq)]
pub struct Position {
    colors: [u64; 2],
    pieces: [u64; 6],
    white_to_move: bool,
    halfmove_clock: u8,
    fullmove_number: u16,
}

impl View for Position {
    type V = PositionView;

    closed spec fn view(&self) -> PositionView {
        PositionView {
            colors: self.colors@,
            pieces: self.pieces@,
            white_to_move: self.white_to_move,
            halfmove_clock: self.halfmove_clock,
            fullmove_number: self.fullmove_number,
        }
    }
}

/// The view of a position that would hold these parts.
pub open spec fn view_of(
    colors: [u64; 2],
    pieces: [u64; 6],
    white_to_move: bool,
    halfmove_clock: u8,
    fullmove_number: u16,
) -> PositionView {
    PositionView { colors: colors@, pieces: pieces@, white_to_move, halfmove_clock, fullmove_number }
}

impl Position {
    #[verifier::type_invariant]
    spec fn inv(self) -> bool {
        self@.valid()
    }

    /// Builds a position from its bitboards and counters, colours in the
    /// order of [`Color`] and piece types in the order of [`Piece`]. A board
    /// that is not sound is refused.
    pub fn new(
        colors: [u64; 2],
        pieces: [u64; 6],
        white_to_move: bool,
        halfmove_clock: u8,
        fullmove_number: u16,
    ) -> (r: Result<Position, CodecError>)
        ensures
            r is Ok <==> view_of(
                colors,
                pieces,
                white_to_move,
                halfmove_clock,
                fullmove_number,
            ).valid(),
            r matches Ok(p) ==> p@ == view_of(
                colors,
                pieces,
                white_to_move,
                halfmove_clock,
                fullmove_number,
            ),
            r matches Err(e) ==> e == CodecError::InvalidPosition,
    {
        let ghost v = view_of(colors, pieces, white_to_move, halfmove_clock, fullmove_number);
        let mut seen: u64 = 0;
        let mut t: usize = 0;
        while t < 6
            invariant
                0 <= t <= 6,
                v == view_of(colors, pieces, white_to_move, halfmove_clock, fullmove_number),
                seen == v.pieces_below(t as int),
                forall|k: int| 0 <= k < t ==> v.pieces_below(k) & #[trigger] v.pieces[k] == 0,
            decreases 6 - t,
        {
            if seen & pieces[t] != 0 {
                return Err(CodecError::InvalidPosition);
            }
            seen = seen | pieces[t];
            t += 1;
        }
        if colors[0] & colors[1] != 0 || seen != (colors[0] | colors[1]) {
            return Err(CodecError::InvalidPosition);
        }
        if count_squares(colors[0]) > 16 || count_squares(colors[1]) > 16 {
            return Err(CodecError::InvalidPosition);
        }
        if count_squares(pieces[5] & colors[0]) != 1 || count_squares(pieces[5] & colors[1]) != 1 {
            return Err(CodecError::InvalidPosition);
        }
        Ok(Position { colors, pieces, white_to_move, halfmove_clock, fullmove_number })
    }

    /// Reads a position off a board of the rules engine: the position that
    /// the engine's accessors describe, where that is a sound board. The
    /// board's bitboards are held to the same soundness as any others.
    pub fn from_board(board: &Board) -> (r: Result<Position, CodecError>)
        ensures
            r is Ok <==> board_view(*board).valid(),
            r matches Ok(p) ==> p@ == board_view(*board) && p@.valid(),
            r matches Err(e) ==> e == CodecError::InvalidPosition,
    {
        let colors = [board_colors(board, Color::White), board_colors(board, Color::Black)];
        let pieces = [
            board_pieces(board, Piece::Pawn),
            board_pieces(board, Piece::Knight),
            board_pieces(board, Piece::Bishop),
            board_pieces(board, Piece::Rook),
            board_pieces(board, Piece::Queen),
            board_pieces(board, Piece::King),
        ];
        let white_to_move = board_white_to_move(board);
        let halfmove_clock = board_halfmove_clock(board);
        let fullmove_number = board_fullmove_number(board);
        proof {
            let read = view_of(colors, pieces, white_to_move, halfmove_clock, fullmove_number);
            assert(read.colors =~= board_view(*board).colors);
            assert(read.pieces =~= board_view(*board).pieces);
        }
        Position::new(colors, pieces, white_to_move, halfmove_clock, fullmove_number)
    }

    /// The bitboard of one colour.
    pub fn colors(&self, color: Color) -> (b: u64)
        ensures
            b == self@.colors[color.spec_index() as int],
    {
        self.colors[color.index()]
    }

    /// The bitboard of one piece type.
    pub fn pieces(&self, piece: Piece) -> (b: u64)
        ensures
            b == self@.pieces[piece.spec_index() as int],
    {
        self.pieces[piece.index()]
    }

    /// The squares that hold a piece.
    pub fn occupied(&self) -> (b: u64)
        ensures
            b == self@.occupied(),
    {
        self.colors[0] | self.colors[1]
    }

    /// Whether White is to move.
    pub fn white_to_move(&self) -> (b: bool)
        ensures
            b == self@.white_to_move,
    {
        self.white_to_move
    }

    /// The side to move.
    pub fn side_to_move(&self) -> (c: Color)
        ensures
            c == (if self@.white_to_move { Color::White } else { Color::Black }),
    {
        if self.white_to_move {
            Color::White
        } else {
            Color::Black
        }
    }

    /// Half-moves since the last capture or pawn move.
    pub fn halfmove_clock(&self) -> (n: u8)
        ensures
            n == self@.halfmove_clock,
    {
        self.halfmove_clock
    }

    /// The number of the full move to be played.
    pub fn fullmove_number(&self) -> (n: u16)
        ensures
            n == self@.fullmove_number,
    {
        self.fullmove_number
    }

    /// The number of pieces on the board.
    pub fn piece_count(&self) -> (n: u8)
        ensures
            n == self@.piece_count(),
            n <= 32,
            self@.valid(),
    {
        proof {
            use_type_invariant(self);
            self@.lemma_valid_counts();
        }
        count_squares(self.colors[0] | self.colors[1])
    }

    /// The number of pieces of one type, whatever their colour.
    pub fn type_count(&self, piece: Piece) -> (n: u8)
        ensures
            n == self@.type_count(piece.spec_index() as int),
            n <= 32,
    {
        proof {
            use_type_invariant(self);
            self@.lemma_valid_counts();
            assert(self@.type_count(piece.spec_index() as int) <= 32);
        }
        count_squares(self.pieces[piece.index()])
    }

    /// The square of the king of one colour.
    pub fn king(&self, color: Color) -> (s: u8)
        ensures
            s == self@.king_square(color.spec_index() as int),
            s < 64,
    {
        proof {
            use_type_invariant(self);
            self@.lemma_valid_counts();
        }
        let kings = self.pieces[5] & self.colors[color.index()];
        assert(kings != 0) by {
            assert(popcount(kings) == 1);
        }
        first_square(kings)
    }
}

/// What `Board::colors` of the rules engine returns for a board and a
/// colour: the bitboard of the pieces of that colour, as its 64 bits.
pub uninterp spec fn board_color_bits(board: Board, color: Color) -> u64;

/// What `Board::pieces` of the rules engine returns for a board and a piece
/// type: the bitboard of the pieces of that type, as its 64 bits.
pub uninterp spec fn board_piece_bits(board: Board, piece: Piece) -> u64;

/// Whether `Board::side_to_move` of the rules engine returns White for a
/// board.
pub uninterp spec fn board_white_moves(board: Board) -> bool;

/// What `Board::halfmove_clock` of the rules engine returns for a board.
pub uninterp spec fn board_halfmoves(board: Board) -> u8;

/// What `Board::fullmove_number` of the rules engine returns for a board.
pub uninterp spec fn board_fullmoves(board: Board) -> u16;

/// The position that the rules engine's accessors describe for a board.
pub open spec fn board_view(board: Board) -> PositionView {
    PositionView {
        colors: seq![
            board_color_bits(board, Color::White),
            board_color_bits(board, Color::Black),
        ],
        pieces: seq![
            board_piece_bits(board, Piece::Pawn),
            board_piece_bits(board, Piece::Knight),
            board_piece_bits(board, Piece::Bishop),
            board_piece_bits(board, Piece::Rook),
            board_piece_bits(board, Piece::Queen),
            board_piece_bits(board, Piece::King),
        ],
        white_to_move: board_white_moves(board),
        halfmove_clock: board_halfmoves(board),
        fullmove_number: board_fullmoves(board),
    }
}

/// `Board::colors` of the rules engine: the bitboard of the pieces of one
/// colour, as its 64 bits. The bits are a function of board and colour
/// alone; nothing else is claimed of them.
#[verifier::external_body]
fn board_colors(board: &Board, color: Color) -> (bits: u64)
    ensures
        bits == board_color_bits(*board, color),
{
    board.colors(
        match color {
            Color::White => cozy_chess::Color::White,
            Color::Black => cozy_chess::Color::Black,
        },
    ).0
}

/// `Board::pieces` of the rules engine: the bitboard of the pieces of one
/// type, as its 64 bits. The bits are a function of board and piece type
/// alone; nothing else is claimed of them.
#[verifier::external_body]
fn board_pieces(board: &Board, piece: Piece) -> (bits: u64)
    ensures
        bits == board_piece_bits(*board, piece),
{
    board.pieces(
        match piece {
            Piece::Pawn => cozy_chess::Piece::Pawn,
            Piece::Knight => cozy_chess::Piece::Knight,
            Piece::Bishop => cozy_chess::Piece::Bishop,
            Piece::Rook => cozy_chess::Piece::Rook,
            Piece::Queen => cozy_chess::Piece::Queen,
            Piece::King => cozy_chess::Piece::King,
        },
    ).0
}

/// `Board::side_to_move` of the rules engine, as whether it is White. The
/// answer is a function of the board alone; nothing else is claimed of it.
#[verifier::external_body]
fn board_white_to_move(board: &Board) -> (white: bool)
    ensures
        white == board_white_moves(*board),
{
    match board.side_to_move() {
        cozy_chess::Color::White => true,
        cozy_chess::Color::Black => false,
    }
}

/// `Board::halfmove_clock` of the rules engine. The number is a function
/// of the board alone; nothing else is claimed of it.
#[verifier::external_body]
fn board_halfmove_clock(board: &Board) -> (n: u8)
    ensures
        n == board_halfmoves(*board),
{
    board.halfmove_clock()
}

/// `Board::fullmove_number` of the rules engine. The number is a function
/// of the board alone; nothing else is claimed of it.
#[verifier::external_body]
fn board_fullmove_number(board: &Board) -> (n: u16)
    ensures
        n == board_fullmoves(*board),
{
    board.fullmove_number()
}

/// The board of the rules engine, carried as it is.
#[verifier::external_type_specification]
#[verifier::external_body]
pub struct ExBoard(Board);

} // verus!
