//! Adapter between a tablebase probing backend and the rest of the library.

use vstd::prelude::*;
use cozy_chess::Board;
use crate::position::{board_view, Piece, Position, PositionView};

verus! {

/// Game-theoretic value of a position.
///
/// Everywhere outside the raw probing functions the value is taken from
/// White's point of view.
#[allow(clippy::upper_case_acronyms)]
#[derive(Clone, Copy, Debug, PartialEq, Eq, Structural)]
pub enum WDL {
    Win,
    Loss,
    Draw,
}

impl WDL {
    /// The number under which the outcome is stored in a record:
    /// 0 is a loss, 1 a draw, 2 a win.
    pub open spec fn spec_ordinal(self) -> u8 {
        match self {
            WDL::Loss => 0,
            WDL::Draw => 1,
            WDL::Win => 2,
        }
    }

    /// The outcome seen from the other side of the board.
    pub open spec fn spec_flip(self) -> WDL {
        match self {
            WDL::Win => WDL::Loss,
            WDL::Draw => WDL::Draw,
            WDL::Loss => WDL::Win,
        }
    }

    #[verifier::when_used_as_spec(spec_ordinal)]
    pub fn ordinal(self) -> (n: u8)
        ensures
            n == self.spec_ordinal(),
            n <= 2,
    {
        match self {
            WDL::Loss => 0,
            WDL::Draw => 1,
            WDL::Win => 2,
        }
    }

    /// The outcome stored under a number: 0 is a loss, 1 a draw, 2 a win,
    /// and no other number is an outcome.
    pub open spec fn spec_from_ordinal(n: u8) -> Option<WDL> {
        if n == 0 {
            Some(WDL::Loss)
        } else if n == 1 {
            Some(WDL::Draw)
        } else if n == 2 {
            Some(WDL::Win)
        } else {
            None
        }
    }

    /// Reads a stored outcome; numbers above 2 name no outcome.
    #[verifier::when_used_as_spec(spec_from_ordinal)]
    pub fn from_ordinal(n: u8) -> (r: Option<WDL>)
        ensures
            r == WDL::spec_from_ordinal(n),
            n > 2 <==> r.is_none(),
            r matches Some(w) ==> w.spec_ordinal() == n,
    {
        match n {
            0 => Some(WDL::Loss),
            1 => Some(WDL::Draw),
            2 => Some(WDL::Win),
            _ => None,
        }
    }

    #[verifier::when_used_as_spec(spec_flip)]
    pub fn flip(self) -> (r: WDL)
        ensures
            r == self.spec_flip(),
    {
        match self {
            WDL::Win => WDL::Loss,
            WDL::Draw => WDL::Draw,
            WDL::Loss => WDL::Win,
        }
    }
}


/// A probe result in which the backend found nothing.
pub const TB_RESULT_FAILED: u32 = 0xffff_ffff;

/// The bits of a probe result that hold the value of the position.
pub const TB_RESULT_WDL_MASK: u32 = 0x0000_000f;

/// The bits of a probe result that hold the target square of the best move.
pub const TB_RESULT_TO_MASK: u32 = 0x0000_03f0;

/// The bits of a probe result that hold the source square of the best move.
pub const TB_RESULT_FROM_MASK: u32 = 0x0000_fc00;

/// The bits of a probe result that hold the promotion of the best move.
pub const TB_RESULT_PROMOTES_MASK: u32 = 0x0007_0000;

/// The bits of a probe result that hold the distance to zeroing.
pub const TB_RESULT_DTZ_MASK: u32 = 0xfff0_0000;

/// Where the value field starts.
pub const TB_RESULT_WDL_SHIFT: u32 = 0;

/// Where the target square field starts.
pub const TB_RESULT_TO_SHIFT: u32 = 4;

/// Where the source square field starts.
pub const TB_RESULT_FROM_SHIFT: u32 = 10;

/// Where the promotion field starts.
pub const TB_RESULT_PROMOTES_SHIFT: u32 = 16;

/// Where the distance field starts.
pub const TB_RESULT_DTZ_SHIFT: u32 = 20;

/// The value field of a lost position.
pub const TB_LOSS: u32 = 0;

/// The value field of a won position.
pub const TB_WIN: u32 = 4;

/// The promotion field of a promotion to a queen.
pub const TB_PROMOTES_QUEEN: u32 = 1;

/// The promotion field of a promotion to a rook.
pub const TB_PROMOTES_ROOK: u32 = 2;

/// The promotion field of a promotion to a bishop.
pub const TB_PROMOTES_BISHOP: u32 = 3;

/// The promotion field of a promotion to a knight.
pub const TB_PROMOTES_KNIGHT: u32 = 4;

/// No position with more pieces than this is probed, whatever the backend holds.
pub const PIECES_LIMIT: u8 = 32;

/// A move: source square, target square and the piece a pawn promotes to.
#[derive(Clone, Copy, Debug, PartialEq, Eq, Structural)]
pub struct Move {
    pub from: u8,
    pub to: u8,
    pub promotion: Option<Piece>,
}

/// What a root probe tells: the value of the position for the side to
/// move, the distance to zeroing and the move to play.
#[derive(Clone, Copy, Debug, PartialEq, Eq, Structural)]
pub struct WdlDtzResult {
    pub wdl: WDL,
    pub dtz: u32,
    pub best_move: Move,
}

/// What is handed to the probing backend for a root probe.
#[derive(Clone, Copy, Debug, PartialEq, Eq, Structural)]
pub struct RootQuery {
    pub white: u64,
    pub black: u64,
    pub kings: u64,
    pub queens: u64,
    pub rooks: u64,
    pub bishops: u64,
    pub knights: u64,
    pub pawns: u64,
    pub rule50: u32,
    pub castling: u32,
    pub ep: u32,
    pub turn: bool,
}

/// The root query of a position: its bitboards, its half-move clock, no
/// castling rights, no en-passant square, and whether White is to move.
pub open spec fn spec_root_query(p: PositionView) -> RootQuery {
    RootQuery {
        white: p.colors[0],
        black: p.colors[1],
        kings: p.pieces[5],
        queens: p.pieces[4],
        rooks: p.pieces[3],
        bishops: p.pieces[2],
        knights: p.pieces[1],
        pawns: p.pieces[0],
        rule50: p.halfmove_clock as u32,
        castling: 0,
        ep: 0,
        turn: p.white_to_move,
    }
}

/// Builds the root query of a position.
pub fn root_query(position: &Position) -> (q: RootQuery)
    ensures
        q == spec_root_query(position@),
{
    RootQuery {
        white: position.colors(crate::position::Color::White),
        black: position.colors(crate::position::Color::Black),
        kings: position.pieces(Piece::King),
        queens: position.pieces(Piece::Queen),
        rooks: position.pieces(Piece::Rook),
        bishops: position.pieces(Piece::Bishop),
        knights: position.pieces(Piece::Knight),
        pawns: position.pieces(Piece::Pawn),
        rule50: position.halfmove_clock() as u32,
        castling: 0,
        ep: 0,
        turn: position.white_to_move(),
    }
}

/// The most pieces a position may hold to be probed: the backend's largest
/// tablebase, taken as a byte, and never more than `PIECES_LIMIT`.
pub open spec fn spec_max_pieces(largest: u32) -> u8 {
    let hard = (largest % 256) as u8;
    if hard < PIECES_LIMIT { hard } else { PIECES_LIMIT }
}

/// Gets the maximal piece count that the loaded tablebases support, given
/// the size of the backend's largest tablebase; 0 where none is loaded.
pub fn get_max_pieces_count(largest: u32) -> (n: u8)
    ensures
        n == spec_max_pieces(largest),
        n <= PIECES_LIMIT,
{
    let hard = (largest % 256) as u8;
    if hard < PIECES_LIMIT {
        hard
    } else {
        PIECES_LIMIT
    }
}

/// The value field of a probe result.
pub open spec fn wdl_field(word: u32) -> u32 {
    (word & TB_RESULT_WDL_MASK) >> TB_RESULT_WDL_SHIFT
}

/// The value that a probe result gives the side to move: a win or a loss
/// where the field says so, a draw for every other field.
pub open spec fn spec_wdl_of(word: u32) -> WDL {
    if wdl_field(word) == TB_WIN {
        WDL::Win
    } else if wdl_field(word) == TB_LOSS {
        WDL::Loss
    } else {
        WDL::Draw
    }
}

/// What a root probe result says of the value alone: nothing where the
/// probe failed, the value for the side to move otherwise.
pub open spec fn spec_root_wdl(word: u32) -> Option<WDL> {
    if word == TB_RESULT_FAILED {
        None
    } else {
        Some(spec_wdl_of(word))
    }
}

fn wdl_of(word: u32) -> (w: WDL)
    ensures
        w == spec_wdl_of(word),
{
    let field = (word & TB_RESULT_WDL_MASK) >> TB_RESULT_WDL_SHIFT;
    if field == TB_WIN {
        WDL::Win
    } else if field == TB_LOSS {
        WDL::Loss
    } else {
        WDL::Draw
    }
}

/// Reads the value off a root probe result.
pub fn root_wdl(word: u32) -> (r: Option<WDL>)
    ensures
        r == spec_root_wdl(word),
{
    if word == TB_RESULT_FAILED {
        None
    } else {
        Some(wdl_of(word))
    }
}

/// The source square field of a probe result.
pub open spec fn from_field(word: u32) -> u32 {
    (word & TB_RESULT_FROM_MASK) >> TB_RESULT_FROM_SHIFT
}

/// The target square field of a probe result.
pub open spec fn to_field(word: u32) -> u32 {
    (word & TB_RESULT_TO_MASK) >> TB_RESULT_TO_SHIFT
}

/// The promotion field of a probe result.
pub open spec fn promotes_field(word: u32) -> u32 {
    (word & TB_RESULT_PROMOTES_MASK) >> TB_RESULT_PROMOTES_SHIFT
}

/// The distance-to-zeroing field of a probe result.
pub open spec fn dtz_field(word: u32) -> u32 {
    (word & TB_RESULT_DTZ_MASK) >> TB_RESULT_DTZ_SHIFT
}

/// The piece that a promotion field names, if it names one.
pub open spec fn spec_promotion_piece(field: u32) -> Option<Piece> {
    if field == TB_PROMOTES_QUEEN {
        Some(Piece::Queen)
    } else if field == TB_PROMOTES_ROOK {
        Some(Piece::Rook)
    } else if field == TB_PROMOTES_BISHOP {
        Some(Piece::Bishop)
    } else if field == TB_PROMOTES_KNIGHT {
        Some(Piece::Knight)
    } else {
        None
    }
}

/// Whether a legal move is the one that a probe result names: same source,
/// same target, and the same promotion unless the result names none.
pub open spec fn names_move(word: u32, m: Move) -> bool {
    &&& m.from as u32 == from_field(word)
    &&& m.to as u32 == to_field(word)
    &&& (promotes_field(word) == 0 || m.promotion == spec_promotion_piece(promotes_field(word)))
}

/// What a root probe result says, given the legal moves of the position:
/// nothing where the probe failed or no legal move is the one it names;
/// otherwise value and distance with the first legal move it names.
pub open spec fn spec_root_result(word: u32, moves: Seq<Move>) -> Option<WdlDtzResult> {
    if word == TB_RESULT_FAILED {
        None
    } else if exists|i: int| 0 <= i < moves.len() && names_move(word, #[trigger] moves[i]) {
        let first = choose|i: int|
            0 <= i < moves.len() && names_move(word, #[trigger] moves[i]) && forall|j: int|
                0 <= j < i ==> !names_move(word, #[trigger] moves[j]);
        Some(WdlDtzResult { wdl: spec_wdl_of(word), dtz: dtz_field(word), best_move: moves[first] })
    } else {
        None
    }
}

fn promotion_piece(field: u32) -> (p: Option<Piece>)
    ensures
        p == spec_promotion_piece(field),
{
    if field == TB_PROMOTES_QUEEN {
        Some(Piece::Queen)
    } else if field == TB_PROMOTES_ROOK {
        Some(Piece::Rook)
    } else if field == TB_PROMOTES_BISHOP {
        Some(Piece::Bishop)
    } else if field == TB_PROMOTES_KNIGHT {
        Some(Piece::Knight)
    } else {
        None
    }
}

fn same_promotion(a: Option<Piece>, b: Option<Piece>) -> (e: bool)
    ensures
        e == (a == b),
{
    match (a, b) {
        (None, None) => true,
        (Some(x), Some(y)) => x.index() == y.index(),
        _ => false,
    }
}

/// Reads a root probe result against the legal moves of the position.
pub fn root_result(word: u32, moves: &Vec<Move>) -> (r: Option<WdlDtzResult>)
    ensures
        r == spec_root_result(word, moves@),
        r is None <==> word == TB_RESULT_FAILED || forall|i: int|
            0 <= i < moves.len() ==> !names_move(word, #[trigger] moves[i]),
        r matches Some(found) ==> found.wdl == spec_wdl_of(word) && found.dtz == dtz_field(word)
            && exists|i: int|
            0 <= i < moves.len() && #[trigger] moves[i] == found.best_move && names_move(
                word,
                moves[i],
            ) && forall|j: int| 0 <= j < i ==> !names_move(word, #[trigger] moves[j]),
{
    let wdl = wdl_of(word);
    let dtz = (word & TB_RESULT_DTZ_MASK) >> TB_RESULT_DTZ_SHIFT;
    if word == TB_RESULT_FAILED {
        return None;
    }
    let from = (word & TB_RESULT_FROM_MASK) >> TB_RESULT_FROM_SHIFT;
    let to = (word & TB_RESULT_TO_MASK) >> TB_RESULT_TO_SHIFT;
    let promotion = (word & TB_RESULT_PROMOTES_MASK) >> TB_RESULT_PROMOTES_SHIFT;
    let promo_piece_type = promotion_piece(promotion);
    let mut i: usize = 0;
    while i < moves.len()
        invariant
            0 <= i <= moves.len(),
            word != TB_RESULT_FAILED,
            wdl == spec_wdl_of(word),
            dtz == dtz_field(word),
            from == from_field(word),
            to == to_field(word),
            promotion == promotes_field(word),
            promo_piece_type == spec_promotion_piece(promotion),
            forall|j: int| 0 <= j < i ==> !names_move(word, #[trigger] moves[j]),
        decreases moves.len() - i,
    {
        let m = moves[i];
        if m.from as u32 == from && m.to as u32 == to && (promotion == 0 || same_promotion(
            m.promotion,
            promo_piece_type,
        )) {
            proof {
                assert(names_move(word, moves@[i as int]));
                let first = choose|k: int|
                    0 <= k < moves.len() && names_move(word, #[trigger] moves@[k]) && forall|j: int|
                        0 <= j < k ==> !names_move(word, #[trigger] moves@[j]);
                assert(first == i) by {
                    if first < i {
                        assert(!names_move(word, moves@[first]));
                    }
                    if i < first {
                        assert(!names_move(word, moves@[i as int]));
                    }
                }
            }
            return Some(WdlDtzResult { wdl, dtz, best_move: m });
        }
        i += 1;
    }
    None
}

/// What `Board::generate_moves` of the rules engine hands out for a board:
/// its legal moves in the engine's order, each as source square, target
/// square and promotion piece by their numbers in the engine's enums.
pub uninterp spec fn board_move_list(board: Board) -> Seq<(u8, u8, Option<u8>)>;

/// `Board::generate_moves` of the rules engine: the legal moves of the
/// board in the order in which the engine hands them out, each as source
/// square, target square and promotion piece by their numbers in the
/// engine's enums. The engine has 64 squares and 6 piece types, so every
/// number is below that. The list is a function of the board alone. The
/// engine looks up the king of the side to move and fails where there is
/// none, so only a sound board is admitted.
#[verifier::external_body]
fn board_moves(board: &Board) -> (moves: Vec<(u8, u8, Option<u8>)>)
    requires
        board_view(*board).valid(),
    ensures
        moves@ == board_move_list(*board),
        forall|i: int|
            0 <= i < moves.len() ==> (#[trigger] moves[i]).0 < 64 && moves[i].1 < 64 && (moves[i].2
                matches Some(p) ==> p < 6),
{
    let mut moves = Vec::new();
    board.generate_moves(
        |set| {
            moves.extend(set.into_iter().map(|m| (m.from as u8, m.to as u8, m.promotion.map(|p| p as u8))));
            false
        },
    );
    moves
}

/// The move that the rules engine's numbers describe: squares as they are,
/// the promotion piece by its number.
pub open spec fn spec_move_of(raw: (u8, u8, Option<u8>)) -> Move {
    Move {
        from: raw.0,
        to: raw.1,
        promotion: match raw.2 {
            Some(p) => if p == 0 {
                Some(Piece::Pawn)
            } else if p == 1 {
                Some(Piece::Knight)
            } else if p == 2 {
                Some(Piece::Bishop)
            } else if p == 3 {
                Some(Piece::Rook)
            } else if p == 4 {
                Some(Piece::Queen)
            } else if p == 5 {
                Some(Piece::King)
            } else {
                None
            },
            None => None,
        },
    }
}

/// Turns moves given by the rules engine's numbers into moves, one for one
/// and in the same order.
pub fn moves_of(raw: &Vec<(u8, u8, Option<u8>)>) -> (moves: Vec<Move>)
    ensures
        moves.len() == raw.len(),
        forall|i: int| 0 <= i < raw.len() ==> #[trigger] moves[i] == spec_move_of(raw[i]),
{
    let mut moves: Vec<Move> = Vec::new();
    let mut i: usize = 0;
    while i < raw.len()
        invariant
            0 <= i <= raw.len(),
            moves.len() == i,
            forall|k: int| 0 <= k < i ==> #[trigger] moves[k] == spec_move_of(raw[k]),
        decreases raw.len() - i,
    {
        let (from, to, promotion) = raw[i];
        let promotion = match promotion {
            Some(p) => Piece::from_index(p),
            None => None,
        };
        moves.push(Move { from, to, promotion });
        i += 1;
    }
    moves
}

/// The legal moves of a sound board of the rules engine: the moves that
/// the engine hands out, one for one and in the engine's order. Every move
/// starts and ends on the board.
pub fn legal_moves(board: &Board) -> (moves: Vec<Move>)
    requires
        board_view(*board).valid(),
    ensures
        moves.len() == board_move_list(*board).len(),
        forall|i: int|
            0 <= i < moves.len() ==> #[trigger] moves[i] == spec_move_of(board_move_list(*board)[i]),
        forall|i: int| 0 <= i < moves.len() ==> (#[trigger] moves[i]).from < 64 && moves[i].to < 64,
{
    let raw = board_moves(board);
    let moves = moves_of(&raw);
    proof {
        assert forall|i: int| 0 <= i < moves.len() implies (#[trigger] moves[i]).from < 64
            && moves[i].to < 64 by {
            assert(moves[i] == spec_move_of(raw[i]));
        }
    }
    moves
}

/// The legal moves of a board of the rules engine, or nothing where the
/// board is not sound: the board is tested first, and the engine is asked
/// only for a sound one.
pub fn try_legal_moves(board: &Board) -> (r: Option<Vec<Move>>)
    ensures
        r is Some <==> board_view(*board).valid(),
        r matches Some(moves) ==> moves.len() == board_move_list(*board).len() && forall|i: int|
            0 <= i < moves.len() ==> #[trigger] moves[i] == spec_move_of(board_move_list(*board)[i]),
{
    match Position::from_board(board) {
        Ok(_) => Some(legal_moves(board)),
        Err(_) => None,
    }
}

/// The value of a position for White, given its value for the side to
/// move: the same where White is to move, the complement where Black is.
pub open spec fn spec_white_perspective(wdl: WDL, white_to_move: bool) -> WDL {
    if white_to_move {
        wdl
    } else {
        wdl.spec_flip()
    }
}

/// Turns a value for the side to move into a value for White.
#[verifier::when_used_as_spec(spec_white_perspective)]
pub fn white_perspective(wdl: WDL, white_to_move: bool) -> (w: WDL)
    ensures
        w == spec_white_perspective(wdl, white_to_move),
{
    match wdl {
        WDL::Win => if white_to_move {
            WDL::Win
        } else {
            WDL::Loss
        },
        WDL::Draw => WDL::Draw,
        WDL::Loss => if white_to_move {
            WDL::Loss
        } else {
            WDL::Win
        },
    }
}


/// Whether a position has few enough pieces to be probed.
pub open spec fn spec_probeable(p: PositionView, max_pieces: u8) -> bool {
    p.piece_count() <= max_pieces
}

/// What the adapter answers for a position, given the result of the root
/// probe: nothing where the probe failed, the value for White otherwise.
pub open spec fn spec_wdl_white(p: PositionView, word: u32) -> Option<WDL> {
    match spec_root_wdl(word) {
        None => None,
        Some(w) => Some(spec_white_perspective(w, p.white_to_move)),
    }
}

/// The complement of an answer: a win for a loss, a loss for a win, a draw
/// and no answer as they are.
pub open spec fn spec_complement(answer: Option<WDL>) -> Option<WDL> {
    match answer {
        None => None,
        Some(w) => Some(w.spec_flip()),
    }
}

/// Perspective flip: for one and the same probe result, the adapter's
/// answer for a position with Black to move is the complement of its answer
/// for the position with the same material and White to move. A win becomes
/// a loss, a loss a win, a draw stays a draw, and complementing twice gives
/// the answer back.
pub proof fn lemma_perspective_flip(white: PositionView, black: PositionView, word: u32)
    requires
        white.white_to_move,
        !black.white_to_move,
    ensures
        spec_wdl_white(black, word) == spec_complement(spec_wdl_white(white, word)),
        spec_wdl_white(white, word) == spec_root_wdl(word),
        spec_complement(spec_complement(spec_wdl_white(white, word))) == spec_wdl_white(white, word),
        spec_complement(Some(WDL::Win)) == Some(WDL::Loss),
        spec_complement(Some(WDL::Loss)) == Some(WDL::Win),
        spec_complement(Some(WDL::Draw)) == Some(WDL::Draw),
{
}

/// The adapter's answer for a position that was probed with this result.
pub fn wdl_white_of(position: &Position, word: u32) -> (r: Option<WDL>)
    ensures
        r == spec_wdl_white(position@, word),
{
    match root_wdl(word) {
        None => None,
        Some(w) => Some(white_perspective(w, position.white_to_move())),
    }
}

/// `answer` is what the adapter may answer for a position: nothing where
/// the position has too many pieces, and otherwise what a result of the
/// backend on the position's root query says.
pub open spec fn answers<P: Fn(&RootQuery) -> u32>(
    probe: P,
    max_pieces: u8,
    p: PositionView,
    answer: Option<WDL>,
) -> bool {
    if spec_probeable(p, max_pieces) {
        exists|word: u32| #[trigger]
            call_ensures(probe, (&spec_root_query(p),), word) && answer == spec_wdl_white(p, word)
    } else {
        answer is None
    }
}

/// Gets the value of the position for the side to move from the backend.
/// Returns `None` where the probe failed.
pub fn get_root_wdl<P: Fn(&RootQuery) -> u32>(position: &Position, probe: &P) -> (r: Option<WDL>)
    requires
        forall|q: &RootQuery| call_requires(probe, (q,)),
    ensures
        exists|word: u32| #[trigger]
            call_ensures(*probe, (&spec_root_query(position@),), word) && r == spec_root_wdl(word),
{
    let query = root_query(position);
    let word = probe(&query);
    root_wdl(word)
}

/// Gets the value of the position from the perspective of White. Returns
/// `None` where the position has more than `max_pieces` pieces, in which
/// case the backend is not asked, or where the probe failed.
pub fn get_wdl_white<P: Fn(&RootQuery) -> u32>(
    position: &Position,
    max_pieces: u8,
    probe: &P,
) -> (r: Option<WDL>)
    requires
        forall|q: &RootQuery| call_requires(probe, (q,)),
    ensures
        answers(*probe, max_pieces, position@, r),
        !spec_probeable(position@, max_pieces) ==> r is None,
{
    if position.piece_count() > max_pieces {
        return None;
    }
    let query = root_query(position);
    let word = probe(&query);
    wdl_white_of(position, word)
}

/// Gets value, distance to zeroing and best move of the position from the
/// backend, given the position's legal moves. Returns `None` where the
/// probe failed or named no legal move.
pub fn get_root_wdl_dtz<P: Fn(&RootQuery) -> u32>(
    position: &Position,
    moves: &Vec<Move>,
    probe: &P,
) -> (r: Option<WdlDtzResult>)
    requires
        forall|q: &RootQuery| call_requires(probe, (q,)),
    ensures
        exists|word: u32| #[trigger]
            call_ensures(*probe, (&spec_root_query(position@),), word) && r == spec_root_result(
                word,
                moves@,
            ),
{
    let query = root_query(position);
    let word = probe(&query);
    root_result(word, moves)
}

/// The score of a value: 1 for a win, 0 for a draw, -1 for a loss.
pub open spec fn spec_score(wdl: WDL) -> i32 {
    match wdl {
        WDL::Win => 1i32,
        WDL::Draw => 0i32,
        WDL::Loss => (-1i32) as i32,
    }
}

/// A root result as move and score.
pub open spec fn spec_move_and_score(r: Option<WdlDtzResult>) -> Option<(Move, i32)> {
    match r {
        None => None,
        Some(found) => Some((found.best_move, spec_score(found.wdl))),
    }
}

/// Turns a root result into the move to play and its score.
pub fn move_and_score(r: Option<WdlDtzResult>) -> (out: Option<(Move, i32)>)
    ensures
        out == spec_move_and_score(r),
{
    match r {
        None => None,
        Some(found) => {
            let score: i32 = match found.wdl {
                WDL::Win => 1,
                WDL::Draw => 0,
                WDL::Loss => -1,
            };
            Some((found.best_move, score))
        },
    }
}

/// Checks if there is a tablebase move and returns it with its score for
/// the side to move, otherwise `None`: where the position has more than
/// `max_pieces` pieces, in which case the backend is not asked, where the
/// probe failed, or where it named no legal move.
pub fn get_tablebase_move<P: Fn(&RootQuery) -> u32>(
    position: &Position,
    moves: &Vec<Move>,
    max_pieces: u8,
    probe: &P,
) -> (r: Option<(Move, i32)>)
    requires
        forall|q: &RootQuery| call_requires(probe, (q,)),
    ensures
        !spec_probeable(position@, max_pieces) ==> r is None,
        spec_probeable(position@, max_pieces) ==> exists|word: u32| #[trigger]
            call_ensures(*probe, (&spec_root_query(position@),), word) && r == spec_move_and_score(
                spec_root_result(word, moves@),
            ),
{
    if position.piece_count() > max_pieces {
        return None;
    }
    let result = get_root_wdl_dtz(position, moves, probe);
    move_and_score(result)
}

} // verus!
