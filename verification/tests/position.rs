use cozy_chess::Board;
use marlinflow_utils::bits::{count_squares, first_square};
use marlinflow_utils::position::{Color, Piece, Position};
use marlinflow_utils::record::CodecError;

const WHITE_START: u64 = 0x0000_0000_0000_ffff;
const BLACK_START: u64 = 0xffff_0000_0000_0000;
const START_PIECES: [u64; 6] = [
    0x00ff_0000_0000_ff00,
    0x4200_0000_0000_0042,
    0x2400_0000_0000_0024,
    0x8100_0000_0000_0081,
    0x0800_0000_0000_0008,
    0x1000_0000_0000_0010,
];

#[test]
fn squares_are_counted() {
    assert_eq!(count_squares(0), 0);
    assert_eq!(count_squares(1), 1);
    assert_eq!(count_squares(u64::MAX), 64);
    assert_eq!(count_squares(0x8000_0000_0000_0001), 2);
    assert_eq!(count_squares(WHITE_START), 16);
    for x in [3u64, 0xdead_beef, 0x1234_5678_9abc_def0, 1 << 63] {
        assert_eq!(count_squares(x) as u32, x.count_ones());
    }
}

#[test]
fn the_lowest_square_is_found() {
    assert_eq!(first_square(1), 0);
    assert_eq!(first_square(0b1000), 3);
    assert_eq!(first_square(1 << 63), 63);
    assert_eq!(first_square(0x1000_0000_0000_0010), 4);
}

#[test]
fn the_start_position_from_bitboards() {
    let p = Position::new([WHITE_START, BLACK_START], START_PIECES, true, 0, 1).unwrap();
    assert_eq!(p.piece_count(), 32);
    assert_eq!(p.king(Color::White), 4);
    assert_eq!(p.king(Color::Black), 60);
    assert_eq!(p.type_count(Piece::Pawn), 16);
    assert_eq!(p.type_count(Piece::Knight), 4);
    assert_eq!(p.type_count(Piece::Bishop), 4);
    assert_eq!(p.type_count(Piece::Rook), 4);
    assert_eq!(p.type_count(Piece::Queen), 2);
    assert_eq!(p.type_count(Piece::King), 2);
    assert_eq!(p.occupied(), WHITE_START | BLACK_START);
    assert_eq!(p.side_to_move(), Color::White);
    assert!(p.white_to_move());
    assert_eq!(p.halfmove_clock(), 0);
    assert_eq!(p.fullmove_number(), 1);
}

#[test]
fn the_start_position_from_the_rules_engine() {
    let p = Position::from_board(&Board::default()).unwrap();
    let q = Position::new([WHITE_START, BLACK_START], START_PIECES, true, 0, 1).unwrap();
    assert_eq!(p, q);
    assert_eq!(p.colors(Color::White), WHITE_START);
    assert_eq!(p.colors(Color::Black), BLACK_START);
    assert_eq!(p.pieces(Piece::Pawn), START_PIECES[0]);
    assert_eq!(p.pieces(Piece::Knight), START_PIECES[1]);
    assert_eq!(p.pieces(Piece::Bishop), START_PIECES[2]);
    assert_eq!(p.pieces(Piece::Rook), START_PIECES[3]);
    assert_eq!(p.pieces(Piece::Queen), START_PIECES[4]);
    assert_eq!(p.pieces(Piece::King), START_PIECES[5]);
}

#[test]
fn side_to_move_and_counters_are_read_off_the_board() {
    let board: Board = "4k3/8/8/8/8/8/8/R3K3 b - - 37 112".parse().unwrap();
    let p = Position::from_board(&board).unwrap();
    assert!(!p.white_to_move());
    assert_eq!(p.side_to_move(), Color::Black);
    assert_eq!(p.halfmove_clock(), 37);
    assert_eq!(p.fullmove_number(), 112);
    assert_eq!(p.piece_count(), 3);
    assert_eq!(p.king(Color::White), 4);
    assert_eq!(p.king(Color::Black), 60);
    assert_eq!(p.type_count(Piece::Rook), 1);
    assert_eq!(p.pieces(Piece::Rook), 1);
}

#[test]
fn two_piece_types_on_one_square_are_refused() {
    let mut pieces = START_PIECES;
    pieces[1] |= 1 << 8; // a knight on a pawn's square
    let r = Position::new([WHITE_START, BLACK_START], pieces, true, 0, 1);
    assert_eq!(r, Err(CodecError::InvalidPosition));
}

#[test]
fn two_colours_on_one_square_are_refused() {
    let r = Position::new([WHITE_START | (1 << 63), BLACK_START], START_PIECES, true, 0, 1);
    assert_eq!(r, Err(CodecError::InvalidPosition));
}

#[test]
fn a_piece_without_colour_is_refused() {
    let mut pieces = START_PIECES;
    pieces[4] |= 1 << 30;
    let r = Position::new([WHITE_START, BLACK_START], pieces, true, 0, 1);
    assert_eq!(r, Err(CodecError::InvalidPosition));
    let r = Position::new([WHITE_START | (1 << 30), BLACK_START], START_PIECES, true, 0, 1);
    assert_eq!(r, Err(CodecError::InvalidPosition));
}

#[test]
fn a_side_without_king_or_with_two_is_refused() {
    // no black king
    let mut pieces = [0u64; 6];
    pieces[5] = 1 << 4;
    assert_eq!(
        Position::new([1 << 4, 0], pieces, true, 0, 1),
        Err(CodecError::InvalidPosition)
    );
    // two white kings
    pieces[5] = (1 << 4) | (1 << 5) | (1 << 60);
    assert_eq!(
        Position::new([(1 << 4) | (1 << 5), 1 << 60], pieces, true, 0, 1),
        Err(CodecError::InvalidPosition)
    );
    // one each
    pieces[5] = (1 << 4) | (1 << 60);
    assert!(Position::new([1 << 4, 1 << 60], pieces, false, 3, 9).is_ok());
}

#[test]
fn more_than_sixteen_pieces_of_a_colour_are_refused() {
    let mut pieces = START_PIECES;
    pieces[0] |= 1 << 16;
    let r = Position::new([WHITE_START | (1 << 16), BLACK_START], pieces, true, 0, 1);
    assert_eq!(r, Err(CodecError::InvalidPosition));
}

#[test]
fn piece_types_by_number() {
    assert_eq!(Piece::from_index(0), Some(Piece::Pawn));
    assert_eq!(Piece::from_index(5), Some(Piece::King));
    assert_eq!(Piece::from_index(6), None);
    assert_eq!(Piece::from_index(255), None);
    for i in 0..6u8 {
        assert_eq!(Piece::from_index(i).unwrap().index(), i as usize);
    }
    assert_eq!(Color::White.index(), 0);
    assert_eq!(Color::Black.index(), 1);
    assert_eq!(Color::White.other(), Color::Black);
    assert_eq!(Color::Black.other(), Color::White);
}
