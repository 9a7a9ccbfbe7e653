use cozy_chess::Board;
use marlinflow_utils::input_features::board_768::{feature, Board768, FEATURES};
use marlinflow_utils::position::{Color, Piece, Position};

fn position(fen: &str) -> Position {
    Position::from_board(&fen.parse::<Board>().unwrap()).unwrap()
}

#[test]
fn feature_indices() {
    assert_eq!(FEATURES, 768);
    assert_eq!(Board768::MAX_INDICES, 64);
    assert_eq!(feature(Color::White, Color::White, Piece::Pawn, 0), 0);
    assert_eq!(feature(Color::White, Color::White, Piece::Pawn, 63), 63);
    assert_eq!(feature(Color::White, Color::White, Piece::Knight, 0), 64);
    assert_eq!(feature(Color::White, Color::White, Piece::King, 4), 5 * 64 + 4);
    assert_eq!(feature(Color::White, Color::Black, Piece::Pawn, 0), 384);
    assert_eq!(feature(Color::White, Color::Black, Piece::King, 63), 767);
    // from Black's side the board is mirrored and the colours are swapped
    assert_eq!(feature(Color::Black, Color::Black, Piece::Pawn, 56), 0);
    assert_eq!(feature(Color::Black, Color::Black, Piece::King, 60), 5 * 64 + 4);
    assert_eq!(feature(Color::Black, Color::White, Piece::King, 4), 384 + 5 * 64 + 60);
    assert_eq!(feature(Color::Black, Color::White, Piece::Pawn, 9), 384 + 49);
}

#[test]
fn a_player_sees_the_own_pieces_alike_with_either_colour() {
    for piece in [Piece::Pawn, Piece::Knight, Piece::Bishop, Piece::Rook, Piece::Queen, Piece::King]
    {
        for square in 0..64u8 {
            let mirrored = square ^ 56;
            assert_eq!(
                feature(Color::White, Color::White, piece, square),
                feature(Color::Black, Color::Black, piece, mirrored)
            );
            assert_eq!(
                feature(Color::White, Color::Black, piece, square),
                feature(Color::Black, Color::White, piece, mirrored)
            );
        }
    }
}

#[test]
fn the_features_of_a_small_position() {
    // white: king e1, rook a1; black: king e8; White to move
    let features = Board768::add_features(&position("4k3/8/8/8/8/8/8/R3K3 w - - 0 1"));
    assert_eq!(
        features,
        vec![
            // white rook a1
            (3 * 64, 384 + 3 * 64 + 56),
            // white king e1
            (5 * 64 + 4, 384 + 5 * 64 + 60),
            // black king e8
            (384 + 5 * 64 + 60, 5 * 64 + 4),
        ]
    );
    // the same with Black to move: the two perspectives change places
    let features = Board768::add_features(&position("4k3/8/8/8/8/8/8/R3K3 b - - 0 1"));
    assert_eq!(
        features,
        vec![
            (384 + 3 * 64 + 56, 3 * 64),
            (384 + 5 * 64 + 60, 5 * 64 + 4),
            (5 * 64 + 4, 384 + 5 * 64 + 60),
        ]
    );
}

#[test]
fn the_features_of_the_start_position() {
    let features = Board768::add_features(&position(
        "rnbqkbnr/pppppppp/8/8/8/8/PPPPPPPP/RNBQKBNR w KQkq - 0 1",
    ));
    assert_eq!(features.len(), 32);
    // white pawns a2 to h2 come first
    for (i, f) in features.iter().take(8).enumerate() {
        assert_eq!(*f, (8 + i as i64, 384 + 48 + i as i64));
    }
    assert!(features.iter().all(|&(a, b)| (0..768).contains(&a) && (0..768).contains(&b)));
    // the position is symmetric: what the one side sees, the other sees too
    let mut stm: Vec<i64> = features.iter().map(|f| f.0).collect();
    let mut nstm: Vec<i64> = features.iter().map(|f| f.1).collect();
    stm.sort();
    nstm.sort();
    assert_eq!(stm, nstm);
}

#[test]
fn one_feature_pair_per_piece() {
    for fen in [
        "rnbqkbnr/pppppppp/8/8/8/8/PPPPPPPP/RNBQKBNR w KQkq - 0 1",
        "4k3/8/8/8/8/8/8/R3K3 b - - 0 1",
        "r3k2r/pp1n1ppp/2p1pn2/q7/1bPP4/2N1PN2/PP1B1PPP/R2QKB1R w KQkq - 3 9",
        "7k/8/8/8/8/8/8/K7 w - - 0 1",
    ] {
        let p = position(fen);
        let features = Board768::add_features(&p);
        assert_eq!(features.len(), p.piece_count() as usize);
        assert!(features.len() <= Board768::MAX_INDICES);
    }
}
