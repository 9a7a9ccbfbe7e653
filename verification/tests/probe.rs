use cozy_chess::Board;
use marlinflow_utils::position::{Piece, Position};
use marlinflow_utils::tablebases::probe::{
    get_max_pieces_count, get_root_wdl, get_root_wdl_dtz, get_tablebase_move, get_wdl_white,
    legal_moves, move_and_score, moves_of, root_query, try_legal_moves, root_result, root_wdl, white_perspective,
    wdl_white_of, Move, RootQuery, WdlDtzResult, TB_RESULT_FAILED, WDL,
};
use std::cell::Cell;

fn position(fen: &str) -> Position {
    Position::from_board(&fen.parse::<Board>().unwrap()).unwrap()
}

/// A probe result with these fields.
fn word(wdl: u32, to: u32, from: u32, promotes: u32, dtz: u32) -> u32 {
    wdl | (to << 4) | (from << 10) | (promotes << 16) | (dtz << 20)
}

const KRK_WHITE: &str = "4k3/8/8/8/8/8/8/R3K3 w - - 5 40";
const KRK_BLACK: &str = "4k3/8/8/8/8/8/8/R3K3 b - - 5 40";
const KPK_PROMOTION: &str = "8/4P1k1/8/8/8/8/8/4K3 w - - 0 1";

#[test]
fn outcome_numbers() {
    assert_eq!(WDL::Loss.ordinal(), 0);
    assert_eq!(WDL::Draw.ordinal(), 1);
    assert_eq!(WDL::Win.ordinal(), 2);
    assert_eq!(WDL::from_ordinal(0), Some(WDL::Loss));
    assert_eq!(WDL::from_ordinal(1), Some(WDL::Draw));
    assert_eq!(WDL::from_ordinal(2), Some(WDL::Win));
    assert_eq!(WDL::from_ordinal(3), None);
    assert_eq!(WDL::from_ordinal(255), None);
    for w in [WDL::Win, WDL::Draw, WDL::Loss] {
        assert_eq!(WDL::from_ordinal(w.ordinal()), Some(w));
        assert_eq!(w.flip().flip(), w);
    }
    assert_eq!(WDL::Win.flip(), WDL::Loss);
    assert_eq!(WDL::Loss.flip(), WDL::Win);
    assert_eq!(WDL::Draw.flip(), WDL::Draw);
}

#[test]
fn max_pieces_is_the_largest_tablebase_capped_at_32() {
    assert_eq!(get_max_pieces_count(0), 0);
    assert_eq!(get_max_pieces_count(5), 5);
    assert_eq!(get_max_pieces_count(7), 7);
    assert_eq!(get_max_pieces_count(32), 32);
    assert_eq!(get_max_pieces_count(33), 32);
    assert_eq!(get_max_pieces_count(255), 32);
    // the size is taken as a byte
    assert_eq!(get_max_pieces_count(256), 0);
    assert_eq!(get_max_pieces_count(256 + 6), 6);
}

#[test]
fn the_value_field_of_a_probe_result() {
    assert_eq!(root_wdl(word(4, 0, 0, 0, 0)), Some(WDL::Win));
    assert_eq!(root_wdl(word(0, 0, 0, 0, 0)), Some(WDL::Loss));
    assert_eq!(root_wdl(word(2, 0, 0, 0, 0)), Some(WDL::Draw));
    // cursed wins and blessed losses count as draws
    assert_eq!(root_wdl(word(3, 0, 0, 0, 0)), Some(WDL::Draw));
    assert_eq!(root_wdl(word(1, 0, 0, 0, 0)), Some(WDL::Draw));
    // the other fields do not matter
    assert_eq!(root_wdl(word(4, 63, 12, 1, 100)), Some(WDL::Win));
    assert_eq!(root_wdl(TB_RESULT_FAILED), None);
}

#[test]
fn perspective_flip() {
    assert_eq!(white_perspective(WDL::Win, true), WDL::Win);
    assert_eq!(white_perspective(WDL::Win, false), WDL::Loss);
    assert_eq!(white_perspective(WDL::Loss, true), WDL::Loss);
    assert_eq!(white_perspective(WDL::Loss, false), WDL::Win);
    assert_eq!(white_perspective(WDL::Draw, true), WDL::Draw);
    assert_eq!(white_perspective(WDL::Draw, false), WDL::Draw);
    let white = position(KRK_WHITE);
    let black = position(KRK_BLACK);
    for w in [word(4, 0, 0, 0, 0), word(0, 0, 0, 0, 0), word(2, 0, 0, 0, 0), TB_RESULT_FAILED] {
        let as_white = wdl_white_of(&white, w);
        let as_black = wdl_white_of(&black, w);
        assert_eq!(as_black, as_white.map(|v| v.flip()));
    }
    assert_eq!(wdl_white_of(&black, word(4, 0, 0, 0, 0)), Some(WDL::Loss));
    assert_eq!(wdl_white_of(&black, TB_RESULT_FAILED), None);
}

#[test]
fn the_root_query_of_a_position() {
    let q = root_query(&position(KRK_BLACK));
    assert_eq!(
        q,
        RootQuery {
            white: 0b10001,
            black: 1 << 60,
            kings: (1 << 4) | (1 << 60),
            queens: 0,
            rooks: 1,
            bishops: 0,
            knights: 0,
            pawns: 0,
            rule50: 5,
            castling: 0,
            ep: 0,
            turn: false,
        }
    );
    assert!(root_query(&position(KRK_WHITE)).turn);
}

#[test]
fn the_adapter_hands_the_root_query_to_the_backend() {
    let p = position(KRK_WHITE);
    let seen = Cell::new(None);
    let probe = |q: &RootQuery| {
        seen.set(Some(*q));
        word(4, 0, 0, 0, 0)
    };
    assert_eq!(get_wdl_white(&p, 5, &probe), Some(WDL::Win));
    assert_eq!(seen.get(), Some(root_query(&p)));
    assert_eq!(get_root_wdl(&p, &probe), Some(WDL::Win));
}

#[test]
fn the_adapter_answers_nothing_without_asking_above_the_piece_limit() {
    let p = position(KRK_WHITE);
    let asked = Cell::new(0);
    let probe = |_q: &RootQuery| {
        asked.set(asked.get() + 1);
        word(4, 0, 0, 0, 0)
    };
    // three pieces on the board
    assert_eq!(get_wdl_white(&p, 2, &probe), None);
    assert_eq!(get_wdl_white(&p, 0, &probe), None);
    assert_eq!(asked.get(), 0);
    assert_eq!(get_wdl_white(&p, 3, &probe), Some(WDL::Win));
    assert_eq!(asked.get(), 1);
    assert_eq!(get_tablebase_move(&p, &Vec::new(), 2, &probe), None);
    assert_eq!(asked.get(), 1);
}

#[test]
fn the_adapter_answers_nothing_where_the_probe_fails() {
    let p = position(KRK_BLACK);
    let probe = |_q: &RootQuery| TB_RESULT_FAILED;
    assert_eq!(get_wdl_white(&p, 32, &probe), None);
    assert_eq!(get_root_wdl(&p, &probe), None);
    assert_eq!(get_root_wdl_dtz(&p, &vec![Move { from: 0, to: 1, promotion: None }], &probe), None);
}

#[test]
fn the_adapter_flips_for_black_to_move() {
    let probe_loss = |_q: &RootQuery| word(0, 0, 0, 0, 0);
    let probe_draw = |_q: &RootQuery| word(2, 0, 0, 0, 0);
    assert_eq!(get_wdl_white(&position(KRK_BLACK), 5, &probe_loss), Some(WDL::Win));
    assert_eq!(get_wdl_white(&position(KRK_WHITE), 5, &probe_loss), Some(WDL::Loss));
    assert_eq!(get_wdl_white(&position(KRK_BLACK), 5, &probe_draw), Some(WDL::Draw));
    // the root value itself is for the side to move
    assert_eq!(get_root_wdl(&position(KRK_BLACK), &probe_loss), Some(WDL::Loss));
}

#[test]
fn the_root_result_names_the_first_matching_legal_move() {
    let moves = vec![
        Move { from: 0, to: 8, promotion: None },
        Move { from: 4, to: 12, promotion: None },
        Move { from: 0, to: 56, promotion: None },
        Move { from: 0, to: 56, promotion: Some(Piece::Queen) },
    ];
    let r = root_result(word(4, 56, 0, 0, 17), &moves);
    assert_eq!(
        r,
        Some(WdlDtzResult {
            wdl: WDL::Win,
            dtz: 17,
            best_move: Move { from: 0, to: 56, promotion: None }
        })
    );
    // no legal move from 1 to 2
    assert_eq!(root_result(word(4, 2, 1, 0, 17), &moves), None);
    assert_eq!(root_result(word(4, 56, 0, 0, 17), &Vec::new()), None);
    assert_eq!(root_result(TB_RESULT_FAILED, &moves), None);
    let r = root_result(word(0, 12, 4, 0, 4095), &moves).unwrap();
    assert_eq!(r.wdl, WDL::Loss);
    assert_eq!(r.dtz, 4095);
    assert_eq!(r.best_move, moves[1]);
}

#[test]
fn the_root_result_tells_promotions_apart() {
    let moves = vec![
        Move { from: 52, to: 60, promotion: Some(Piece::Knight) },
        Move { from: 52, to: 60, promotion: Some(Piece::Bishop) },
        Move { from: 52, to: 60, promotion: Some(Piece::Rook) },
        Move { from: 52, to: 60, promotion: Some(Piece::Queen) },
    ];
    let by_code = [(1, Piece::Queen), (2, Piece::Rook), (3, Piece::Bishop), (4, Piece::Knight)];
    for (code, piece) in by_code {
        let r = root_result(word(4, 60, 52, code, 1), &moves).unwrap();
        assert_eq!(r.best_move.promotion, Some(piece));
    }
    // without a promotion in the result, the first move on these squares
    let r = root_result(word(4, 60, 52, 0, 1), &moves).unwrap();
    assert_eq!(r.best_move.promotion, Some(Piece::Knight));
    // a promotion code that names no piece matches only a move without promotion
    assert_eq!(root_result(word(4, 60, 52, 5, 1), &moves), None);
    let plain = vec![Move { from: 52, to: 60, promotion: None }];
    assert!(root_result(word(4, 60, 52, 5, 1), &plain).is_some());
}

#[test]
fn move_and_score_of_a_root_result() {
    let m = Move { from: 1, to: 2, promotion: None };
    let r = |wdl| Some(WdlDtzResult { wdl, dtz: 3, best_move: m });
    assert_eq!(move_and_score(r(WDL::Win)), Some((m, 1)));
    assert_eq!(move_and_score(r(WDL::Draw)), Some((m, 0)));
    assert_eq!(move_and_score(r(WDL::Loss)), Some((m, -1)));
    assert_eq!(move_and_score(None), None);
}

#[test]
fn the_legal_moves_of_the_rules_engine() {
    let board = Board::default();
    let moves = legal_moves(&board);
    assert_eq!(moves.len(), 20);
    assert!(moves.contains(&Move { from: 12, to: 28, promotion: None })); // e2e4
    assert!(moves.contains(&Move { from: 6, to: 21, promotion: None })); // g1f3
    assert!(moves.iter().all(|m| m.promotion.is_none() && m.from < 16 && m.to < 32));
    let board: Board = KPK_PROMOTION.parse().unwrap();
    let moves = legal_moves(&board);
    for piece in [Piece::Knight, Piece::Bishop, Piece::Rook, Piece::Queen] {
        assert!(moves.contains(&Move { from: 52, to: 60, promotion: Some(piece) }));
    }
    assert!(!moves.contains(&Move { from: 52, to: 60, promotion: None }));
}

#[test]
fn the_tablebase_move_of_a_position() {
    let board: Board = KPK_PROMOTION.parse().unwrap();
    let p = Position::from_board(&board).unwrap();
    let moves = legal_moves(&board);
    let probe = |_q: &RootQuery| word(4, 60, 52, 1, 1);
    let found = get_tablebase_move(&p, &moves, 5, &probe);
    assert_eq!(found, Some((Move { from: 52, to: 60, promotion: Some(Piece::Queen) }, 1)));
    let r = get_root_wdl_dtz(&p, &moves, &probe).unwrap();
    assert_eq!(r.dtz, 1);
    assert_eq!(r.wdl, WDL::Win);
    let illegal = |_q: &RootQuery| word(4, 61, 52, 1, 1);
    assert_eq!(get_tablebase_move(&p, &moves, 5, &illegal), None);
}

#[test]
fn moves_by_the_numbers_of_the_rules_engine() {
    let raw = vec![(12, 28, None), (52, 60, Some(4)), (52, 60, Some(1)), (1, 2, Some(9))];
    assert_eq!(
        moves_of(&raw),
        vec![
            Move { from: 12, to: 28, promotion: None },
            Move { from: 52, to: 60, promotion: Some(Piece::Queen) },
            Move { from: 52, to: 60, promotion: Some(Piece::Knight) },
            Move { from: 1, to: 2, promotion: None },
        ]
    );
    assert!(moves_of(&Vec::new()).is_empty());
}

/// A board that lost its black king to a move that the rules forbid.
fn kingless_board() -> Board {
    let mut board = Board::default();
    board.play_unchecked(cozy_chess::Move {
        from: cozy_chess::Square::D1,
        to: cozy_chess::Square::E8,
        promotion: None,
    });
    board
}

#[test]
fn legal_moves_are_asked_only_of_a_sound_board() {
    let board = Board::default();
    assert_eq!(try_legal_moves(&board), Some(legal_moves(&board)));
    assert_eq!(try_legal_moves(&board).unwrap().len(), 20);
    assert_eq!(try_legal_moves(&kingless_board()), None);
    assert!(Position::from_board(&kingless_board()).is_err());
}
