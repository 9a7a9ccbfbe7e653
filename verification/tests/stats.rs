use cozy_chess::Board;
use marlinflow_utils::position::Position;
use marlinflow_utils::rescore::{rescore, rescore_record, rescored_outcome};
use marlinflow_utils::record::{decode_outcome, CodecError, Record};
use marlinflow_utils::stats::{
    is_extremely_large, is_significantly_incongruent, observe, observe_record, Observation, Stats,
    MAX_PIECES,
};
use marlinflow_utils::tablebases::probe::{RootQuery, TB_RESULT_FAILED, WDL};

fn position(fen: &str) -> Position {
    Position::from_board(&fen.parse::<Board>().unwrap()).unwrap()
}

fn plain(wk: u8, bk: u8, n: u16, outcome: WDL) -> Observation {
    Observation::new(wk, bk, 3, [0, 0, 0, 1, 0, 2], n, outcome, false, false).unwrap()
}

fn tally_of(observations: &[Observation]) -> Stats {
    let mut s = Stats::new();
    for o in observations {
        s.record(o);
    }
    s
}

/// Every bucket and counter of a tally, for comparison.
fn content(s: &Stats) -> Vec<u64> {
    let mut all = vec![
        s.positions(),
        s.incongruent(),
        s.extremely_large_eval(),
        s.incorrect_syzygy(),
        s.tb_hits(),
    ];
    all.extend((0..64).map(|i| s.white_king_positions(i)));
    all.extend((0..64).map(|i| s.black_king_positions(i)));
    all.extend((0..33).map(|i| s.pieces_on_board(i)));
    all.extend((0..6).map(|i| s.pieces_on_board_by_type(i)));
    all.extend((0..=u16::MAX).map(|i| s.movecount(i)));
    all.extend([WDL::Loss, WDL::Draw, WDL::Win].map(|w| s.win_draw_loss(w)));
    all
}

#[test]
fn the_empty_tally_is_empty() {
    let s = Stats::new();
    assert!(content(&s).iter().all(|&n| n == 0));
    let d = Stats::default();
    assert_eq!(content(&d), content(&s));
}

#[test]
fn recording_bumps_one_bucket_of_each_histogram() {
    let o = Observation::new(4, 60, 32, [16, 4, 4, 4, 2, 2], 17, WDL::Win, true, false)
        .unwrap()
        .with_oracle(true, true);
    let mut s = Stats::new();
    s.record(&o);
    s.record(&o);
    assert_eq!(s.positions(), 2);
    assert_eq!(s.white_king_positions(4), 2);
    assert_eq!(s.white_king_positions(60), 0);
    assert_eq!(s.black_king_positions(60), 2);
    assert_eq!(s.pieces_on_board(32), 2);
    assert_eq!(s.pieces_on_board(31), 0);
    assert_eq!(s.pieces_on_board_by_type(0), 32);
    assert_eq!(s.pieces_on_board_by_type(1), 8);
    assert_eq!(s.pieces_on_board_by_type(4), 4);
    assert_eq!(s.pieces_on_board_by_type(5), 4);
    assert_eq!(s.movecount(17), 2);
    assert_eq!(s.win_draw_loss(WDL::Win), 2);
    assert_eq!(s.win_draw_loss(WDL::Draw), 0);
    assert_eq!(s.win_draw_loss(WDL::Loss), 0);
    assert_eq!(s.incongruent(), 2);
    assert_eq!(s.extremely_large_eval(), 0);
    assert_eq!(s.tb_hits(), 2);
    assert_eq!(s.incorrect_syzygy(), 2);
}

#[test]
fn every_move_number_has_a_bucket() {
    let mut s = Stats::new();
    s.record(&plain(0, 1, 0, WDL::Draw));
    s.record(&plain(0, 1, 2047, WDL::Draw));
    s.record(&plain(0, 1, 2048, WDL::Draw));
    s.record(&plain(0, 1, u16::MAX, WDL::Draw));
    assert_eq!(s.movecount(0), 1);
    assert_eq!(s.movecount(2047), 1);
    assert_eq!(s.movecount(2048), 1);
    assert_eq!(s.movecount(u16::MAX), 1);
    assert_eq!(s.movecount(u16::MAX - 1), 0);
}

#[test]
fn an_observation_outside_the_histograms_cannot_be_built() {
    let ok = |wk, bk, n, by| Observation::new(wk, bk, n, by, 1, WDL::Draw, false, false).is_some();
    assert!(ok(63, 63, 32, [32, 32, 32, 32, 32, 32]));
    assert!(ok(0, 0, 0, [0; 6]));
    assert!(!ok(64, 0, 2, [0; 6]));
    assert!(!ok(0, 64, 2, [0; 6]));
    assert!(!ok(0, 1, 33, [0; 6]));
    assert!(!ok(0, 1, 2, [0, 0, 0, 0, 0, 33]));
    assert!(!ok(0, 1, 2, [33, 0, 0, 0, 0, 0]));
    assert_eq!(MAX_PIECES, 32);
}

#[test]
fn merging_adds_bucket_by_bucket() {
    let a = tally_of(&[plain(4, 60, 1, WDL::Win), plain(4, 61, 2, WDL::Loss)]);
    let b = tally_of(&[plain(4, 60, 1, WDL::Draw)]);
    let mut m = tally_of(&[plain(4, 60, 1, WDL::Win), plain(4, 61, 2, WDL::Loss)]);
    m.add_assign(b);
    assert_eq!(m.positions(), 3);
    assert_eq!(m.white_king_positions(4), 3);
    assert_eq!(m.black_king_positions(60), 2);
    assert_eq!(m.black_king_positions(61), 1);
    assert_eq!(m.movecount(1), 2);
    assert_eq!(m.movecount(2), 1);
    assert_eq!(m.win_draw_loss(WDL::Win), 1);
    assert_eq!(m.win_draw_loss(WDL::Draw), 1);
    assert_eq!(m.win_draw_loss(WDL::Loss), 1);
    assert_eq!(m.pieces_on_board(3), 3);
    assert_eq!(m.pieces_on_board_by_type(3), 3);
    assert_eq!(m.pieces_on_board_by_type(5), 6);
    assert_eq!(a.positions(), 2);
}

#[test]
fn merging_is_commutative_and_associative() {
    let parts = [
        vec![plain(4, 60, 1, WDL::Win), plain(5, 61, 2, WDL::Loss)],
        vec![plain(6, 62, 3, WDL::Draw).with_oracle(true, false)],
        vec![plain(4, 60, 1, WDL::Draw).with_oracle(true, true), plain(7, 1, 900, WDL::Win)],
    ];
    let t = |i: usize| tally_of(&parts[i]);
    // (a + b) + c
    let mut left = t(0);
    left.merge(&t(1));
    left.merge(&t(2));
    // a + (b + c)
    let mut bc = t(1);
    bc.merge(&t(2));
    let mut right = t(0);
    right.merge(&bc);
    assert_eq!(content(&left), content(&right));
    assert_eq!(left, right);
    // c + b + a
    let mut back = t(2);
    back.merge(&t(1));
    back.merge(&t(0));
    assert_eq!(content(&left), content(&back));
    // the single pass
    let all: Vec<Observation> = parts.iter().flatten().copied().collect();
    assert_eq!(content(&left), content(&tally_of(&all)));
    // the single pass in another order
    let mut shuffled = all.clone();
    shuffled.reverse();
    shuffled.swap(0, 2);
    assert_eq!(content(&left), content(&tally_of(&shuffled)));
    // the empty tally is neutral
    let mut with_zero = t(0);
    with_zero.merge(&Stats::new());
    assert_eq!(content(&with_zero), content(&t(0)));
}

#[test]
fn extremely_large_evaluations() {
    assert!(!is_extremely_large(0));
    assert!(!is_extremely_large(32567));
    assert!(is_extremely_large(32568));
    assert!(is_extremely_large(i16::MAX));
    assert!(!is_extremely_large(-32567));
    assert!(is_extremely_large(-32568));
    assert!(is_extremely_large(i16::MIN));
}

#[test]
fn incongruence_needs_the_matching_outcome() {
    assert!(!is_significantly_incongruent(250, WDL::Win));
    assert!(!is_significantly_incongruent(250, WDL::Draw));
    assert!(!is_significantly_incongruent(-250, WDL::Loss));
    assert!(!is_significantly_incongruent(-250, WDL::Draw));
    assert!(is_significantly_incongruent(450, WDL::Draw));
    assert!(is_significantly_incongruent(i32::MAX, WDL::Loss));
    assert!(is_significantly_incongruent(i32::MIN, WDL::Win));
}

#[test]
fn observing_a_position() {
    let p = position("r3k3/pp6/8/8/8/8/6PP/4K1NR b - - 3 25");
    let mut s = Stats::new();
    s.record(&observe(&p, 300, WDL::Loss, None));
    assert_eq!(s.white_king_positions(4), 1);
    assert_eq!(s.black_king_positions(60), 1);
    assert_eq!(s.pieces_on_board(9), 1);
    assert_eq!(s.pieces_on_board_by_type(0), 4);
    assert_eq!(s.pieces_on_board_by_type(1), 1);
    assert_eq!(s.pieces_on_board_by_type(2), 0);
    assert_eq!(s.pieces_on_board_by_type(3), 2);
    assert_eq!(s.pieces_on_board_by_type(4), 0);
    assert_eq!(s.pieces_on_board_by_type(5), 2);
    assert_eq!(s.movecount(25), 1);
    assert_eq!(s.win_draw_loss(WDL::Loss), 1);
    assert_eq!(s.incongruent(), 1);
    assert_eq!(s.extremely_large_eval(), 0);
    assert_eq!(s.tb_hits(), 0);
    assert_eq!(s.incorrect_syzygy(), 0);
}

#[test]
fn observing_with_an_oracle() {
    let p = position("4k3/8/8/8/8/8/8/R3K3 w - - 0 1");
    let mut s = Stats::new();
    s.record(&observe(&p, 32700, WDL::Win, Some(WDL::Win)));
    assert_eq!((s.tb_hits(), s.incorrect_syzygy()), (1, 0));
    s.record(&observe(&p, -32700, WDL::Draw, Some(WDL::Win)));
    assert_eq!((s.tb_hits(), s.incorrect_syzygy()), (2, 1));
    s.record(&observe(&p, 0, WDL::Draw, None));
    assert_eq!((s.tb_hits(), s.incorrect_syzygy()), (2, 1));
    assert_eq!(s.extremely_large_eval(), 2);
    assert_eq!(s.incongruent(), 1);
}

#[test]
fn rescoring_replaces_a_differing_outcome_only() {
    assert_eq!(rescored_outcome(WDL::Draw, Some(WDL::Win)), Some(WDL::Win));
    assert_eq!(rescored_outcome(WDL::Win, Some(WDL::Loss)), Some(WDL::Loss));
    assert_eq!(rescored_outcome(WDL::Win, Some(WDL::Win)), None);
    assert_eq!(rescored_outcome(WDL::Win, None), None);
    let board: Board = "4k3/8/8/8/8/8/8/R3K3 w - - 0 1".parse().unwrap();
    let record = Record::from_parts(&board, -77, 1, 200).unwrap();
    let (_, new) = rescore(&record, Some(WDL::Win));
    let new = new.unwrap();
    assert_eq!(new.outcome, WDL::Win);
    assert_eq!((new.eval, new.extra, new.position), (-77, 200, record.position));
    assert_eq!(rescore(&record, Some(WDL::Draw)).1, None);
    assert_eq!(rescore(&record, None).1, None);
}

#[test]
fn stored_outcomes() {
    assert_eq!(decode_outcome(0), Ok(WDL::Loss));
    assert_eq!(decode_outcome(1), Ok(WDL::Draw));
    assert_eq!(decode_outcome(2), Ok(WDL::Win));
    assert_eq!(decode_outcome(3), Err(CodecError::InvalidOutcome));
    let board = Board::default();
    for wdl in 0..3u8 {
        let record = Record::from_parts(&board, 12, wdl, 34).unwrap();
        assert_eq!(record.wdl(), wdl);
        assert_eq!((record.eval, record.extra), (12, 34));
    }
}

#[test]
fn the_transforms_ask_the_oracle() {
    let board: Board = "4k3/8/8/8/8/8/8/R3K3 b - - 0 1".parse().unwrap();
    let record = Record::from_parts(&board, 10, 1, 9).unwrap();
    // a loss for Black, who is to move: a win for White
    let loss = |_q: &RootQuery| 0u32;
    let failed = |_q: &RootQuery| TB_RESULT_FAILED;
    let (o, new) = rescore_record(&record, 5, &loss);
    assert_eq!(new.unwrap().outcome, WDL::Win);
    assert_eq!(o, observe(&record.position, 10, WDL::Draw, Some(WDL::Win)));
    assert_eq!(rescore_record(&record, 5, &failed).1, None);
    assert_eq!(rescore_record(&record, 2, &loss).1, None);
    assert_eq!(
        observe_record(&record, true, 5, &loss),
        observe(&record.position, 10, WDL::Draw, Some(WDL::Win))
    );
    assert_eq!(
        observe_record(&record, false, 5, &loss),
        observe(&record.position, 10, WDL::Draw, None)
    );
    assert_eq!(
        observe_record(&record, true, 2, &loss),
        observe(&record.position, 10, WDL::Draw, None)
    );
}
