//! What a record holds once decoded, and the faults of decoding.
//!
//! The outcome of a game is stored as a number: 0 for a loss, 1 for a draw,
//! 2 for a win, always from White's point of view.

use vstd::prelude::*;
use cozy_chess::Board;
use crate::position::{board_view, Position};
use crate::tablebases::probe::WDL;

verus! {

/// A record whose bytes do not describe what they should.
#[derive(Clone, Copy, Debug, PartialEq, Eq, Structural)]
pub enum CodecError {
    /// The packed position is no legal board.
    InvalidPosition,
    /// The stored outcome is none of loss, draw and win.
    InvalidOutcome,
}

/// A decoded record: position, evaluation in centipawns, outcome of the
/// game for White, and a byte that the library carries and never reads.
#[derive(Clone, Copy, Debug, PartialEq, Eq)]
pub struct Record {
    pub position: Position,
    pub eval: i16,
    pub outcome: WDL,
    pub extra: u8,
}

/// Reads a stored outcome, and refuses a number that names none.
pub fn decode_outcome(ordinal: u8) -> (r: Result<WDL, CodecError>)
    ensures
        ordinal <= 2 <==> r is Ok,
        r matches Ok(w) ==> w.spec_ordinal() == ordinal,
        r matches Err(e) ==> e == CodecError::InvalidOutcome,
{
    match WDL::from_ordinal(ordinal) {
        Some(w) => Ok(w),
        None => Err(CodecError::InvalidOutcome),
    }
}

/// An outcome survives storing: reading back the number under which it is
/// stored gives the outcome, and a number that names an outcome is the
/// number under which that outcome is stored.
pub proof fn lemma_outcome_round_trip(w: WDL, n: u8)
    ensures
        WDL::spec_from_ordinal(w.spec_ordinal()) == Some(w),
        WDL::spec_from_ordinal(n) matches Some(v) ==> v.spec_ordinal() == n,
{
}

impl Record {
    /// Builds a record from the parts that a codec hands out. It succeeds
    /// exactly where the outcome is one of 0, 1 and 2 and the board is
    /// sound; evaluation and extra byte are taken as they are. A wrong
    /// outcome is reported before a wrong board.
    pub fn from_parts(board: &Board, eval: i16, wdl: u8, extra: u8) -> (r: Result<
        Record,
        CodecError,
    >)
        ensures
            r is Ok <==> wdl <= 2 && board_view(*board).valid(),
            r matches Ok(record) ==> record.eval == eval && record.extra == extra
                && record.outcome.spec_ordinal() == wdl && record.position@ == board_view(*board)
                && record.position@.valid(),
            r matches Err(e) ==> (e == CodecError::InvalidOutcome <==> wdl > 2),
    {
        let outcome = match decode_outcome(wdl) {
            Ok(w) => w,
            Err(e) => {
                return Err(e);
            },
        };
        match Position::from_board(board) {
            Ok(position) => Ok(Record { position, eval, outcome, extra }),
            Err(e) => Err(e),
        }
    }

    /// The number under which the record's outcome is stored.
    pub fn wdl(&self) -> (n: u8)
        ensures
            n == self.outcome.spec_ordinal(),
            n <= 2,
    {
        self.outcome.ordinal()
    }
}

} // verus!
