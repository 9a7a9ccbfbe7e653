//! Statistics over a dataset of position records.
//!
//! A [`Stats`] value is a tally of per-record [`Observation`]s. Its
//! mathematical model, [`StatsView`], is a tuple of histograms and counters
//! over the natural numbers; merging two tallies adds them bucket by bucket.

use vstd::prelude::*;
use crate::partition::{resolve_threads, ConfigError};
use crate::position::{Color, Piece, Position, PositionView};
use crate::record::Record;
use crate::scan::{lemma_complete_scan, ScanError, Step};
use crate::tablebases::probe::{answers, get_wdl_white, RootQuery, WDL};

verus! {

/// Buckets of a king-square histogram: one per square.
pub const KING_SQUARES: usize = 64;

/// Buckets of the piece-count histogram: 0 to 32 pieces.
pub const PIECE_COUNT_BUCKETS: usize = 33;

/// Buckets of the piece-type histogram: pawn, knight, bishop, rook, queen, king.
pub const PIECE_TYPES: usize = 6;

/// Buckets of the move-number histogram: one per value of a 16-bit counter.
pub const MOVE_BUCKETS: usize = 65536;

/// Buckets of the outcome histogram: loss, draw, win.
pub const OUTCOMES: usize = 3;

/// Most pieces a position can hold.
pub const MAX_PIECES: u8 = 32;

/// Most records a single tally can hold. Every bucket grows by at most
/// `MAX_PIECES` per record, so no bucket of a tally within this limit
/// leaves the range of `u64`.
pub const MAX_POSITIONS: u64 = 0x07ff_ffff_ffff_ffff;

/// An evaluation above this magnitude counts as extremely large.
pub const EXTREME_EVAL: i16 = 32567;

/// The mathematical content of an [`Observation`].
pub struct ObservationView {
    pub white_king: nat,
    pub black_king: nat,
    pub piece_count: nat,
    pub pieces_by_type: Seq<nat>,
    pub move_number: nat,
    pub outcome: WDL,
    pub incongruent: bool,
    pub extreme_eval: bool,
    pub tb_hit: bool,
    pub tb_disagrees: bool,
}

impl ObservationView {
    /// Every bucket that the observation names lies inside its histogram,
    /// and no count exceeds the pieces a position can hold.
    pub open spec fn wf(self) -> bool {
        &&& self.white_king < KING_SQUARES
        &&& self.black_king < KING_SQUARES
        &&& self.piece_count <= MAX_PIECES
        &&& self.pieces_by_type.len() == PIECE_TYPES
        &&& forall|t: int| 0 <= t < PIECE_TYPES ==> #[trigger] self.pieces_by_type[t] <= MAX_PIECES
        &&& self.move_number < MOVE_BUCKETS
    }
}

/// What one record contributes to a tally. Every value of this type names
/// only buckets that exist.
#[derive(Clone, Copy, Debug, PartialEq, Eq)]
pub struct Observation {
    white_king: u8,
    black_king: u8,
    piece_count: u8,
    pieces_by_type: [u8; 6],
    move_number: u16,
    outcome: WDL,
    incongruent: bool,
    extreme_eval: bool,
    tb_hit: bool,
    tb_disagrees: bool,
}

impl View for Observation {
    type V = ObservationView;

    closed spec fn view(&self) -> ObservationView {
        ObservationView {
            white_king: self.white_king as nat,
            black_king: self.black_king as nat,
            piece_count: self.piece_count as nat,
            pieces_by_type: Seq::new(6, |t: int| self.pieces_by_type[t] as nat),
            move_number: self.move_number as nat,
            outcome: self.outcome,
            incongruent: self.incongruent,
            extreme_eval: self.extreme_eval,
            tb_hit: self.tb_hit,
            tb_disagrees: self.tb_disagrees,
        }
    }
}

impl Observation {
    #[verifier::type_invariant]
    spec fn inv(self) -> bool {
        self@.wf()
    }

    /// Builds an observation from its parts, or nothing where a king square
    /// is off the board or a count exceeds the pieces a position can hold.
    /// The oracle flags start out false.
    pub fn new(
        white_king: u8,
        black_king: u8,
        piece_count: u8,
        pieces_by_type: [u8; 6],
        move_number: u16,
        outcome: WDL,
        incongruent: bool,
        extreme_eval: bool,
    ) -> (r: Option<Observation>)
        ensures
            r is Some <==> (white_king < 64 && black_king < 64 && piece_count <= MAX_PIECES
                && forall|t: int| 0 <= t < 6 ==> #[trigger] pieces_by_type[t] <= MAX_PIECES),
            r matches Some(o) ==> o@ == (ObservationView {
                white_king: white_king as nat,
                black_king: black_king as nat,
                piece_count: piece_count as nat,
                pieces_by_type: Seq::new(6, |t: int| pieces_by_type[t] as nat),
                move_number: move_number as nat,
                outcome,
                incongruent,
                extreme_eval,
                tb_hit: false,
                tb_disagrees: false,
            }) && o@.wf(),
    {
        if white_king >= 64 || black_king >= 64 || piece_count > MAX_PIECES {
            return None;
        }
        let mut t: usize = 0;
        while t < 6
            invariant
                0 <= t <= 6,
                forall|k: int| 0 <= k < t ==> #[trigger] pieces_by_type[k] <= MAX_PIECES,
            decreases 6 - t,
        {
            if pieces_by_type[t] > MAX_PIECES {
                return None;
            }
            t += 1;
        }
        Some(
            Observation {
                white_king,
                black_king,
                piece_count,
                pieces_by_type,
                move_number,
                outcome,
                incongruent,
                extreme_eval,
                tb_hit: false,
                tb_disagrees: false,
            },
        )
    }

    /// The same observation with the oracle's answer filled in: whether
    /// the oracle knew the position, and whether it contradicts the record.
    pub fn with_oracle(self, tb_hit: bool, tb_disagrees: bool) -> (o: Observation)
        ensures
            o@ == (ObservationView { tb_hit, tb_disagrees, ..self@ }),
            o@.wf(),
    {
        proof {
            use_type_invariant(&self);
        }
        Observation { tb_hit, tb_disagrees, ..self }
    }
}

/// A histogram with `by` added to bucket `i`; other buckets, and a histogram
/// without bucket `i`, stay as they are.
pub open spec fn bump(h: Seq<nat>, i: int, by: nat) -> Seq<nat> {
    Seq::new(h.len(), |k: int| if k == i { h[k] + by } else { h[k] })
}

/// Two histograms added bucket by bucket, over the buckets of the first.
pub open spec fn add_buckets(a: Seq<nat>, b: Seq<nat>) -> Seq<nat> {
    Seq::new(a.len(), |k: int| a[k] + b[k])
}

/// A histogram of `n` empty buckets.
pub open spec fn empty_buckets(n: nat) -> Seq<nat> {
    Seq::new(n, |k: int| 0nat)
}

/// One for a true flag, zero for a false one.
pub open spec fn flag(b: bool) -> nat {
    if b { 1 } else { 0 }
}

/// Adds the six piece-type counts of an observation to a histogram.
pub open spec fn bump_types(h: Seq<nat>, counts: Seq<nat>) -> Seq<nat> {
    Seq::new(h.len(), |k: int| if 0 <= k < counts.len() { h[k] + counts[k] } else { h[k] })
}

/// The mathematical content of a tally.
#[verifier::ext_equal]
pub struct StatsView {
    pub positions: nat,
    pub white_king_positions: Seq<nat>,
    pub black_king_positions: Seq<nat>,
    pub pieces_on_board: Seq<nat>,
    pub pieces_on_board_by_type: Seq<nat>,
    pub movecount: Seq<nat>,
    pub win_draw_loss: Seq<nat>,
    pub incongruent: nat,
    pub extremely_large_eval: nat,
    pub incorrect_syzygy: nat,
    pub tb_hits: nat,
}

impl StatsView {
    /// The tally of no records.
    pub open spec fn zero() -> StatsView {
        StatsView {
            positions: 0,
            white_king_positions: empty_buckets(KING_SQUARES as nat),
            black_king_positions: empty_buckets(KING_SQUARES as nat),
            pieces_on_board: empty_buckets(PIECE_COUNT_BUCKETS as nat),
            pieces_on_board_by_type: empty_buckets(PIECE_TYPES as nat),
            movecount: empty_buckets(MOVE_BUCKETS as nat),
            win_draw_loss: empty_buckets(OUTCOMES as nat),
            incongruent: 0,
            extremely_large_eval: 0,
            incorrect_syzygy: 0,
            tb_hits: 0,
        }
    }

    /// Every histogram has its fixed number of buckets.
    pub open spec fn shaped(self) -> bool {
        &&& self.white_king_positions.len() == KING_SQUARES
        &&& self.black_king_positions.len() == KING_SQUARES
        &&& self.pieces_on_board.len() == PIECE_COUNT_BUCKETS
        &&& self.pieces_on_board_by_type.len() == PIECE_TYPES
        &&& self.movecount.len() == MOVE_BUCKETS
        &&& self.win_draw_loss.len() == OUTCOMES
    }

    /// The tally with one more record in it.
    pub open spec fn record(self, o: ObservationView) -> StatsView {
        StatsView {
            positions: self.positions + 1,
            white_king_positions: bump(self.white_king_positions, o.white_king as int, 1),
            black_king_positions: bump(self.black_king_positions, o.black_king as int, 1),
            pieces_on_board: bump(self.pieces_on_board, o.piece_count as int, 1),
            pieces_on_board_by_type: bump_types(self.pieces_on_board_by_type, o.pieces_by_type),
            movecount: bump(self.movecount, o.move_number as int, 1),
            win_draw_loss: bump(self.win_draw_loss, o.outcome.spec_ordinal() as int, 1),
            incongruent: self.incongruent + flag(o.incongruent),
            extremely_large_eval: self.extremely_large_eval + flag(o.extreme_eval),
            incorrect_syzygy: self.incorrect_syzygy + flag(o.tb_disagrees),
            tb_hits: self.tb_hits + flag(o.tb_hit),
        }
    }

    /// Two tallies added bucket by bucket and counter by counter.
    pub open spec fn merge(self, other: StatsView) -> StatsView {
        StatsView {
            positions: self.positions + other.positions,
            white_king_positions: add_buckets(
                self.white_king_positions,
                other.white_king_positions,
            ),
            black_king_positions: add_buckets(
                self.black_king_positions,
                other.black_king_positions,
            ),
            pieces_on_board: add_buckets(self.pieces_on_board, other.pieces_on_board),
            pieces_on_board_by_type: add_buckets(
                self.pieces_on_board_by_type,
                other.pieces_on_board_by_type,
            ),
            movecount: add_buckets(self.movecount, other.movecount),
            win_draw_loss: add_buckets(self.win_draw_loss, other.win_draw_loss),
            incongruent: self.incongruent + other.incongruent,
            extremely_large_eval: self.extremely_large_eval + other.extremely_large_eval,
            incorrect_syzygy: self.incorrect_syzygy + other.incorrect_syzygy,
            tb_hits: self.tb_hits + other.tb_hits,
        }
    }

    /// No bucket and no counter exceeds `MAX_PIECES` per tallied record.
    pub open spec fn bounded(self) -> bool {
        let cap = 32 * self.positions;
        &&& forall|k: int| 0 <= k < self.white_king_positions.len() ==> self.white_king_positions[k] <= cap
        &&& forall|k: int| 0 <= k < self.black_king_positions.len() ==> self.black_king_positions[k] <= cap
        &&& forall|k: int| 0 <= k < self.pieces_on_board.len() ==> self.pieces_on_board[k] <= cap
        &&& forall|k: int| 0 <= k < self.pieces_on_board_by_type.len() ==> self.pieces_on_board_by_type[k] <= cap
        &&& forall|k: int| 0 <= k < self.movecount.len() ==> self.movecount[k] <= cap
        &&& forall|k: int| 0 <= k < self.win_draw_loss.len() ==> self.win_draw_loss[k] <= cap
        &&& self.incongruent <= cap
        &&& self.extremely_large_eval <= cap
        &&& self.incorrect_syzygy <= cap
        &&& self.tb_hits <= cap
    }
}

/// The tally of a sequence of observations, taken one after the other.
pub open spec fn tally(obs: Seq<ObservationView>) -> StatsView
    decreases obs.len(),
{
    if obs.len() == 0 {
        StatsView::zero()
    } else {
        tally(obs.drop_last()).record(obs.last())
    }
}


/// The tally of any sequence of observations has the fixed shape and counts
/// as many records as the sequence is long.
pub proof fn lemma_tally_shaped(obs: Seq<ObservationView>)
    ensures
        tally(obs).shaped(),
        tally(obs).positions == obs.len(),
    decreases obs.len(),
{
    if obs.len() > 0 {
        lemma_tally_shaped(obs.drop_last());
    }
}

/// The tally of observations that name only buckets inside their histograms
/// stays under 32 per record in every bucket and counter.
pub proof fn lemma_tally_bounded(obs: Seq<ObservationView>)
    requires
        forall|i: int| 0 <= i < obs.len() ==> (#[trigger] obs[i]).wf(),
    ensures
        tally(obs).bounded(),
    decreases obs.len(),
{
    if obs.len() > 0 {
        let head = obs.drop_last();
        assert forall|i: int| 0 <= i < head.len() implies (#[trigger] head[i]).wf() by {
            assert(head[i] == obs[i]);
        }
        lemma_tally_bounded(head);
        lemma_tally_shaped(head);
        let o = obs.last();
        assert(o.wf());
        let t = tally(head);
        let r = t.record(o);
        assert forall|k: int| 0 <= k < r.pieces_on_board_by_type.len() implies r.pieces_on_board_by_type[k] <= 32 * r.positions by {
            assert(o.pieces_by_type[k] <= MAX_PIECES);
        }
    }
}

/// Merging is commutative: the order of the two tallies does not matter.
pub proof fn lemma_merge_commutative(a: StatsView, b: StatsView)
    requires
        a.shaped(),
        b.shaped(),
    ensures
        a.merge(b) == b.merge(a),
{
    assert(a.merge(b) =~= b.merge(a));
}

/// Merging is associative: partial merges can be grouped in any way.
pub proof fn lemma_merge_associative(a: StatsView, b: StatsView, c: StatsView)
    requires
        a.shaped(),
        b.shaped(),
        c.shaped(),
    ensures
        a.merge(b).merge(c) == a.merge(b.merge(c)),
{
    assert(a.merge(b).merge(c) =~= a.merge(b.merge(c)));
}

/// The empty tally is neutral for merging, on either side.
pub proof fn lemma_merge_zero(a: StatsView)
    requires
        a.shaped(),
    ensures
        a.merge(StatsView::zero()) == a,
        StatsView::zero().merge(a) == a,
{
    assert(a.merge(StatsView::zero()) =~= a);
    assert(StatsView::zero().merge(a) =~= a);
}

/// Recording one observation after a merge equals merging with the tally
/// that recorded it.
pub proof fn lemma_merge_record(a: StatsView, b: StatsView, o: ObservationView)
    requires
        a.shaped(),
        b.shaped(),
    ensures
        a.merge(b).record(o) == a.merge(b.record(o)),
{
    assert(a.merge(b).record(o) =~= a.merge(b.record(o)));
}

/// Tallying two runs of records apart and merging the results equals
/// tallying them in a single pass.
pub proof fn lemma_tally_concat(a: Seq<ObservationView>, b: Seq<ObservationView>)
    ensures
        tally(a + b) == tally(a).merge(tally(b)),
    decreases b.len(),
{
    lemma_tally_shaped(a);
    lemma_tally_shaped(b);
    if b.len() == 0 {
        assert(a + b =~= a);
        lemma_merge_zero(tally(a));
    } else {
        let head = b.drop_last();
        assert((a + b).drop_last() =~= a + head);
        assert((a + b).last() == b.last());
        lemma_tally_concat(a, head);
        lemma_tally_shaped(head);
        lemma_merge_record(tally(a), tally(head), b.last());
    }
}


/// The tally does not depend on the order of the records: two runs that
/// hold the same observations, each as often as the other, have the same
/// tally.
pub proof fn lemma_tally_any_order(a: Seq<ObservationView>, b: Seq<ObservationView>)
    requires
        a.to_multiset() == b.to_multiset(),
    ensures
        tally(a) == tally(b),
    decreases a.len(),
{
    a.to_multiset_ensures();
    b.to_multiset_ensures();
    if a.len() == 0 {
        assert(b.len() == 0);
        assert(a =~= b);
    } else {
        let x = a.last();
        let head = a.drop_last();
        assert(a =~= head.push(x));
        head.to_multiset_ensures();
        assert(a.to_multiset().count(x) > 0);
        assert(b.contains(x));
        let j = choose|j: int| 0 <= j < b.len() && b[j] == x;
        let rest = b.remove(j);
        assert(rest.to_multiset() =~= b.to_multiset().remove(x));
        assert(head.to_multiset() =~= a.to_multiset().remove(x)) by {
            assert(a.to_multiset() =~= head.to_multiset().insert(x));
        }
        lemma_tally_any_order(head, rest);
        let front = b.subrange(0, j);
        let back = b.subrange(j + 1, b.len() as int);
        let one = Seq::<ObservationView>::empty().push(x);
        assert(b =~= front + one + back);
        assert(rest =~= front + back);
        lemma_tally_concat(front + one, back);
        lemma_tally_concat(front, one);
        lemma_tally_concat(front, back);
        lemma_tally_shaped(front);
        lemma_tally_shaped(back);
        lemma_tally_shaped(one);
        lemma_merge_associative(tally(front), tally(one), tally(back));
        lemma_merge_commutative(tally(one), tally(back));
        lemma_merge_associative(tally(front), tally(back), tally(one));
        lemma_tally_concat(front + back, one);
        assert((front + back) + one =~= rest.push(x));
        assert(rest.push(x).drop_last() =~= rest);
    }
}

/// Several parts joined into one run, one part after the other.
pub open spec fn join<T>(parts: Seq<Seq<T>>) -> Seq<T>
    decreases parts.len(),
{
    if parts.len() == 0 {
        Seq::empty()
    } else {
        join(parts.drop_last()) + parts.last()
    }
}

/// The tallies of several parts, merged from the first part to the last.
pub open spec fn merge_parts(parts: Seq<Seq<ObservationView>>) -> StatsView
    decreases parts.len(),
{
    if parts.len() == 0 {
        StatsView::zero()
    } else {
        merge_parts(parts.drop_last()).merge(tally(parts.last()))
    }
}

/// However a run of records is cut into parts, tallying the parts apart and
/// merging the tallies equals tallying the whole run in a single pass.
pub proof fn lemma_tally_partition(parts: Seq<Seq<ObservationView>>)
    ensures
        merge_parts(parts) == tally(join(parts)),
    decreases parts.len(),
{
    if parts.len() > 0 {
        lemma_tally_partition(parts.drop_last());
        lemma_tally_concat(join(parts.drop_last()), parts.last());
    }
}

/// Joining two runs of parts joins their records.
proof fn lemma_join_concat<T>(p: Seq<Seq<T>>, q: Seq<Seq<T>>)
    ensures
        join(p + q) == join(p) + join(q),
    decreases q.len(),
{
    if q.len() == 0 {
        assert(p + q =~= p);
        assert(join(p) + join(q) =~= join(p));
    } else {
        lemma_join_concat(p, q.drop_last());
        assert((p + q).drop_last() =~= p + q.drop_last());
        assert((p + q).last() == q.last());
        assert(join(p + q) =~= join(p) + join(q));
    }
}

/// Merging the tallies of two runs of parts merges the two merges.
proof fn lemma_merge_parts_concat(p: Seq<Seq<ObservationView>>, q: Seq<Seq<ObservationView>>)
    ensures
        merge_parts(p + q) == merge_parts(p).merge(merge_parts(q)),
        merge_parts(p).shaped(),
{
    lemma_tally_partition(p + q);
    lemma_tally_partition(p);
    lemma_tally_partition(q);
    lemma_join_concat(p, q);
    lemma_tally_concat(join(p), join(q));
    lemma_tally_shaped(join(p));
}

/// Merge order: however a run of records is cut into parts, and in
/// whatever order the tallies of the parts are merged into an empty tally,
/// the result is the tally of the whole run in a single pass. `order` holds
/// the parts in the order in which they are merged: the same parts, each as
/// often as among `parts`. So the result of a scan depends neither on the
/// number of workers nor on the chunk boundaries nor on the order of the
/// merges.
pub proof fn lemma_merge_any_order(
    parts: Seq<Seq<ObservationView>>,
    order: Seq<Seq<ObservationView>>,
)
    requires
        order.to_multiset() == parts.to_multiset(),
    ensures
        merge_parts(order) == tally(join(parts)),
        merge_parts(order) == merge_parts(parts),
    decreases parts.len(),
{
    lemma_tally_partition(parts);
    parts.to_multiset_ensures();
    order.to_multiset_ensures();
    if parts.len() == 0 {
        assert(order.len() == 0);
        assert(order =~= parts);
    } else {
        let x = parts.last();
        let head = parts.drop_last();
        assert(parts =~= head.push(x));
        head.to_multiset_ensures();
        assert(parts.to_multiset().count(x) > 0);
        assert(order.contains(x));
        let j = choose|j: int| 0 <= j < order.len() && order[j] == x;
        let rest = order.remove(j);
        assert(rest.to_multiset() =~= order.to_multiset().remove(x));
        assert(head.to_multiset() =~= parts.to_multiset().remove(x)) by {
            assert(parts.to_multiset() =~= head.to_multiset().insert(x));
        }
        lemma_merge_any_order(head, rest);
        let front = order.subrange(0, j);
        let back = order.subrange(j + 1, order.len() as int);
        let one = Seq::<Seq<ObservationView>>::empty().push(x);
        assert(order =~= front + one + back);
        assert(rest =~= front + back);
        lemma_merge_parts_concat(front + one, back);
        lemma_merge_parts_concat(front, one);
        lemma_merge_parts_concat(front, back);
        lemma_merge_parts_concat(back, one);
        lemma_merge_parts_concat(one, back);
        lemma_merge_associative(merge_parts(front), merge_parts(one), merge_parts(back));
        lemma_merge_commutative(merge_parts(one), merge_parts(back));
        lemma_merge_associative(merge_parts(front), merge_parts(back), merge_parts(one));
        assert(one.drop_last() =~= Seq::<Seq<ObservationView>>::empty());
        lemma_tally_shaped(x);
        lemma_merge_zero(tally(x));
        assert(one.last() == x);
        assert(merge_parts(one.drop_last()) == StatsView::zero());
        assert(merge_parts(one) == tally(x));
        assert(merge_parts(parts) == merge_parts(head).merge(tally(x)));
    }
}

/// A tally of records: histograms and counters, merged by addition.
#[derive(Debug, PartialEq, Eq)]
pub struct Stats {
    positions: u64,
    white_king_positions: [u64; 64],
    black_king_positions: [u64; 64],
    pieces_on_board: [u64; 33],
    pieces_on_board_by_type: [u64; 6],
    movecount: Vec<u64>,
    win_draw_loss: [u64; 3],
    incongruent: u64,
    extremely_large_eval: u64,
    incorrect_syzygy: u64,
    tb_hits: u64,
}

/// The buckets of an executable histogram as natural numbers.
pub open spec fn buckets(h: Seq<u64>) -> Seq<nat> {
    Seq::new(h.len(), |k: int| h[k] as nat)
}

impl View for Stats {
    type V = StatsView;

    closed spec fn view(&self) -> StatsView {
        StatsView {
            positions: self.positions as nat,
            white_king_positions: buckets(self.white_king_positions@),
            black_king_positions: buckets(self.black_king_positions@),
            pieces_on_board: buckets(self.pieces_on_board@),
            pieces_on_board_by_type: buckets(self.pieces_on_board_by_type@),
            movecount: buckets(self.movecount@),
            win_draw_loss: buckets(self.win_draw_loss@),
            incongruent: self.incongruent as nat,
            extremely_large_eval: self.extremely_large_eval as nat,
            incorrect_syzygy: self.incorrect_syzygy as nat,
            tb_hits: self.tb_hits as nat,
        }
    }
}

/// Adds `b` to `a`, bucket by bucket.
fn add_array<const N: usize>(a: &mut [u64; N], b: &[u64; N])
    requires
        forall|k: int| 0 <= k < N ==> old(a)[k] + b[k] <= u64::MAX,
    ensures
        forall|k: int| 0 <= k < N ==> final(a)[k] == old(a)[k] + b[k],
{
    let mut i: usize = 0;
    while i < N
        invariant
            0 <= i <= N,
            forall|k: int| 0 <= k < N ==> old(a)[k] + b[k] <= u64::MAX,
            forall|k: int| 0 <= k < i ==> a[k] == old(a)[k] + b[k],
            forall|k: int| i <= k < N ==> a[k] == old(a)[k],
        decreases N - i,
    {
        a[i] = a[i] + b[i];
        i += 1;
    }
}

/// Adds `b` to `a`, bucket by bucket.
fn add_vec(a: &mut Vec<u64>, b: &Vec<u64>)
    requires
        old(a).len() == b.len(),
        forall|k: int| 0 <= k < b.len() ==> old(a)[k] + b[k] <= u64::MAX,
    ensures
        final(a).len() == old(a).len(),
        forall|k: int| 0 <= k < b.len() ==> final(a)[k] == old(a)[k] + b[k],
{
    let mut i: usize = 0;
    while i < a.len()
        invariant
            0 <= i <= a.len(),
            a.len() == old(a).len(),
            a.len() == b.len(),
            forall|k: int| 0 <= k < b.len() ==> old(a)[k] + b[k] <= u64::MAX,
            forall|k: int| 0 <= k < i ==> a[k] == old(a)[k] + b[k],
            forall|k: int| i <= k < a.len() ==> a[k] == old(a)[k],
        decreases a.len() - i,
    {
        let v = a[i] + b[i];
        a.set(i, v);
        i += 1;
    }
}

/// Adds the small counts `c` to `a`, bucket by bucket.
fn add_counts(a: &mut [u64; 6], c: &[u8; 6])
    requires
        forall|k: int| 0 <= k < 6 ==> old(a)[k] + c[k] <= u64::MAX,
    ensures
        forall|k: int| 0 <= k < 6 ==> final(a)[k] == old(a)[k] + c[k],
{
    let mut i: usize = 0;
    while i < 6
        invariant
            0 <= i <= 6,
            forall|k: int| 0 <= k < 6 ==> old(a)[k] + c[k] <= u64::MAX,
            forall|k: int| 0 <= k < i ==> a[k] == old(a)[k] + c[k],
            forall|k: int| i <= k < 6 ==> a[k] == old(a)[k],
        decreases 6 - i,
    {
        a[i] = a[i] + c[i] as u64;
        i += 1;
    }
}

/// A vector of `n` zeros.
fn zeros(n: usize) -> (v: Vec<u64>)
    ensures
        v.len() == n,
        forall|k: int| 0 <= k < n ==> v[k] == 0,
{
    let mut v: Vec<u64> = Vec::new();
    let mut i: usize = 0;
    while i < n
        invariant
            0 <= i <= n,
            v.len() == i,
            forall|k: int| 0 <= k < i ==> v[k] == 0,
        decreases n - i,
    {
        v.push(0);
        i += 1;
    }
    v
}

impl Stats {
    /// The tally lies within the limits that keep every bucket inside `u64`.
    pub open spec fn wf(&self) -> bool {
        &&& self@.shaped()
        &&& self@.bounded()
        &&& self@.positions <= MAX_POSITIONS
    }


    /// The executable buckets and counters stay under 32 per tallied record
    /// exactly when the model does.
    spec fn fields_bounded(&self) -> bool {
        let cap = 32 * self.positions;
        &&& self.movecount.len() == MOVE_BUCKETS
        &&& forall|k: int| 0 <= k < 64 ==> self.white_king_positions[k] <= cap
        &&& forall|k: int| 0 <= k < 64 ==> self.black_king_positions[k] <= cap
        &&& forall|k: int| 0 <= k < 33 ==> self.pieces_on_board[k] <= cap
        &&& forall|k: int| 0 <= k < 6 ==> self.pieces_on_board_by_type[k] <= cap
        &&& forall|k: int| 0 <= k < MOVE_BUCKETS ==> self.movecount[k] <= cap
        &&& forall|k: int| 0 <= k < 3 ==> self.win_draw_loss[k] <= cap
        &&& self.incongruent <= cap
        &&& self.extremely_large_eval <= cap
        &&& self.incorrect_syzygy <= cap
        &&& self.tb_hits <= cap
        &&& self.positions <= MAX_POSITIONS
    }

    proof fn lemma_wf_fields(&self)
        ensures
            self.wf() <==> self.fields_bounded(),
    {
        if self.wf() {
            assert forall|k: int| 0 <= k < 64 implies self.white_king_positions[k] <= 32
                * self.positions by {
                assert(self@.white_king_positions[k] == self.white_king_positions[k]);
            }
            assert forall|k: int| 0 <= k < 64 implies self.black_king_positions[k] <= 32
                * self.positions by {
                assert(self@.black_king_positions[k] == self.black_king_positions[k]);
            }
            assert forall|k: int| 0 <= k < 33 implies self.pieces_on_board[k] <= 32
                * self.positions by {
                assert(self@.pieces_on_board[k] == self.pieces_on_board[k]);
            }
            assert forall|k: int| 0 <= k < 6 implies self.pieces_on_board_by_type[k] <= 32
                * self.positions by {
                assert(self@.pieces_on_board_by_type[k] == self.pieces_on_board_by_type[k]);
            }
            assert forall|k: int| 0 <= k < MOVE_BUCKETS implies self.movecount[k] <= 32
                * self.positions by {
                assert(self@.movecount[k] == self.movecount[k]);
            }
            assert forall|k: int| 0 <= k < 3 implies self.win_draw_loss[k] <= 32
                * self.positions by {
                assert(self@.win_draw_loss[k] == self.win_draw_loss[k]);
            }
        }
    }

    /// The tally of no records.
    pub fn new() -> (s: Stats)
        ensures
            s.wf(),
            s@ == StatsView::zero(),
    {
        let s = Stats {
            positions: 0,
            white_king_positions: [0; 64],
            black_king_positions: [0; 64],
            pieces_on_board: [0; 33],
            pieces_on_board_by_type: [0; 6],
            movecount: zeros(MOVE_BUCKETS),
            win_draw_loss: [0; 3],
            incongruent: 0,
            extremely_large_eval: 0,
            incorrect_syzygy: 0,
            tb_hits: 0,
        };
        proof {
            assert(s@ =~= StatsView::zero());
            s.lemma_wf_fields();
        }
        s
    }

    /// Adds one record to the tally.
    pub fn record(&mut self, o: &Observation)
        requires
            old(self).wf(),
            old(self)@.positions < MAX_POSITIONS,
        ensures
            final(self).wf(),
            final(self)@ == old(self)@.record(o@),
    {
        proof {
            old(self).lemma_wf_fields();
            use_type_invariant(o);
            assert forall|k: int| 0 <= k < 6 implies o.pieces_by_type[k] <= MAX_PIECES by {
                assert(o@.pieces_by_type[k] == o.pieces_by_type[k]);
            }
        }
        self.positions = self.positions + 1;
        let wk = o.white_king as usize;
        let bk = o.black_king as usize;
        let pc = o.piece_count as usize;
        let mv = o.move_number as usize;
        let oc = o.outcome.ordinal() as usize;
        self.white_king_positions[wk] = self.white_king_positions[wk] + 1;
        self.black_king_positions[bk] = self.black_king_positions[bk] + 1;
        self.pieces_on_board[pc] = self.pieces_on_board[pc] + 1;
        add_counts(&mut self.pieces_on_board_by_type, &o.pieces_by_type);
        let m = self.movecount[mv] + 1;
        self.movecount.set(mv, m);
        self.win_draw_loss[oc] = self.win_draw_loss[oc] + 1;
        if o.incongruent {
            self.incongruent = self.incongruent + 1;
        }
        if o.extreme_eval {
            self.extremely_large_eval = self.extremely_large_eval + 1;
        }
        if o.tb_disagrees {
            self.incorrect_syzygy = self.incorrect_syzygy + 1;
        }
        if o.tb_hit {
            self.tb_hits = self.tb_hits + 1;
        }
        proof {
            assert(self@ =~= old(self)@.record(o@));
            self.lemma_wf_fields();
        }
    }

    /// Merges another tally into this one by adding every histogram and
    /// every counter; the other tally is given up.
    pub fn add_assign(&mut self, rhs: Stats)
        requires
            old(self).wf(),
            rhs.wf(),
            old(self)@.positions + rhs@.positions <= MAX_POSITIONS,
        ensures
            final(self).wf(),
            final(self)@ == old(self)@.merge(rhs@),
    {
        self.merge(&rhs);
    }

    /// Merges another tally into this one by adding every histogram and
    /// every counter.
    pub fn merge(&mut self, rhs: &Stats)
        requires
            old(self).wf(),
            rhs.wf(),
            old(self)@.positions + rhs@.positions <= MAX_POSITIONS,
        ensures
            final(self).wf(),
            final(self)@ == old(self)@.merge(rhs@),
    {
        proof {
            old(self).lemma_wf_fields();
            rhs.lemma_wf_fields();
        }
        add_array(&mut self.white_king_positions, &rhs.white_king_positions);
        add_array(&mut self.black_king_positions, &rhs.black_king_positions);
        add_array(&mut self.pieces_on_board, &rhs.pieces_on_board);
        add_array(&mut self.pieces_on_board_by_type, &rhs.pieces_on_board_by_type);
        add_vec(&mut self.movecount, &rhs.movecount);
        add_array(&mut self.win_draw_loss, &rhs.win_draw_loss);
        self.positions = self.positions + rhs.positions;
        self.incongruent = self.incongruent + rhs.incongruent;
        self.extremely_large_eval = self.extremely_large_eval + rhs.extremely_large_eval;
        self.incorrect_syzygy = self.incorrect_syzygy + rhs.incorrect_syzygy;
        self.tb_hits = self.tb_hits + rhs.tb_hits;
        proof {
            assert(self@ =~= old(self)@.merge(rhs@));
            self.lemma_wf_fields();
        }
    }

    /// The number of records in the tally.
    pub fn positions(&self) -> (n: u64)
        ensures
            n == self@.positions,
    {
        self.positions
    }

    /// The number of records with the white king on `square`.
    pub fn white_king_positions(&self, square: usize) -> (n: u64)
        requires
            square < KING_SQUARES,
        ensures
            n == self@.white_king_positions[square as int],
    {
        self.white_king_positions[square]
    }

    /// The number of records with the black king on `square`.
    pub fn black_king_positions(&self, square: usize) -> (n: u64)
        requires
            square < KING_SQUARES,
        ensures
            n == self@.black_king_positions[square as int],
    {
        self.black_king_positions[square]
    }

    /// The number of records with `count` pieces on the board.
    pub fn pieces_on_board(&self, count: usize) -> (n: u64)
        requires
            count < PIECE_COUNT_BUCKETS,
        ensures
            n == self@.pieces_on_board[count as int],
    {
        self.pieces_on_board[count]
    }

    /// The number of pieces of type `piece` over all records.
    pub fn pieces_on_board_by_type(&self, piece: usize) -> (n: u64)
        requires
            piece < PIECE_TYPES,
        ensures
            n == self@.pieces_on_board_by_type[piece as int],
    {
        self.pieces_on_board_by_type[piece]
    }

    /// The number of records at full move `number`.
    pub fn movecount(&self, number: u16) -> (n: u64)
        requires
            self.wf(),
        ensures
            n == self@.movecount[number as int],
    {
        proof {
            self.lemma_wf_fields();
        }
        self.movecount[number as usize]
    }

    /// The number of records with this outcome.
    pub fn win_draw_loss(&self, outcome: WDL) -> (n: u64)
        ensures
            n == self@.win_draw_loss[outcome.spec_ordinal() as int],
    {
        self.win_draw_loss[outcome.ordinal() as usize]
    }

    /// The number of records whose evaluation and outcome are significantly
    /// incongruent.
    pub fn incongruent(&self) -> (n: u64)
        ensures
            n == self@.incongruent,
    {
        self.incongruent
    }

    /// The number of records with an extremely large evaluation.
    pub fn extremely_large_eval(&self) -> (n: u64)
        ensures
            n == self@.extremely_large_eval,
    {
        self.extremely_large_eval
    }

    /// The number of records on which the oracle contradicts the outcome.
    pub fn incorrect_syzygy(&self) -> (n: u64)
        ensures
            n == self@.incorrect_syzygy,
    {
        self.incorrect_syzygy
    }

    /// The number of records whose position the oracle knew.
    pub fn tb_hits(&self) -> (n: u64)
        ensures
            n == self@.tb_hits,
    {
        self.tb_hits
    }
}

impl Default for Stats {
    fn default() -> (s: Stats)
        ensures
            s.wf(),
            s@ == StatsView::zero(),
    {
        Stats::new()
    }
}

/// An evaluation above this in favour of the loser is incongruent.
pub const INCONGRUENT_DECISIVE: i32 = 200;

/// An evaluation above this magnitude in a drawn game is incongruent.
pub const INCONGRUENT_DRAWN: i32 = 400;

/// The incongruence rule: the evaluation says White is winning by more than
/// 200 and the game was lost, or losing by more than 200 and the game was
/// won, or its magnitude is above 400 and the game was drawn.
pub open spec fn spec_incongruent(cp_eval: int, outcome: WDL) -> bool {
    ||| cp_eval > 200 && outcome == WDL::Loss
    ||| cp_eval < -200 && outcome == WDL::Win
    ||| (cp_eval > 400 || cp_eval < -400) && outcome == WDL::Draw
}

/// Tells whether evaluation and outcome of a record are significantly
/// incongruent.
pub fn is_significantly_incongruent(cp_eval: i32, outcome: WDL) -> (b: bool)
    ensures
        b == spec_incongruent(cp_eval as int, outcome),
{
    match outcome {
        WDL::Loss => cp_eval > INCONGRUENT_DECISIVE,
        WDL::Win => cp_eval < -INCONGRUENT_DECISIVE,
        WDL::Draw => cp_eval > INCONGRUENT_DRAWN || cp_eval < -INCONGRUENT_DRAWN,
    }
}

/// An evaluation is extremely large where its magnitude is above 32567.
pub open spec fn spec_extremely_large(eval: int) -> bool {
    eval > EXTREME_EVAL || eval < -EXTREME_EVAL
}

/// Tells whether an evaluation is extremely large.
pub fn is_extremely_large(eval: i16) -> (b: bool)
    ensures
        b == spec_extremely_large(eval as int),
{
    eval > EXTREME_EVAL || eval < -EXTREME_EVAL
}

/// What a record contributes to a tally: the squares of the two kings, the
/// number of pieces and of pieces of each type, the move number, the
/// outcome, the two data-health flags, and what the oracle said: a hit
/// where it answered, a disagreement where its answer is not the outcome.
pub open spec fn spec_observe(p: PositionView, eval: i16, outcome: WDL, oracle: Option<WDL>) -> ObservationView {
    ObservationView {
        white_king: p.king_square(0),
        black_king: p.king_square(1),
        piece_count: p.piece_count(),
        pieces_by_type: Seq::new(6, |t: int| p.type_count(t)),
        move_number: p.fullmove_number as nat,
        outcome,
        incongruent: spec_incongruent(eval as int, outcome),
        extreme_eval: spec_extremely_large(eval as int),
        tb_hit: oracle is Some,
        tb_disagrees: oracle matches Some(w) && w != outcome,
    }
}

/// Observes one record: what it contributes to a tally, given what the
/// oracle answered for its position, if it was asked and knew.
pub fn observe(position: &Position, eval: i16, outcome: WDL, oracle: Option<WDL>) -> (o:
    Observation)
    ensures
        o@ == spec_observe(position@, eval, outcome, oracle),
        o@.wf(),
{
    let pieces_by_type = [
        position.type_count(Piece::Pawn),
        position.type_count(Piece::Knight),
        position.type_count(Piece::Bishop),
        position.type_count(Piece::Rook),
        position.type_count(Piece::Queen),
        position.type_count(Piece::King),
    ];
    let (tb_hit, tb_disagrees) = match oracle {
        Some(w) => (true, w.ordinal() != outcome.ordinal()),
        None => (false, false),
    };
    let o = Observation {
        white_king: position.king(Color::White),
        black_king: position.king(Color::Black),
        piece_count: position.piece_count(),
        pieces_by_type,
        move_number: position.fullmove_number(),
        outcome,
        incongruent: is_significantly_incongruent(eval as i32, outcome),
        extreme_eval: is_extremely_large(eval),
        tb_hit,
        tb_disagrees,
    };
    proof {
        assert(o@.pieces_by_type =~= spec_observe(position@, eval, outcome, oracle).pieces_by_type);
    }
    o
}

/// What to scan and how.
pub struct Options {
    /// Where the dataset lies.
    pub dataset: String,
    /// Where the tablebases lie; without them no oracle is asked.
    pub tb_path: Option<String>,
    /// The number of workers asked for; the machine's parallelism without.
    pub threads: Option<usize>,
}

/// `o` is an observation of `record` in a scan: the record's contribution
/// given an answer of the oracle for its position where the oracle is
/// active, and given no answer where it is not.
pub open spec fn observes<P: Fn(&RootQuery) -> u32>(
    probe: P,
    with_oracle: bool,
    max_pieces: u8,
    record: Record,
    o: ObservationView,
) -> bool {
    exists|answer: Option<WDL>|
        (if with_oracle {
            answers(probe, max_pieces, record.position@, answer)
        } else {
            answer is None
        }) && o == #[trigger] spec_observe(record.position@, record.eval, record.outcome, answer)
}

/// The stats transform: observes one record of a scan. The oracle is asked
/// about the record's position, through `probe`, only where it is active and
/// the position has no more than `max_pieces` pieces.
pub fn observe_record<P: Fn(&RootQuery) -> u32>(
    record: &Record,
    with_oracle: bool,
    max_pieces: u8,
    probe: &P,
) -> (o: Observation)
    requires
        forall|q: &RootQuery| call_requires(probe, (q,)),
    ensures
        observes(*probe, with_oracle, max_pieces, *record, o@),
        o@.wf(),
{
    let answer = if with_oracle {
        get_wdl_white(&record.position, max_pieces, probe)
    } else {
        None
    };
    let o = observe(&record.position, record.eval, record.outcome, answer);
    proof {
        assert(o@ == spec_observe(record.position@, record.eval, record.outcome, answer));
    }
    o
}

/// Tallies a dataset of decoded records. The records are cut into one
/// chunk per worker; the tally is that of all the records, whatever the
/// number of workers. The oracle is asked, through `probe`, only where the
/// options name tablebases. A request for no worker is refused.
pub fn run<P, G>(
    options: &Options,
    records: &[Record],
    max_pieces: u8,
    probe: &P,
    progress: &G,
) -> (r: Result<Stats, ScanError>) where P: Fn(&RootQuery) -> u32, G: Fn(u64)
    requires
        records.len() <= MAX_POSITIONS,
        forall|q: &RootQuery| call_requires(probe, (q,)),
        forall|n: u64| call_requires(progress, (n,)),
    ensures
        r is Err <==> options.threads == Some(0usize),
        r matches Err(e) ==> e == ScanError::Config(ConfigError::NoWorkers),
        r matches Ok(s) ==> s.wf() && exists|obs: Seq<ObservationView>|
            obs.len() == records.len() && (forall|i: int|
                0 <= i < records.len() ==> observes(
                    *probe,
                    options.tb_path is Some,
                    max_pieces,
                    records[i],
                    #[trigger] obs[i],
                )) && s@ == #[trigger] tally(obs),
{
    let workers = match resolve_threads(options.threads) {
        Ok(n) => n,
        Err(e) => {
            return Err(ScanError::Config(e));
        },
    };
    let with_oracle = options.tb_path.is_some();
    let transform = |record: &Record| -> (step: Step)
        requires
            forall|q: &RootQuery| call_requires(probe, (q,)),
        ensures
            step matches Ok(o) && observes(*probe, with_oracle, max_pieces, *record, o@),
        { Ok(observe_record(record, with_oracle, max_pieces, probe)) };
    let r = crate::scan::run(records, workers, &transform, progress);
    proof {
        let traces = choose|traces: Seq<Seq<Step>>|
            traces.len() == workers && (forall|c: int|
                0 <= c < workers ==> crate::scan::reads(
                    transform,
                    crate::scan::chunk_records(records@, workers as nat, c as nat),
                    #[trigger] traces[c],
                )) && crate::scan::outcome_agrees(
                r,
                #[trigger] crate::scan::fold_results(crate::scan::chunk_results(traces)),
            );
        lemma_complete_scan(transform, records@, workers as nat, traces);
        let all = join(traces);
        let obs = crate::scan::observed(all);
        assert forall|i: int| 0 <= i < records.len() implies observes(
            *probe,
            options.tb_path is Some,
            max_pieces,
            records[i],
            #[trigger] obs[i],
        ) by {
            assert(call_ensures(transform, (&records@[i],), all[i]));
        }
        assert(r is Ok);
        assert(r->Ok_0@ == tally(obs));
    }
    r
}

} // verus!
