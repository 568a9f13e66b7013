use crate::row::{row_views, rows_wf, Row};
use crate::shape::{recognized, shape_rows, MAX_COLUMNS};
use vstd::pervasive::VecAdditionalExecFns;
use vstd::prelude::*;

verus! {

/// The occupancy of board row `i`; rows above the top are empty, which gives
/// a falling shape unlimited headroom without any literal padding rows.
pub open spec fn row_at(b: Seq<Set<u64>>, i: int) -> Set<u64> {
    if 0 <= i < b.len() {
        b[i]
    } else {
        Set::empty()
    }
}

/// The shape can sit with its leading row at board row `r` without sharing
/// a column with any occupied row.
pub open spec fn can_place(b: Seq<Set<u64>>, s: Seq<Set<u64>>, r: int) -> bool {
    forall|k: int| 0 <= k < s.len() ==> row_at(b, r + k).disjoint(#[trigger] s[k])
}

/// Scan candidate resting rows from `c` downward: the first collision stops
/// the fall one row above it; reaching the floor without one rests at 0.
pub open spec fn scan_rest(b: Seq<Set<u64>>, s: Seq<Set<u64>>, c: int) -> int
    decreases c,
{
    if !can_place(b, s, c) {
        c + 1
    } else if c <= 0 {
        0
    } else {
        scan_rest(b, s, c - 1)
    }
}

/// The resting row of a falling shape: the scan starts at the top row of the
/// current stack; on an empty board the shape rests on the floor.
pub open spec fn rest_row(b: Seq<Set<u64>>, s: Seq<Set<u64>>) -> int {
    if b.len() == 0 {
        0
    } else {
        scan_rest(b, s, b.len() - 1)
    }
}

/// The board after a shape's rows are unioned in with the leading row at `r`;
/// rows beyond the old top are appended.
pub open spec fn merge_rows(b: Seq<Set<u64>>, s: Seq<Set<u64>>, r: int) -> Seq<Set<u64>> {
    Seq::new(
        vstd::math::max(b.len() as int, r + s.len()) as nat,
        |i: int|
            if r <= i < r + s.len() {
                row_at(b, i).union(s[i - r])
            } else {
                row_at(b, i)
            },
    )
}

/// The board after a shape is dropped onto it: unchanged for the empty
/// shape, otherwise the shape is merged at its resting row.
pub open spec fn settle(b: Seq<Set<u64>>, s: Seq<Set<u64>>) -> Seq<Set<u64>> {
    if s.len() == 0 {
        b
    } else {
        merge_rows(b, s, rest_row(b, s))
    }
}

/// A row survives compaction when it is neither empty nor full. Fullness is
/// deliberately the distinct-column count reaching the nominal width, with
/// no check that the columns lie in range: a row fed an out-of-range anchor
/// can therefore reach the count and be cleared.
pub open spec fn keep_row(r: Set<u64>) -> bool {
    r.len() != 0 && r.len() != MAX_COLUMNS as nat
}

/// The board after compaction: empty and full rows are discarded wherever
/// they stand, and the survivors keep their order.
pub open spec fn compact(b: Seq<Set<u64>>) -> Seq<Set<u64>>
    decreases b.len(),
{
    if b.len() == 0 {
        Seq::empty()
    } else if keep_row(b.last()) {
        compact(b.drop_last()).push(b.last())
    } else {
        compact(b.drop_last())
    }
}

/// Merges the shape into the board with its leading row at board row `row`:
/// each shape row's columns are unioned into the corresponding board row,
/// and rows beyond the current top are appended.
#[verifier::loop_isolation(false)]
pub fn add_shape_to_board(board: &mut Vec<Row>, shape: Vec<Row>, row: usize)
    requires
        rows_wf(old(board)@),
        rows_wf(shape@),
        row <= old(board)@.len(),
        old(board)@.len() + shape@.len() <= usize::MAX,
    ensures
        rows_wf(final(board)@),
        row_views(final(board)@) == merge_rows(
            row_views(old(board)@),
            row_views(shape@),
            row as int,
        ),
{
    let ghost b0 = row_views(old(board)@);
    let ghost rows0 = old(board)@;
    let ghost s0 = row_views(shape@);
    let mut add_row: usize = 0;
    while add_row < shape.len()
        invariant
            add_row <= shape@.len(),
            board@.len() == vstd::math::max(rows0.len() as int, row + add_row),
            rows_wf(board@),
            forall|j: int|
                row <= j < row + add_row ==> (#[trigger] board@[j])@ == row_at(b0, j).union(
                    s0[j - row],
                ),
            forall|j: int|
                0 <= j < board@.len() && !(row <= j < row + add_row) ==> board@[j] == rows0[j],
        decreases shape@.len() - add_row,
    {
        let idx = row + add_row;
        if idx < board.len() {
            let mut merged = board[idx].duplicate();
            merged.union_with(&shape[add_row]);
            board.set(idx, merged);
        } else {
            board.push(shape[add_row].duplicate());
        }
        add_row += 1;
    }
    proof {
        assert(row_views(board@) =~= merge_rows(b0, s0, row as int));
    }
}

/// Tests whether every row of the shape is disjoint from the board row it
/// would cover, were the leading row at board row `r`.
#[verifier::loop_isolation(false)]
fn fits(board: &Vec<Row>, shape: &Vec<Row>, r: usize) -> (b: bool)
    requires
        r + shape@.len() <= usize::MAX,
    ensures
        b == can_place(row_views(board@), row_views(shape@), r as int),
{
    let ghost b0 = row_views(board@);
    let ghost s0 = row_views(shape@);
    let mut k: usize = 0;
    while k < shape.len()
        invariant
            k <= shape@.len(),
            forall|j: int| 0 <= j < k ==> row_at(b0, r + j).disjoint(#[trigger] s0[j]),
        decreases shape@.len() - k,
    {
        let idx = r + k;
        if idx < board.len() {
            if !board[idx].is_disjoint(&shape[k]) {
                proof {
                    assert(!row_at(b0, r + k as int).disjoint(s0[k as int]));
                }
                return false;
            }
        }
        k += 1;
    }
    true
}

/// Drops a shape onto the board: the resting row is found by scanning from
/// the top of the stack downward until a row of the shape would touch an
/// occupied column, and the shape is merged one row above that collision
/// (or on the floor if none is found). An empty shape changes nothing.
#[verifier::loop_isolation(false)]
pub fn move_shape_down_board(board: &mut Vec<Row>, shape: Vec<Row>)
    requires
        rows_wf(old(board)@),
        rows_wf(shape@),
        old(board)@.len() + shape@.len() <= usize::MAX,
    ensures
        rows_wf(final(board)@),
        row_views(final(board)@) == settle(row_views(old(board)@), row_views(shape@)),
{
    let ghost b0 = row_views(old(board)@);
    let ghost s0 = row_views(shape@);
    if shape.len() == 0 {
        return;
    }
    if board.len() == 0 {
        add_shape_to_board(board, shape, 0);
        return;
    }
    let mut current_lower_board_row: usize = board.len() - 1;
    loop
        invariant
            0 <= current_lower_board_row < board@.len(),
            board@ == old(board)@,
            scan_rest(b0, s0, current_lower_board_row as int) == rest_row(b0, s0),
        decreases current_lower_board_row,
    {
        if !fits(board, &shape, current_lower_board_row) {
            proof {
                assert(scan_rest(b0, s0, current_lower_board_row as int)
                    == current_lower_board_row + 1);
            }
            add_shape_to_board(board, shape, current_lower_board_row + 1);
            return;
        }
        if current_lower_board_row == 0 {
            proof {
                assert(scan_rest(b0, s0, 0) == 0);
            }
            add_shape_to_board(board, shape, 0);
            return;
        }
        current_lower_board_row -= 1;
    }
}

/// Removes every empty row and every full row from the board and returns
/// the remaining row count: the externally reported height.
#[verifier::loop_isolation(false)]
pub fn rationalise_rows(board: &mut Vec<Row>) -> (height: usize)
    requires
        rows_wf(old(board)@),
    ensures
        rows_wf(final(board)@),
        row_views(final(board)@) == compact(row_views(old(board)@)),
        height == final(board)@.len(),
        height == compact(row_views(old(board)@)).len(),
{
    let ghost b0 = row_views(old(board)@);
    let mut kept: Vec<Row> = Vec::new();
    let mut i: usize = 0;
    while i < board.len()
        invariant
            i <= board@.len(),
            board@ == old(board)@,
            rows_wf(kept@),
            row_views(kept@) == compact(b0.take(i as int)),
        decreases board@.len() - i,
    {
        proof {
            assert(b0.take(i + 1).drop_last() =~= b0.take(i as int));
            assert(b0.take(i + 1).last() == b0[i as int]);
        }
        let l = board[i].len();
        if l != 0 && l != MAX_COLUMNS {
            kept.push(board[i].duplicate());
        }
        proof {
            assert(row_views(kept@) =~= compact(b0.take(i + 1)));
        }
        i += 1;
    }
    proof {
        assert(b0.take(b0.len() as int) =~= b0);
    }
    *board = kept;
    board.len()
}

/// Compacting twice in a row, with no settle in between, is the same as
/// compacting once: every row that survives the first pass is neither empty
/// nor full, so the second pass keeps them all, and in particular reports
/// the same row count.
pub proof fn lemma_compact_idempotent(b: Seq<Set<u64>>)
    ensures
        compact(compact(b)) == compact(b),
    decreases b.len(),
{
    if b.len() == 0 {
    } else {
        lemma_compact_idempotent(b.drop_last());
        if keep_row(b.last()) {
            let t = compact(b.drop_last());
            assert(t.push(b.last()).drop_last() =~= t);
            assert(t.push(b.last()).last() == b.last());
            assert(compact(t.push(b.last())) == compact(t).push(b.last()));
        }
    }
}

/// An unrecognized piece kind yields no rows at all, and settling that empty
/// shape onto any board leaves the board exactly as it was.
pub proof fn lemma_unknown_kind_noop(kind: char, p: u64, b: Seq<Set<u64>>)
    requires
        !recognized(kind),
    ensures
        shape_rows(kind, p).len() == 0,
        settle(b, shape_rows(kind, p)) == b,
{
}

} // verus!
