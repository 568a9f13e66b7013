use crate::row::{row_views, rows_wf, Row};
use vstd::prelude::*;

verus! {

/// Number of columns in the nominal board; a row holding this many distinct
/// columns is full and is cleared by compaction.
pub const MAX_COLUMNS: usize = 10;

/// The piece kinds the factory recognizes; any other character stands for
/// the empty, no-op shape.
pub open spec fn recognized(kind: char) -> bool {
    kind == 'Q' || kind == 'S' || kind == 'Z' || kind == 'T' || kind == 'I' || kind == 'L' || kind
        == 'J'
}

/// Greatest column offset from the anchor that a piece of this kind occupies.
pub open spec fn kind_span(kind: char) -> int {
    match kind {
        'Q' => 1,
        'S' => 2,
        'Z' => 2,
        'T' => 2,
        'I' => 3,
        'L' => 1,
        'J' => 1,
        _ => 0,
    }
}

/// The anchor leaves room for every column of the piece within `u64`.
pub open spec fn anchor_ok(kind: char, p: u64) -> bool {
    p + kind_span(kind) <= u64::MAX
}

/// The geometry table: the occupancy sets of a piece of the given kind at
/// anchor column `p`, leading (lowest-contact) row first. An unrecognized
/// kind has no rows at all.
pub open spec fn shape_rows(kind: char, p: u64) -> Seq<Set<u64>> {
    let p1 = (p + 1) as u64;
    let p2 = (p + 2) as u64;
    let p3 = (p + 3) as u64;
    match kind {
        'Q' => seq![set![p, p1], set![p, p1]],
        'S' => seq![set![p, p1], set![p1, p2]],
        'Z' => seq![set![p1, p2], set![p, p1]],
        'T' => seq![set![p1], set![p, p1, p2]],
        'I' => seq![set![p, p1, p2, p3]],
        'L' => seq![set![p, p1], set![p], set![p]],
        'J' => seq![set![p, p1], set![p1], set![p1]],
        _ => Seq::empty(),
    }
}

/// For every anchor column `p` that leaves room in `u64`, a 'Q' piece has
/// exactly two rows, each occupying precisely `p` and `p + 1`.
pub proof fn lemma_q_rows(p: u64)
    requires
        anchor_ok('Q', p),
    ensures
        shape_rows('Q', p).len() == 2,
        forall|k: int| 0 <= k < 2 ==> shape_rows('Q', p)[k] == set![p, (p + 1) as u64],
{
}

/// For every anchor column `p` that leaves room in `u64`, an 'I' piece has
/// exactly one row, occupying precisely `p` through `p + 3`.
pub proof fn lemma_i_rows(p: u64)
    requires
        anchor_ok('I', p),
    ensures
        shape_rows('I', p).len() == 1,
        shape_rows('I', p)[0] == set![p, (p + 1) as u64, (p + 2) as u64, (p + 3) as u64],
{
}

/// Builds the rows of a piece of the given kind at the given anchor column,
/// exactly as the geometry table states. An unrecognized kind yields an
/// empty vector: a deliberate no-op, not an error.
pub fn create_shape(shape: char, position: u64) -> (rows: Vec<Row>)
    requires
        anchor_ok(shape, position),
    ensures
        rows_wf(rows@),
        row_views(rows@) == shape_rows(shape, position),
{
    let mut translated_shape: Vec<Row> = Vec::new();
    match shape {
        'Q' => {
            let mut row1 = Row::new();
            let mut row2 = Row::new();
            row1.insert(position);
            row1.insert(position + 1);
            row2.insert(position);
            row2.insert(position + 1);
            translated_shape.push(row1);
            translated_shape.push(row2);
        },
        'S' => {
            let mut row1 = Row::new();
            let mut row2 = Row::new();
            row1.insert(position);
            row1.insert(position + 1);
            row2.insert(position + 1);
            row2.insert(position + 2);
            translated_shape.push(row1);
            translated_shape.push(row2);
        },
        'Z' => {
            let mut row1 = Row::new();
            let mut row2 = Row::new();
            row1.insert(position + 1);
            row1.insert(position + 2);
            row2.insert(position);
            row2.insert(position + 1);
            translated_shape.push(row1);
            translated_shape.push(row2);
        },
        'T' => {
            let mut row1 = Row::new();
            let mut row2 = Row::new();
            row1.insert(position + 1);
            row2.insert(position);
            row2.insert(position + 1);
            row2.insert(position + 2);
            translated_shape.push(row1);
            translated_shape.push(row2);
        },
        'I' => {
            let mut row1 = Row::new();
            row1.insert(position);
            row1.insert(position + 1);
            row1.insert(position + 2);
            row1.insert(position + 3);
            translated_shape.push(row1);
        },
        'L' => {
            let mut row1 = Row::new();
            let mut row2 = Row::new();
            let mut row3 = Row::new();
            row1.insert(position);
            row1.insert(position + 1);
            row2.insert(position);
            row3.insert(position);
            translated_shape.push(row1);
            translated_shape.push(row2);
            translated_shape.push(row3);
        },
        'J' => {
            let mut row1 = Row::new();
            let mut row2 = Row::new();
            let mut row3 = Row::new();
            row1.insert(position);
            row1.insert(position + 1);
            row2.insert(position + 1);
            row3.insert(position + 1);
            translated_shape.push(row1);
            translated_shape.push(row2);
            translated_shape.push(row3);
        },
        _ => {},
    }
    proof {
        assert(row_views(translated_shape@) =~= shape_rows(shape, position));
    }
    translated_shape
}

} // verus!
