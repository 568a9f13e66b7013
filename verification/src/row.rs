use vstd::prelude::*;

verus! {

broadcast use vstd::seq_lib::seq_to_set_is_finite, vstd::set::group_set_axioms;

/// A row of the board or of a shape: the set of occupied column indices,
/// held as a vector that lists each column at most once.
pub struct Row {
    cols: Vec<u64>,
}

impl View for Row {
    type V = Set<u64>;

    closed spec fn view(&self) -> Set<u64> {
        self.cols@.to_set()
    }
}

/// Pushing one element onto a sequence inserts it into the sequence's set,
/// and keeps the sequence duplicate-free when the element is new.
proof fn lemma_push_set(s: Seq<u64>, c: u64)
    ensures
        s.push(c).to_set() == s.to_set().insert(c),
        s.no_duplicates() && !s.contains(c) ==> s.push(c).no_duplicates(),
{
    assert forall|x: u64|
        s.push(c).to_set().contains(x) == s.to_set().insert(c).contains(x) by {
        if s.push(c).contains(x) {
            let i = choose|i: int| 0 <= i < s.push(c).len() && s.push(c)[i] == x;
            if i < s.len() {
                assert(s[i] == x);
            }
        }
        if s.contains(x) {
            let i = choose|i: int| 0 <= i < s.len() && s[i] == x;
            assert(s.push(c)[i] == x);
        }
        if x == c {
            assert(s.push(c)[s.len() as int] == x);
        }
    }
    assert(s.push(c).to_set() =~= s.to_set().insert(c));
    if s.no_duplicates() && !s.contains(c) {
        assert forall|i: int, j: int|
            0 <= i < s.push(c).len() && 0 <= j < s.push(c).len() && i != j implies s.push(c)[i]
            != s.push(c)[j] by {
            if i < s.len() && j < s.len() {
            } else if i < s.len() {
                assert(s.contains(s[i]));
            } else {
                assert(s.contains(s[j]));
            }
        }
    }
}

impl Row {
    /// The backing vector lists no column twice, so its length is the
    /// number of occupied columns.
    pub closed spec fn wf(&self) -> bool {
        self.cols@.no_duplicates()
    }

    pub fn new() -> (r: Row)
        ensures
            r.wf(),
            r@ == Set::<u64>::empty(),
    {
        let r = Row { cols: Vec::new() };
        proof {
            assert(r@ =~= Set::<u64>::empty());
        }
        r
    }

    pub fn contains(&self, c: u64) -> (b: bool)
        ensures
            b == self@.contains(c),
    {
        let mut i: usize = 0;
        while i < self.cols.len()
            invariant
                i <= self.cols@.len(),
                forall|j: int| 0 <= j < i ==> self.cols@[j] != c,
            decreases self.cols@.len() - i,
        {
            if self.cols[i] == c {
                assert(self.cols@.contains(c));
                return true;
            }
            i += 1;
        }
        assert(!self.cols@.contains(c));
        false
    }

    pub fn insert(&mut self, c: u64)
        requires
            old(self).wf(),
        ensures
            final(self).wf(),
            final(self)@ == old(self)@.insert(c),
    {
        if !self.contains(c) {
            proof {
                lemma_push_set(self.cols@, c);
            }
            self.cols.push(c);
        } else {
            proof {
                assert(self@ =~= old(self)@.insert(c));
            }
        }
    }

    pub fn len(&self) -> (n: usize)
        requires
            self.wf(),
        ensures
            n == self@.len(),
    {
        proof {
            self.cols@.unique_seq_to_set();
        }
        self.cols.len()
    }

    pub fn is_disjoint(&self, other: &Row) -> (b: bool)
        ensures
            b == self@.disjoint(other@),
    {
        let mut i: usize = 0;
        while i < self.cols.len()
            invariant
                i <= self.cols@.len(),
                forall|j: int| 0 <= j < i ==> !other@.contains(#[trigger] self.cols@[j]),
            decreases self.cols@.len() - i,
        {
            if other.contains(self.cols[i]) {
                proof {
                    assert(self.cols@.contains(self.cols@[i as int]));
                    assert(self@.contains(self.cols@[i as int]));
                }
                return false;
            }
            i += 1;
        }
        proof {
            assert forall|a: u64| self@.contains(a) implies !other@.contains(a) by {
                let j = choose|j: int| 0 <= j < self.cols@.len() && self.cols@[j] == a;
                assert(!other@.contains(self.cols@[j]));
            }
        }
        true
    }

    pub fn is_subset(&self, other: &Row) -> (b: bool)
        ensures
            b == self@.subset_of(other@),
    {
        let mut i: usize = 0;
        while i < self.cols.len()
            invariant
                i <= self.cols@.len(),
                forall|j: int| 0 <= j < i ==> other@.contains(#[trigger] self.cols@[j]),
            decreases self.cols@.len() - i,
        {
            if !other.contains(self.cols[i]) {
                proof {
                    assert(self.cols@.contains(self.cols@[i as int]));
                    assert(self@.contains(self.cols@[i as int]));
                }
                return false;
            }
            i += 1;
        }
        proof {
            assert forall|a: u64| self@.contains(a) implies other@.contains(a) by {
                let j = choose|j: int| 0 <= j < self.cols@.len() && self.cols@[j] == a;
                assert(other@.contains(self.cols@[j]));
            }
        }
        true
    }

    /// Unions another row's columns into this one.
    pub fn union_with(&mut self, other: &Row)
        requires
            old(self).wf(),
        ensures
            final(self).wf(),
            final(self)@ == old(self)@.union(other@),
    {
        let ghost orig = self@;
        proof {
            assert(other.cols@.take(0).to_set() =~= Set::<u64>::empty());
            assert(orig.union(other.cols@.take(0).to_set()) =~= orig);
        }
        let mut i: usize = 0;
        while i < other.cols.len()
            invariant
                self.wf(),
                i <= other.cols@.len(),
                self@ == orig.union(other.cols@.take(i as int).to_set()),
            decreases other.cols@.len() - i,
        {
            self.insert(other.cols[i]);
            proof {
                assert(other.cols@.take(i + 1) =~= other.cols@.take(i as int).push(
                    other.cols@[i as int],
                ));
                lemma_push_set(other.cols@.take(i as int), other.cols@[i as int]);
                assert(self@ =~= orig.union(other.cols@.take(i + 1).to_set()));
            }
            i += 1;
        }
        proof {
            assert(other.cols@.take(other.cols@.len() as int) =~= other.cols@);
        }
    }

    /// An independent copy of the row.
    pub fn duplicate(&self) -> (r: Row)
        ensures
            r@ == self@,
            self.wf() ==> r.wf(),
    {
        let mut cols: Vec<u64> = Vec::new();
        let mut i: usize = 0;
        while i < self.cols.len()
            invariant
                i <= self.cols@.len(),
                cols@ == self.cols@.take(i as int),
            decreases self.cols@.len() - i,
        {
            cols.push(self.cols[i]);
            proof {
                assert(self.cols@.take(i + 1) =~= self.cols@.take(i as int).push(
                    self.cols@[i as int],
                ));
            }
            i += 1;
        }
        proof {
            assert(self.cols@.take(self.cols@.len() as int) =~= self.cols@);
        }
        Row { cols }
    }
}

impl PartialEq for Row {
    /// Two rows are equal when they occupy the same columns, whatever the
    /// order the backing vectors list them in.
    fn eq(&self, other: &Row) -> (b: bool) {
        let b = self.is_subset(other) && other.is_subset(self);
        proof {
            if b {
                assert(self@ =~= other@);
            }
        }
        b
    }
}

impl vstd::std_specs::cmp::PartialEqSpecImpl for Row {
    open spec fn obeys_eq_spec() -> bool {
        true
    }

    open spec fn eq_spec(&self, other: &Row) -> bool {
        self@ == other@
    }
}

/// All rows of a sequence are well formed.
pub open spec fn rows_wf(rows: Seq<Row>) -> bool {
    forall|i: int| 0 <= i < rows.len() ==> (#[trigger] rows[i]).wf()
}

/// The occupancy sets of a sequence of rows, in order.
pub open spec fn row_views(rows: Seq<Row>) -> Seq<Set<u64>> {
    rows.map_values(|r: Row| r@)
}

/// `row_views` distributes over `push`.
pub proof fn lemma_row_views_push(rows: Seq<Row>, r: Row)
    ensures
        row_views(rows.push(r)) == row_views(rows).push(r@),
{
    assert(row_views(rows.push(r)) =~= row_views(rows).push(r@));
}

} // verus!
