//! Plain-value form of the assignment constraints and their meaning over a
//! boolean assignment matrix (rows: attendees, columns: timeslots).
use vstd::prelude::*;

verus! {

/// One linear constraint over the assignment matrix.
#[derive(Clone, Copy, Debug, PartialEq, Eq)]
pub enum Constraint {
    /// The number of timeslots assigned to attendee `row` is exactly `count`.
    RowExactly { row: usize, count: u64 },
    /// The number of attendees assigned to timeslot `column` is at most `count`.
    ColumnAtMost { column: usize, count: u64 },
}

/// Number of `true` entries in `s`.
pub open spec fn count_true(s: Seq<bool>) -> nat
    decreases s.len(),
{
    if s.len() == 0 {
        0
    } else {
        count_true(s.drop_last()) + if s.last() {
            1nat
        } else {
            0nat
        }
    }
}

/// Column `j` of the matrix `m`.
pub open spec fn column(m: Seq<Seq<bool>>, j: int) -> Seq<bool> {
    Seq::new(m.len(), |i: int| m[i][j])
}

/// `m` has `rows` rows of `cols` entries each.
pub open spec fn is_matrix(m: Seq<Seq<bool>>, rows: nat, cols: nat) -> bool {
    &&& m.len() == rows
    &&& forall|i: int| 0 <= i < rows ==> (#[trigger] m[i]).len() == cols
}

/// Whether `c` holds of the matrix `m`.
pub open spec fn holds(c: Constraint, m: Seq<Seq<bool>>) -> bool {
    match c {
        Constraint::RowExactly { row, count } => row < m.len() && count_true(m[row as int])
            == count,
        Constraint::ColumnAtMost { column: j, count } => {
            &&& forall|i: int| 0 <= i < m.len() ==> j < (#[trigger] m[i]).len()
            &&& count_true(column(m, j as int)) <= count
        },
    }
}

/// Whether every constraint of `cs` holds of `m`.
pub open spec fn holds_all(cs: Seq<Constraint>, m: Seq<Seq<bool>>) -> bool {
    forall|k: int| 0 <= k < cs.len() ==> holds(#[trigger] cs[k], m)
}

/// The exact-visit constraints: one per attendee row, each asking for `visits`.
pub open spec fn visit_constraints(attendees: nat, visits: u64) -> Seq<Constraint> {
    Seq::new(attendees, |i: int| Constraint::RowExactly { row: i as usize, count: visits })
}

/// The capacity constraints: one per timeslot with a capacity, in timeslot
/// order. A timeslot without a capacity is unbounded and gets none.
pub open spec fn capacity_constraints(caps: Seq<Option<u64>>) -> Seq<Constraint>
    decreases caps.len(),
{
    if caps.len() == 0 {
        Seq::empty()
    } else {
        let rest = capacity_constraints(caps.drop_last());
        match caps.last() {
            Some(c) => rest.push(Constraint::ColumnAtMost { column: (caps.len() - 1) as usize, count: c }),
            None => rest,
        }
    }
}

/// Every attendee row of `m` has exactly `visits` entries set.
pub open spec fn visits_met(m: Seq<Seq<bool>>, visits: u64) -> bool {
    forall|i: int| 0 <= i < m.len() ==> count_true(#[trigger] m[i]) == visits
}

/// Every timeslot column with a capacity has at most that many entries set.
pub open spec fn capacities_met(m: Seq<Seq<bool>>, caps: Seq<Option<u64>>) -> bool {
    forall|j: int|
        0 <= j < caps.len() && (#[trigger] caps[j]) is Some ==> count_true(column(m, j))
            <= caps[j].unwrap()
}

/// Index of the first `true` entry of `s` at or after `start`, if any.
pub open spec fn first_true_from(s: Seq<bool>, start: int) -> Option<int>
    decreases s.len() - start,
{
    if start < 0 || start >= s.len() {
        None
    } else if s[start] {
        Some(start)
    } else {
        first_true_from(s, start + 1)
    }
}

/// The matrix with `rows` rows of `cols` entries, all `false`.
pub open spec fn all_false(rows: nat, cols: nat) -> Seq<Seq<bool>> {
    Seq::new(rows, |i: int| Seq::new(cols, |j: int| false))
}

/// A sequence holds at most as many `true` entries as it has entries.
pub proof fn lemma_count_true_le_len(s: Seq<bool>)
    ensures
        count_true(s) <= s.len(),
    decreases s.len(),
{
    if s.len() > 0 {
        lemma_count_true_le_len(s.drop_last());
    }
}

/// A sequence with no `true` entry counts zero.
pub proof fn lemma_count_true_none(s: Seq<bool>)
    requires
        forall|j: int| 0 <= j < s.len() ==> !s[j],
    ensures
        count_true(s) == 0,
    decreases s.len(),
{
    if s.len() > 0 {
        lemma_count_true_none(s.drop_last());
    }
}

/// Counting a prefix one entry longer adds that entry.
pub proof fn lemma_count_true_prefix(s: Seq<bool>, k: int)
    requires
        0 <= k < s.len(),
    ensures
        count_true(s.subrange(0, k + 1)) == count_true(s.subrange(0, k)) + if s[k] {
            1nat
        } else {
            0nat
        },
{
    assert(s.subrange(0, k + 1).drop_last() =~= s.subrange(0, k));
}

/// A sequence with no `true` entry from `start` on has no first one there.
pub proof fn lemma_first_true_none(s: Seq<bool>, start: int)
    requires
        0 <= start,
        forall|j: int| start <= j < s.len() ==> !s[j],
    ensures
        first_true_from(s, start) is None,
    decreases s.len() - start,
{
    if start < s.len() {
        lemma_first_true_none(s, start + 1);
    }
}

/// The visit constraints hold exactly when every attendee row has `visits`
/// entries set.
pub proof fn lemma_visit_constraints_meaning(m: Seq<Seq<bool>>, visits: u64)
    requires
        m.len() <= usize::MAX,
    ensures
        holds_all(visit_constraints(m.len(), visits), m) <==> visits_met(m, visits),
{
    let cs = visit_constraints(m.len(), visits);
    if holds_all(cs, m) {
        assert forall|i: int| 0 <= i < m.len() implies count_true(#[trigger] m[i]) == visits by {
            assert(holds(cs[i], m));
        }
    }
    if visits_met(m, visits) {
        assert forall|k: int| 0 <= k < cs.len() implies holds(#[trigger] cs[k], m) by {
            assert(count_true(m[k]) == visits);
        }
    }
}

/// The capacity constraints hold of a matrix with `caps.len()` columns exactly
/// when every timeslot with a capacity stays within it.
pub proof fn lemma_capacity_constraints_meaning(m: Seq<Seq<bool>>, caps: Seq<Option<u64>>)
    requires
        caps.len() <= usize::MAX,
        forall|i: int| 0 <= i < m.len() ==> (#[trigger] m[i]).len() == caps.len(),
    ensures
        holds_all(capacity_constraints(caps), m) <==> capacities_met(m, caps),
{
    lemma_capacity_prefix_meaning(m, caps, caps.len());
}

/// The capacity constraints of a prefix `caps` of the columns of a matrix
/// with `width` columns.
proof fn lemma_capacity_prefix_meaning(m: Seq<Seq<bool>>, caps: Seq<Option<u64>>, width: nat)
    requires
        caps.len() <= width <= usize::MAX,
        forall|i: int| 0 <= i < m.len() ==> (#[trigger] m[i]).len() == width,
    ensures
        holds_all(capacity_constraints(caps), m) <==> capacities_met(m, caps),
    decreases caps.len(),
{
    if caps.len() > 0 {
        let prev = caps.drop_last();
        let n = caps.len() - 1;
        lemma_capacity_prefix_meaning(m, prev, width);
        let rest = capacity_constraints(prev);
        let cs = capacity_constraints(caps);
        if capacities_met(m, caps) {
            assert forall|j: int| 0 <= j < prev.len() && (#[trigger] prev[j]) is Some implies count_true(
                column(m, j),
            ) <= prev[j].unwrap() by {
                assert(caps[j] == prev[j]);
            }
        }
        match caps.last() {
            Some(c) => {
                let last = Constraint::ColumnAtMost { column: n as usize, count: c };
                assert(cs == rest.push(last));
                if holds_all(cs, m) {
                    assert forall|k: int| 0 <= k < rest.len() implies holds(#[trigger] rest[k], m) by {
                        assert(cs[k] == rest[k]);
                    }
                    assert(holds(cs[cs.len() - 1], m));
                    assert forall|j: int| 0 <= j < caps.len() && (#[trigger] caps[j]) is Some implies count_true(
                        column(m, j),
                    ) <= caps[j].unwrap() by {
                        if j < prev.len() {
                            assert(caps[j] == prev[j]);
                        }
                    }
                }
                if capacities_met(m, caps) {
                    assert(caps[n] is Some);
                    assert forall|k: int| 0 <= k < cs.len() implies holds(#[trigger] cs[k], m) by {
                        if k < rest.len() {
                            assert(cs[k] == rest[k]);
                        }
                    }
                }
            },
            None => {
                assert(cs == rest);
                if holds_all(cs, m) {
                    assert forall|j: int| 0 <= j < caps.len() && (#[trigger] caps[j]) is Some implies count_true(
                        column(m, j),
                    ) <= caps[j].unwrap() by {
                        if j < prev.len() {
                            assert(caps[j] == prev[j]);
                        }
                    }
                }
            },
        }
    }
}

/// The matrix that a vector of rows stands for.
pub open spec fn rows_view(cells: Seq<Vec<bool>>) -> Seq<Seq<bool>> {
    Seq::new(cells.len(), |i: int| cells[i]@)
}

/// No assignment meets the visit constraints when at least one attendee must
/// visit more timeslots than exist.
pub proof fn lemma_too_many_visits(m: Seq<Seq<bool>>, rows: nat, cols: nat, visits: u64)
    requires
        is_matrix(m, rows, cols),
        rows > 0,
        visits > cols,
    ensures
        !holds_all(visit_constraints(rows, visits), m),
{
    let cs = visit_constraints(rows, visits);
    lemma_count_true_le_len(m[0]);
    assert(!holds(cs[0], m));
}

/// With zero visits required, the all-false assignment meets the visit
/// constraints and every capacity constraint, and leaves every attendee
/// without a timeslot.
pub proof fn lemma_no_visits(rows: nat, caps: Seq<Option<u64>>)
    requires
        rows <= usize::MAX,
        caps.len() <= usize::MAX,
    ensures
        holds_all(visit_constraints(rows, 0), all_false(rows, caps.len())),
        holds_all(capacity_constraints(caps), all_false(rows, caps.len())),
        forall|i: int|
            0 <= i < rows ==> first_true_from(#[trigger] all_false(rows, caps.len())[i], 0) is None,
{
    let m = all_false(rows, caps.len());
    assert forall|i: int| 0 <= i < rows implies count_true(#[trigger] m[i]) == 0 by {
        lemma_count_true_none(m[i]);
    }
    lemma_visit_constraints_meaning(m, 0);
    assert forall|j: int| 0 <= j < caps.len() && (#[trigger] caps[j]) is Some implies count_true(
        column(m, j),
    ) <= caps[j].unwrap() by {
        lemma_count_true_none(column(m, j));
    }
    lemma_capacity_constraints_meaning(m, caps);
    assert forall|i: int| 0 <= i < rows implies first_true_from(#[trigger] m[i], 0) is None by {
        lemma_first_true_none(m[i], 0);
    }
}

/// Number of entries of `row` that are set.
pub fn count_set(row: &Vec<bool>) -> (r: usize)
    ensures
        r == count_true(row@),
{
    let mut n: usize = 0;
    let mut k: usize = 0;
    while k < row.len()
        invariant
            k <= row.len(),
            n <= k,
            n == count_true(row@.subrange(0, k as int)),
        decreases row.len() - k,
    {
        proof {
            lemma_count_true_prefix(row@, k as int);
        }
        if row[k] {
            n = n + 1;
        }
        k = k + 1;
    }
    assert(row@.subrange(0, row.len() as int) =~= row@);
    n
}

/// Number of rows of `cells` whose entry `j` is set; every row must have one.
pub fn count_set_in_column(cells: &Vec<Vec<bool>>, j: usize) -> (r: usize)
    requires
        forall|i: int| 0 <= i < cells.len() ==> j < (#[trigger] cells[i]).len(),
    ensures
        r == count_true(column(rows_view(cells@), j as int)),
{
    let ghost col = column(rows_view(cells@), j as int);
    let mut n: usize = 0;
    let mut i: usize = 0;
    while i < cells.len()
        invariant
            i <= cells.len(),
            n <= i,
            col == column(rows_view(cells@), j as int),
            col.len() == cells.len(),
            n == count_true(col.subrange(0, i as int)),
            forall|i: int| 0 <= i < cells.len() ==> j < (#[trigger] cells[i]).len(),
        decreases cells.len() - i,
    {
        proof {
            lemma_count_true_prefix(col, i as int);
        }
        if cells[i][j] {
            n = n + 1;
        }
        i = i + 1;
    }
    assert(col.subrange(0, cells.len() as int) =~= col);
    n
}

/// Whether `c` holds of the matrix whose rows are `cells`.
pub fn satisfies(cells: &Vec<Vec<bool>>, c: Constraint) -> (r: bool)
    ensures
        r == holds(c, rows_view(cells@)),
{
    match c {
        Constraint::RowExactly { row, count } => {
            if row < cells.len() {
                count_set(&cells[row]) as u64 == count
            } else {
                false
            }
        },
        Constraint::ColumnAtMost { column: j, count } => {
            let mut i: usize = 0;
            while i < cells.len()
                invariant
                    i <= cells.len(),
                    c == (Constraint::ColumnAtMost { column: j, count }),
                    forall|k: int| 0 <= k < i ==> j < (#[trigger] cells[k]).len(),
                decreases cells.len() - i,
            {
                if j >= cells[i].len() {
                    let ghost m = rows_view(cells@);
                    assert(m[i as int] == cells@[i as int]@);
                    assert(!(j < m[i as int].len()));
                    return false;
                }
                i = i + 1;
            }
            count_set_in_column(cells, j) as u64 <= count
        },
    }
}

/// Whether every constraint of `cs` holds of the matrix whose rows are `cells`.
pub fn satisfies_all(cells: &Vec<Vec<bool>>, cs: &Vec<Constraint>) -> (r: bool)
    ensures
        r == holds_all(cs@, rows_view(cells@)),
{
    let mut k: usize = 0;
    while k < cs.len()
        invariant
            k <= cs.len(),
            forall|q: int| 0 <= q < k ==> holds(#[trigger] cs@[q], rows_view(cells@)),
        decreases cs.len() - k,
    {
        if !satisfies(cells, cs[k]) {
            return false;
        }
        k = k + 1;
    }
    true
}

} // verus!
