//! Attendees, timeslots and the matrix of decision variables that assigns
//! the one to the other; the constraint generators; and the reading of a
//! checked solution.
use vstd::prelude::*;

use crate::backend::{
    at_most_formula, declare_cell, eval_in, exactly_formula, ids_of, Cell, PbFormula, SolverHandle,
    Verdict,
};
use crate::constraint::{
    all_false, capacities_met, capacity_constraints, column, count_true, first_true_from, holds_all,
    is_matrix, lemma_capacity_constraints_meaning, lemma_count_true_none, lemma_too_many_visits,
    lemma_visit_constraints_meaning, rows_view, satisfies_all, visit_constraints, visits_met,
    Constraint,
};

verus! {

/// Largest number of attendees, and of timeslots, that a table takes: the
/// solver's counting constraints take their bound as an `i32`, and a row or
/// column bound may be one more than the row or column length.
pub const MAX_DIMENSION: usize = 0x7fff_fffe;

/// A person to be assigned; identified by name.
#[derive(Clone, Debug, PartialEq, Eq)]
pub struct Attendee {
    pub name: String,
}

/// A timeslot; identified by name. `capacity` is the largest number of
/// attendees it holds; `None` leaves it unbounded.
#[derive(Clone, Debug, PartialEq, Eq)]
pub struct Timeslot {
    pub name: String,
    pub capacity: Option<u64>,
}

/// Why a table could not be set up.
#[derive(Clone, Copy, Debug, PartialEq, Eq)]
pub enum SetupError {
    /// More attendees than `MAX_DIMENSION`.
    TooManyAttendees,
    /// More timeslots than `MAX_DIMENSION`.
    TooManyTimeslots,
}

/// The capacities of `slots`, in order.
pub open spec fn capacities_of(slots: Seq<Timeslot>) -> Seq<Option<u64>> {
    Seq::new(slots.len(), |j: int| slots[j].capacity)
}

/// `x`, or `limit` where `x` is above it.
pub open spec fn clamp(x: int, limit: int) -> int {
    if x > limit {
        limit
    } else {
        x
    }
}

/// The names of the variables of attendee row `i`, in timeslot order.
pub open spec fn row_ids(i: int, width: nat) -> Seq<(usize, usize)> {
    Seq::new(width, |j: int| (i as usize, j as usize))
}

/// The names of the variables of timeslot column `j`, in attendee order.
pub open spec fn column_ids(j: int, height: nat) -> Seq<(usize, usize)> {
    Seq::new(height, |i: int| (i as usize, j as usize))
}

/// The formulas that `eq_visits` asserts: for each row, exactly `visits`
/// (capped at one past the row length) of its variables are true.
pub open spec fn visit_formulas(rows: nat, cols: nat, visits: u64) -> Seq<PbFormula> {
    Seq::new(
        rows,
        |i: int| PbFormula::Exactly { cells: row_ids(i, cols), bound: clamp(visits as int, cols + 1 as int) },
    )
}

/// The formulas that `max_attendees` asserts: for each timeslot with a
/// capacity, at most that many (capped at the column length) of its
/// variables are true.
pub open spec fn capacity_formulas(caps: Seq<Option<u64>>, rows: nat) -> Seq<PbFormula>
    decreases caps.len(),
{
    if caps.len() == 0 {
        Seq::empty()
    } else {
        let rest = capacity_formulas(caps.drop_last(), rows);
        match caps.last() {
            Some(c) => rest.push(
                PbFormula::AtMost {
                    cells: column_ids(caps.len() - 1, rows),
                    bound: clamp(c as int, rows as int),
                },
            ),
            None => rest,
        }
    }
}

/// The outcome of a satisfiability check.
pub enum Outcome {
    /// The solver found an assignment, and it meets every asserted constraint.
    Satisfiable(Solution),
    /// The solver found that no assignment meets the constraints.
    Unsatisfiable,
    /// The solver gave no answer, or gave a model that could not be read or
    /// does not meet the constraints.
    Unknown,
}

/// A checked assignment: entry `(i, j)` tells whether attendee `i` visits
/// timeslot `j`.
pub struct Solution {
    cells: Vec<Vec<bool>>,
}

impl View for Solution {
    type V = Seq<Seq<bool>>;

    closed spec fn view(&self) -> Seq<Seq<bool>> {
        rows_view(self.cells@)
    }
}

impl Solution {
    /// The assignment of `rows` attendees and `cols` timeslots with nobody
    /// assigned anywhere.
    pub fn unassigned(rows: usize, cols: usize) -> (r: Solution)
        ensures
            r@ == all_false(rows as nat, cols as nat),
    {
        let mut cells: Vec<Vec<bool>> = Vec::new();
        let mut i: usize = 0;
        while i < rows
            invariant
                i <= rows,
                cells@.len() == i,
                forall|k: int| 0 <= k < i ==> (#[trigger] cells@[k])@ == Seq::new(cols as nat, |j: int| false),
            decreases rows - i,
        {
            let mut row: Vec<bool> = Vec::new();
            let mut j: usize = 0;
            while j < cols
                invariant
                    j <= cols,
                    row@ == Seq::new(j as nat, |q: int| false),
                decreases cols - j,
            {
                row.push(false);
                j = j + 1;
                assert(row@ =~= Seq::new(j as nat, |q: int| false));
            }
            cells.push(row);
            i = i + 1;
        }
        let r = Solution { cells };
        assert(r@ =~= all_false(rows as nat, cols as nat));
        r
    }

    /// Number of attendee rows.
    pub fn attendee_count(&self) -> (r: usize)
        ensures
            r == self@.len(),
    {
        self.cells.len()
    }

    /// Whether attendee `attendee` visits timeslot `slot`.
    pub fn is_assigned(&self, attendee: usize, slot: usize) -> (r: bool)
        requires
            attendee < self@.len(),
            slot < self@[attendee as int].len(),
        ensures
            r == self@[attendee as int][slot as int],
    {
        self.cells[attendee][slot]
    }

    /// The row of `attendee`: each timeslot index, in load order, with whether
    /// the attendee visits it.
    pub fn assignments_for(&self, attendee: usize) -> (r: Vec<(usize, bool)>)
        requires
            attendee < self@.len(),
        ensures
            r@.len() == self@[attendee as int].len(),
            forall|j: int|
                0 <= j < r@.len() ==> #[trigger] r@[j] == (j as usize, self@[attendee as int][j]),
    {
        let row = &self.cells[attendee];
        let mut r: Vec<(usize, bool)> = Vec::new();
        let mut j: usize = 0;
        while j < row.len()
            invariant
                j <= row.len(),
                row@ == self@[attendee as int],
                r@.len() == j,
                forall|k: int| 0 <= k < j ==> #[trigger] r@[k] == (k as usize, row@[k]),
            decreases row.len() - j,
        {
            r.push((j, row[j]));
            j = j + 1;
        }
        r
    }

    /// The first timeslot, in load order, that `attendee` visits, or `None`
    /// when the attendee visits none. An attendee with several timeslots is
    /// reported here by the first alone; `assigned_slots` gives them all.
    pub fn first_assigned(&self, attendee: usize) -> (r: Option<usize>)
        requires
            attendee < self@.len(),
        ensures
            match r {
                Some(j) => first_true_from(self@[attendee as int], 0) == Some(j as int),
                None => first_true_from(self@[attendee as int], 0) is None,
            },
    {
        let row = &self.cells[attendee];
        let ghost s = self@[attendee as int];
        let mut j: usize = 0;
        while j < row.len()
            invariant
                j <= row.len(),
                row@ == s,
                s == self@[attendee as int],
                first_true_from(s, 0) == first_true_from(s, j as int),
            decreases row.len() - j,
        {
            if row[j] {
                return Some(j);
            }
            j = j + 1;
        }
        None
    }

    /// Every timeslot that `attendee` visits, in load order.
    pub fn assigned_slots(&self, attendee: usize) -> (r: Vec<usize>)
        requires
            attendee < self@.len(),
        ensures
            forall|k: int|
                0 <= k < r@.len() ==> r@[k] < self@[attendee as int].len()
                    && self@[attendee as int][#[trigger] r@[k] as int],
            forall|j: int|
                0 <= j < self@[attendee as int].len() && self@[attendee as int][j] ==> exists|k: int|
                    0 <= k < r@.len() && #[trigger] r@[k] == j,
            forall|k1: int, k2: int| 0 <= k1 < k2 < r@.len() ==> r@[k1] < r@[k2],
    {
        let row = &self.cells[attendee];
        let ghost s = self@[attendee as int];
        let mut r: Vec<usize> = Vec::new();
        let mut j: usize = 0;
        while j < row.len()
            invariant
                j <= row.len(),
                row@ == s,
                forall|k: int| 0 <= k < r@.len() ==> r@[k] < j && s[#[trigger] r@[k] as int],
                forall|q: int| 0 <= q < j && s[q] ==> exists|k: int| 0 <= k < r@.len() && #[trigger] r@[k] == q,
                forall|k1: int, k2: int| 0 <= k1 < k2 < r@.len() ==> r@[k1] < r@[k2],
            decreases row.len() - j,
        {
            let ghost before = r@;
            if row[j] {
                r.push(j);
                assert(r@[r@.len() - 1] == j);
            }
            assert forall|q: int| 0 <= q < j + 1 && s[q] implies exists|k: int|
                0 <= k < r@.len() && #[trigger] r@[k] == q by {
                if q < j {
                    let k = choose|k: int| 0 <= k < before.len() && #[trigger] before[k] == q;
                    assert(r@[k] == q);
                } else {
                    assert(r@[r@.len() - 1] == q);
                }
            }
            j = j + 1;
        }
        r
    }
}

/// Attendees, timeslots (both in load order) and one boolean decision
/// variable per (attendee, timeslot) pair.
pub struct AssignmentTable {
    attendees: Vec<Attendee>,
    timeslots: Vec<Timeslot>,
    cells: Vec<Vec<Cell>>,
}

impl AssignmentTable {
    /// The attendees, in load order.
    pub closed spec fn attendee_list(&self) -> Seq<Attendee> {
        self.attendees@
    }

    /// The timeslots, in load order.
    pub closed spec fn timeslot_list(&self) -> Seq<Timeslot> {
        self.timeslots@
    }

    /// Number of decision variables in row `i`.
    pub closed spec fn row_width(&self, i: int) -> nat {
        self.cells@[i]@.len()
    }

    /// The `(row, column)` name of the decision variable at `(i, j)`.
    pub closed spec fn cell_id(&self, i: int, j: int) -> (usize, usize) {
        self.cells@[i]@[j].id()
    }

    /// Number of rows of decision variables.
    pub closed spec fn row_count(&self) -> nat {
        self.cells@.len()
    }

    /// One row per attendee, one variable per timeslot in each row, the
    /// variable at `(i, j)` named after `(i, j)` (so all are distinct), and
    /// both counts within `MAX_DIMENSION`.
    pub open spec fn wf(&self) -> bool {
        &&& self.attendee_list().len() <= MAX_DIMENSION
        &&& self.timeslot_list().len() <= MAX_DIMENSION
        &&& self.row_count() == self.attendee_list().len()
        &&& forall|i: int|
            0 <= i < self.row_count() ==> #[trigger] self.row_width(i)
                == self.timeslot_list().len()
        &&& forall|i: int, j: int|
            0 <= i < self.row_count() && 0 <= j < self.timeslot_list().len() ==> #[trigger] self.cell_id(
                i,
                j,
            ) == (i as usize, j as usize)
    }

    /// The capacities of the timeslots, in load order.
    pub open spec fn capacities(&self) -> Seq<Option<u64>> {
        capacities_of(self.timeslot_list())
    }

    /// Declares one fresh decision variable for every (attendee, timeslot)
    /// pair. Fails when either list is longer than `MAX_DIMENSION`.
    pub fn build(attendees: Vec<Attendee>, timeslots: Vec<Timeslot>) -> (r: Result<
        AssignmentTable,
        SetupError,
    >)
        ensures
            match r {
                Ok(t) => {
                    &&& t.wf()
                    &&& t.attendee_list() == attendees@
                    &&& t.timeslot_list() == timeslots@
                },
                Err(SetupError::TooManyAttendees) => attendees@.len() > MAX_DIMENSION,
                Err(SetupError::TooManyTimeslots) => attendees@.len() <= MAX_DIMENSION
                    && timeslots@.len() > MAX_DIMENSION,
            },
            r is Err <==> (attendees@.len() > MAX_DIMENSION || timeslots@.len() > MAX_DIMENSION),
    {
        if attendees.len() > MAX_DIMENSION {
            return Err(SetupError::TooManyAttendees);
        }
        if timeslots.len() > MAX_DIMENSION {
            return Err(SetupError::TooManyTimeslots);
        }
        let mut cells: Vec<Vec<Cell>> = Vec::new();
        let mut i: usize = 0;
        while i < attendees.len()
            invariant
                i <= attendees.len(),
                cells@.len() == i,
                forall|k: int| 0 <= k < i ==> (#[trigger] cells@[k])@.len() == timeslots@.len(),
                forall|k: int, q: int|
                    0 <= k < i && 0 <= q < timeslots@.len() ==> (#[trigger] cells@[k]@[q]).id() == (
                    k as usize,
                    q as usize,
                ),
            decreases attendees.len() - i,
        {
            let mut row: Vec<Cell> = Vec::new();
            let mut j: usize = 0;
            while j < timeslots.len()
                invariant
                    j <= timeslots.len(),
                    row@.len() == j,
                    forall|q: int| 0 <= q < j ==> (#[trigger] row@[q]).id() == (i, q as usize),
                decreases timeslots.len() - j,
            {
                row.push(declare_cell(i, j));
                j = j + 1;
            }
            cells.push(row);
            i = i + 1;
        }
        let t = AssignmentTable { attendees, timeslots, cells };
        assert forall|i: int, j: int|
            0 <= i < t.row_count() && 0 <= j < t.timeslot_list().len() implies #[trigger] t.cell_id(
                i,
                j,
            ) == (i as usize, j as usize) by {
            assert(t.cells@[i]@[j] == cells@[i]@[j]);
        }
        Ok(t)
    }

    /// Number of decision variables: one per (attendee, timeslot) pair.
    pub fn variable_count(&self) -> (r: u64)
        requires
            self.wf(),
        ensures
            r == self.attendee_list().len() * self.timeslot_list().len(),
    {
        let ghost width = self.timeslot_list().len();
        let rows = self.cells.len();
        let mut total: u64 = 0;
        let mut i: usize = 0;
        while i < rows
            invariant
                self.wf(),
                rows == self.attendee_list().len(),
                width == self.timeslot_list().len(),
                i <= rows,
                total == i * width,
            decreases rows - i,
        {
            assert(self.row_width(i as int) == width);
            assert((i + 1) * width <= rows * width) by (nonlinear_arith)
                requires
                    i + 1 <= rows,
            ;
            assert(rows * width <= 0x7fff_fffe * 0x7fff_fffe) by (nonlinear_arith)
                requires
                    rows <= 0x7fff_fffe,
                    width <= 0x7fff_fffe,
            ;
            assert((i + 1) * width == i * width + width) by (nonlinear_arith);
            total = total + self.cells[i].len() as u64;
            i = i + 1;
        }
        total
    }

    /// The row of `attendee`: each timeslot index, in load order, with the
    /// decision variable for that pair.
    pub fn assignments_for(&self, attendee: usize) -> (r: Vec<(usize, Cell)>)
        requires
            self.wf(),
            attendee < self.attendee_list().len(),
        ensures
            r@.len() == self.timeslot_list().len(),
            forall|j: int|
                0 <= j < r@.len() ==> (#[trigger] r@[j]).0 == j && r@[j].1.id() == (attendee, j as usize),
    {
        assert(self.row_width(attendee as int) == self.timeslot_list().len());
        let row = &self.cells[attendee];
        let mut r: Vec<(usize, Cell)> = Vec::new();
        let mut j: usize = 0;
        while j < row.len()
            invariant
                self.wf(),
                attendee < self.attendee_list().len(),
                row@ == self.cells@[attendee as int]@,
                row@.len() == self.timeslot_list().len(),
                j <= row.len(),
                r@.len() == j,
                forall|k: int|
                    0 <= k < j ==> (#[trigger] r@[k]).0 == k && r@[k].1.id() == (attendee, k as usize),
            decreases row.len() - j,
        {
            assert(self.cell_id(attendee as int, j as int) == (attendee, j));
            r.push((j, row[j].copy_handle()));
            j = j + 1;
        }
        r
    }

    /// Asserts, for every attendee, that exactly `visits` of the attendee's
    /// variables are true. A `visits` above the number of timeslots is not
    /// refused: it makes the constraints unsatisfiable (the solver is then
    /// given the bound one past the row length, which says the same).
    pub fn eq_visits(&self, handle: &mut SolverHandle, visits: u64)
        requires
            self.wf(),
        ensures
            final(handle).asserted() == old(handle).asserted() + visit_constraints(
                self.attendee_list().len(),
                visits,
            ),
            final(handle).sent() == old(handle).sent() + visit_formulas(
                self.attendee_list().len(),
                self.timeslot_list().len(),
                visits,
            ),
    {
        let width = self.timeslots.len();
        let bound: i32 = if visits > width as u64 {
            (width + 1) as i32
        } else {
            visits as i32
        };
        let ghost rows = self.attendee_list().len();
        let ghost start = handle.asserted();
        let ghost start_sent = handle.sent();
        let mut i: usize = 0;
        while i < self.cells.len()
            invariant
                self.wf(),
                rows == self.attendee_list().len(),
                width == self.timeslot_list().len(),
                bound == clamp(visits as int, width + 1 as int),
                i <= rows,
                handle.asserted() == start + visit_constraints(i as nat, visits),
                handle.sent() == start_sent + visit_formulas(i as nat, width as nat, visits),
            decreases rows - i,
        {
            assert(self.row_width(i as int) == width);
            let formula = exactly_formula(&self.cells[i], bound);
            assert(ids_of(self.cells@[i as int]@) =~= row_ids(i as int, width as nat)) by {
                assert forall|j: int| 0 <= j < width implies ids_of(self.cells@[i as int]@)[j] == row_ids(
                    i as int,
                    width as nat,
                )[j] by {
                    assert(self.cell_id(i as int, j) == (i, j as usize));
                }
            }
            let c = Constraint::RowExactly { row: i, count: visits };
            handle.post(c, &formula);
            assert(visit_constraints((i + 1) as nat, visits) =~= visit_constraints(i as nat, visits).push(c));
            assert(start + visit_constraints((i + 1) as nat, visits) =~= start + visit_constraints(i as nat, visits).push(c));
            assert(visit_formulas((i + 1) as nat, width as nat, visits) =~= visit_formulas(
                i as nat,
                width as nat,
                visits,
            ).push(formula.desc()));
            assert(start_sent + visit_formulas((i + 1) as nat, width as nat, visits) =~= start_sent
                + visit_formulas(i as nat, width as nat, visits).push(formula.desc()));
            i = i + 1;
        }
    }

    /// Asserts, for every timeslot with a capacity, that at most that many of
    /// its variables are true (the solver is given the capacity capped at the
    /// column length, which says the same). A timeslot without a capacity is
    /// unbounded and gets no constraint.
    pub fn max_attendees(&self, handle: &mut SolverHandle)
        requires
            self.wf(),
        ensures
            final(handle).asserted() == old(handle).asserted() + capacity_constraints(
                self.capacities(),
            ),
            final(handle).sent() == old(handle).sent() + capacity_formulas(
                self.capacities(),
                self.attendee_list().len(),
            ),
    {
        let rows = self.cells.len();
        let ghost caps = self.capacities();
        let ghost start = handle.asserted();
        let ghost start_sent = handle.sent();
        assert(caps.subrange(0, 0) =~= Seq::<Option<u64>>::empty());
        assert(start + capacity_constraints(caps.subrange(0, 0)) =~= start);
        assert(start_sent + capacity_formulas(caps.subrange(0, 0), rows as nat) =~= start_sent);
        let mut j: usize = 0;
        while j < self.timeslots.len()
            invariant
                self.wf(),
                rows == self.attendee_list().len(),
                caps == self.capacities(),
                j <= caps.len(),
                handle.asserted() == start + capacity_constraints(caps.subrange(0, j as int)),
                handle.sent() == start_sent + capacity_formulas(
                    caps.subrange(0, j as int),
                    rows as nat,
                ),
            decreases caps.len() - j,
        {
            let ghost before = handle.asserted();
            let ghost before_sent = handle.sent();
            let ghost next = caps.subrange(0, j + 1);
            assert(next.drop_last() =~= caps.subrange(0, j as int));
            match self.timeslots[j].capacity {
                Some(cap) => {
                    let mut col: Vec<Cell> = Vec::new();
                    let mut i: usize = 0;
                    while i < rows
                        invariant
                            self.wf(),
                            rows == self.attendee_list().len(),
                            j < self.timeslot_list().len(),
                            i <= rows,
                            col@.len() == i,
                            forall|k: int| 0 <= k < i ==> (#[trigger] col@[k]).id() == (k as usize, j),
                        decreases rows - i,
                    {
                        assert(self.row_width(i as int) == self.timeslot_list().len());
                        assert(self.cell_id(i as int, j as int) == (i, j));
                        col.push(self.cells[i][j].copy_handle());
                        i = i + 1;
                    }
                    let bound: i32 = if cap >= rows as u64 {
                        rows as i32
                    } else {
                        cap as i32
                    };
                    let formula = at_most_formula(&col, bound);
                    assert(ids_of(col@) =~= column_ids(j as int, rows as nat));
                    let c = Constraint::ColumnAtMost { column: j, count: cap };
                    handle.post(c, &formula);
                    assert(capacity_constraints(next) == capacity_constraints(next.drop_last()).push(c));
                    assert(start + capacity_constraints(next) =~= before.push(c));
                    assert(capacity_formulas(next, rows as nat) == capacity_formulas(
                        next.drop_last(),
                        rows as nat,
                    ).push(formula.desc()));
                    assert(start_sent + capacity_formulas(next, rows as nat) =~= before_sent.push(
                        formula.desc(),
                    ));
                },
                None => {
                    assert(capacity_constraints(next) == capacity_constraints(next.drop_last()));
                    assert(capacity_formulas(next, rows as nat) == capacity_formulas(
                        next.drop_last(),
                        rows as nat,
                    ));
                },
            }
            j = j + 1;
        }
        assert(caps.subrange(0, caps.len() as int) =~= caps);
    }

    /// Reads the value of every decision variable in `m`; `None` when the
    /// model cannot give one of them.
    fn read_model(&self, m: &z3::Model) -> (r: Option<Vec<Vec<bool>>>)
        requires
            self.wf(),
        ensures
            match r {
                Some(cells) => is_matrix(
                    rows_view(cells@),
                    self.attendee_list().len(),
                    self.timeslot_list().len(),
                ),
                None => true,
            },
    {
        let width = self.timeslots.len();
        let mut cells: Vec<Vec<bool>> = Vec::new();
        let mut i: usize = 0;
        while i < self.cells.len()
            invariant
                self.wf(),
                width == self.timeslot_list().len(),
                i <= self.attendee_list().len(),
                cells@.len() == i,
                forall|k: int| 0 <= k < i ==> (#[trigger] cells@[k])@.len() == width,
            decreases self.attendee_list().len() - i,
        {
            assert(self.row_width(i as int) == width);
            let src = &self.cells[i];
            let mut row: Vec<bool> = Vec::new();
            let mut j: usize = 0;
            while j < src.len()
                invariant
                    j <= src.len(),
                    row@.len() == j,
                decreases src.len() - j,
            {
                match eval_in(m, &src[j]) {
                    Some(value) => match value.as_bool() {
                        Some(b) => row.push(b),
                        None => return None,
                    },
                    None => return None,
                }
                j = j + 1;
            }
            cells.push(row);
            i = i + 1;
        }
        Some(cells)
    }

    /// Runs the satisfiability check on everything asserted to `handle`. A
    /// model that the solver returns is handed out only when it meets every
    /// asserted constraint.
    pub fn solve(&self, handle: &SolverHandle) -> (r: Outcome)
        requires
            self.wf(),
        ensures
            match r {
                Outcome::Satisfiable(s) => {
                    &&& is_matrix(s@, self.attendee_list().len(), self.timeslot_list().len())
                    &&& holds_all(handle.asserted(), s@)
                },
                _ => true,
            },
    {
        let (verdict, model) = handle.check();
        let cells = match model {
            Some(m) => self.read_model(&m),
            None => None,
        };
        decide(verdict, cells, handle.asserted_constraints())
    }

    /// The attendees, in load order.
    pub fn attendees(&self) -> (r: &Vec<Attendee>)
        ensures
            r@ == self.attendee_list(),
    {
        &self.attendees
    }

    /// The timeslots, in load order.
    pub fn timeslots(&self) -> (r: &Vec<Timeslot>)
        ensures
            r@ == self.timeslot_list(),
    {
        &self.timeslots
    }
}

/// The outcome of a check that reported `verdict`, where `cells` is the
/// model read back from the solver, if any. A model is handed out only with
/// `Sat`, and only when it meets every constraint of `asserted`.
pub fn decide(verdict: Verdict, cells: Option<Vec<Vec<bool>>>, asserted: &Vec<Constraint>) -> (r:
    Outcome)
    ensures
        verdict == Verdict::Unsat ==> r is Unsatisfiable,
        verdict == Verdict::Unknown ==> r is Unknown,
        verdict == Verdict::Sat ==> match cells {
            None => r is Unknown,
            Some(c) => if holds_all(asserted@, rows_view(c@)) {
                r is Satisfiable && r->Satisfiable_0@ == rows_view(c@)
            } else {
                r is Unknown
            },
        },
{
    match verdict {
        Verdict::Unsat => Outcome::Unsatisfiable,
        Verdict::Unknown => Outcome::Unknown,
        Verdict::Sat => match cells {
            None => Outcome::Unknown,
            Some(c) => {
                if satisfies_all(&c, asserted) {
                    Outcome::Satisfiable(Solution { cells: c })
                } else {
                    Outcome::Unknown
                }
            },
        },
    }
}

/// A table over `attendees` and `timeslots`, the handle of a fresh solver
/// with both rule sets asserted to it, and the outcome. Every attendee of a
/// returned solution visits exactly `visits` timeslots and no timeslot is
/// over its capacity. Two cases are settled without a search: with no
/// attendees or zero visits the all-false assignment is returned, and when
/// attendees must visit more timeslots than exist the outcome is
/// `Unsatisfiable`.
pub fn schedule(attendees: Vec<Attendee>, timeslots: Vec<Timeslot>, visits: u64) -> (r: Result<
    (AssignmentTable, SolverHandle, Outcome),
    SetupError,
>)
    ensures
        match r {
            Ok((t, h, o)) => {
                &&& t.wf()
                &&& t.attendee_list() == attendees@
                &&& t.timeslot_list() == timeslots@
                &&& h.asserted() == visit_constraints(attendees@.len(), visits)
                    + capacity_constraints(capacities_of(timeslots@))
                &&& h.sent() == visit_formulas(attendees@.len(), timeslots@.len(), visits)
                    + capacity_formulas(capacities_of(timeslots@), attendees@.len())
                &&& match o {
                    Outcome::Satisfiable(s) => {
                        &&& is_matrix(s@, attendees@.len(), timeslots@.len())
                        &&& visits_met(s@, visits)
                        &&& capacities_met(s@, capacities_of(timeslots@))
                    },
                    _ => true,
                }
                &&& (visits == 0 || attendees@.len() == 0) ==> o is Satisfiable
                    && o->Satisfiable_0@ == all_false(attendees@.len(), timeslots@.len())
                &&& (attendees@.len() > 0 && visits > timeslots@.len()) ==> o is Unsatisfiable
                    && forall|m: Seq<Seq<bool>>|
                    #[trigger] is_matrix(m, attendees@.len(), timeslots@.len()) ==> !visits_met(
                        m,
                        visits,
                    )
            },
            Err(SetupError::TooManyAttendees) => attendees@.len() > MAX_DIMENSION,
            Err(SetupError::TooManyTimeslots) => attendees@.len() <= MAX_DIMENSION
                && timeslots@.len() > MAX_DIMENSION,
        },
        r is Err <==> (attendees@.len() > MAX_DIMENSION || timeslots@.len() > MAX_DIMENSION),
{
    let ghost a = attendees@.len();
    let ghost t = timeslots@.len();
    let table = match AssignmentTable::build(attendees, timeslots) {
        Ok(table) => table,
        Err(e) => return Err(e),
    };
    let mut handle = SolverHandle::new();
    table.eq_visits(&mut handle, visits);
    table.max_attendees(&mut handle);
    assert(handle.sent() =~= visit_formulas(a, t, visits) + capacity_formulas(table.capacities(), a));
    let rows = table.attendees().len();
    let cols = table.timeslots().len();
    let outcome = if visits == 0 || rows == 0 {
        Outcome::Satisfiable(Solution::unassigned(rows, cols))
    } else if visits > cols as u64 {
        proof {
            assert forall|m: Seq<Seq<bool>>| #[trigger] is_matrix(m, a, t) implies !visits_met(
                m,
                visits,
            ) by {
                lemma_too_many_visits(m, a, t, visits);
                lemma_visit_constraints_meaning(m, visits);
            }
        }
        Outcome::Unsatisfiable
    } else {
        table.solve(&handle)
    };
    proof {
        let vs = visit_constraints(a, visits);
        let caps = table.capacities();
        let cs = capacity_constraints(caps);
        assert(handle.asserted() =~= vs + cs);
        if outcome is Satisfiable {
            let m = outcome->Satisfiable_0@;
            if visits == 0 || a == 0 {
                assert forall|i: int| 0 <= i < m.len() implies count_true(#[trigger] m[i])
                    == visits by {
                    lemma_count_true_none(m[i]);
                }
                assert forall|j: int| 0 <= j < caps.len() && (#[trigger] caps[j]) is Some implies count_true(
                    column(m, j),
                ) <= caps[j].unwrap() by {
                    lemma_count_true_none(column(m, j));
                }
            } else {
                assert(holds_all(vs, m)) by {
                    assert forall|k: int| 0 <= k < vs.len() implies #[trigger] crate::constraint::holds(
                        vs[k],
                        m,
                    ) by {
                        assert(handle.asserted()[k] == vs[k]);
                    }
                }
                assert(holds_all(cs, m)) by {
                    assert forall|k: int| 0 <= k < cs.len() implies #[trigger] crate::constraint::holds(
                        cs[k],
                        m,
                    ) by {
                        assert(handle.asserted()[vs.len() + k] == cs[k]);
                    }
                }
                lemma_visit_constraints_meaning(m, visits);
                lemma_capacity_constraints_meaning(m, caps);
            }
        }
    }
    Ok((table, handle, outcome))
}

} // verus!
