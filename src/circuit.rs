//! The circuit: its fixed shape (rows and constraints), the witness that a
//! pair of bit vectors gives it, and a check of a witness against every
//! constraint without the proving backend.
//!
//! Cells hold `u64` values. The backend's scalar field has a modulus above
//! 2^254, so each constraint, whose two sides stay below 2^131 in absolute
//! value, holds in the field exactly when it holds over the integers.
use vstd::prelude::*;
use crate::distance::{
    check_pair, diff_count, first_non_bit, hamming, is_bits, lemma_diff_count_bounds,
    lemma_xor_sum_counts, running_sums, xor_bit, xor_sum, InputError, Operand,
};

verus! {

/// Rows that carry data: one per bit of the vectors.
pub const ROWS: usize = 32;

/// One row of the execution trace: the two private bits and the running XOR-sum.
#[derive(Clone, Copy, Debug, PartialEq, Eq, Structural)]
pub struct Row {
    pub a: u64,
    pub b: u64,
    pub sum: u64,
}

/// The constraints of the circuit, in the order they are checked within a row.
#[derive(Clone, Copy, Debug, PartialEq, Eq, Structural)]
pub enum Constraint {
    /// `a * (a - 1) = 0` on every row.
    BitA,
    /// `b * (b - 1) = 0` on every row.
    BitB,
    /// `sum = a + b - 2ab` on the first row (the sum before it is 0).
    StartSum,
    /// `sum = sum_prev + a + b - 2ab` on every later row.
    Accumulate,
    /// `sum = public distance` on the last row.
    Bind,
}

/// Position of a constraint in the order of checking.
pub open spec fn constraint_order(c: Constraint) -> int {
    match c {
        Constraint::BitA => 0,
        Constraint::BitB => 1,
        Constraint::StartSum => 2,
        Constraint::Accumulate => 3,
        Constraint::Bind => 4,
    }
}

/// Whether constraint `c` is enabled on `row`.
pub open spec fn applies(c: Constraint, row: int) -> bool {
    0 <= row < ROWS && match c {
        Constraint::BitA => true,
        Constraint::BitB => true,
        Constraint::StartSum => row == 0,
        Constraint::Accumulate => row > 0,
        Constraint::Bind => row == ROWS - 1,
    }
}

/// The polynomial identity of `c` on `row` of trace `w`, with public input `public`.
pub open spec fn holds(c: Constraint, w: Seq<Row>, row: int, public: int) -> bool {
    match c {
        Constraint::BitA => w[row].a * (w[row].a - 1) == 0,
        Constraint::BitB => w[row].b * (w[row].b - 1) == 0,
        Constraint::StartSum => w[row].sum == xor_bit(w[row].a as int, w[row].b as int),
        Constraint::Accumulate => w[row].sum == w[row - 1].sum + xor_bit(
            w[row].a as int,
            w[row].b as int,
        ),
        Constraint::Bind => w[row].sum == public,
    }
}

/// Constraint `c` is enabled on `row` and does not hold there.
pub open spec fn violated(c: Constraint, w: Seq<Row>, row: int, public: int) -> bool {
    applies(c, row) && !holds(c, w, row, public)
}

/// The trace has the circuit's rows and meets every enabled constraint.
pub open spec fn satisfied(w: Seq<Row>, public: int) -> bool {
    &&& w.len() == ROWS
    &&& forall|c: Constraint, row: int| #[trigger] violated(c, w, row, public) ==> false
}

/// `(row, c)` is the first violation, rows first, then constraints in their order.
pub open spec fn first_violation(w: Seq<Row>, public: int, row: int, c: Constraint) -> bool {
    &&& violated(c, w, row, public)
    &&& forall|r2: int, c2: Constraint|
        (r2 < row || (r2 == row && constraint_order(c2) < constraint_order(c))) ==> !#[trigger] violated(
            c2,
            w,
            r2,
            public,
        )
}

/// The trace that vectors `a` and `b` give the circuit.
pub open spec fn trace_of(a: Seq<u64>, b: Seq<u64>) -> Seq<Row> {
    Seq::new(
        a.len(),
        |i: int| Row { a: a[i], b: b[i], sum: diff_count(a, b, i + 1) as u64 },
    )
}

/// The private execution trace of one proof: one row per bit.
pub struct Witness {
    rows: Vec<Row>,
}

impl View for Witness {
    type V = Seq<Row>;

    closed spec fn view(&self) -> Seq<Row> {
        self.rows@
    }
}

impl Witness {
    /// A witness with the given rows, as they are.
    pub fn from_rows(rows: Vec<Row>) -> (w: Witness)
        ensures
            w@ == rows@,
    {
        Witness { rows }
    }

    /// Number of rows.
    pub fn len(&self) -> (n: usize)
        ensures
            n == self@.len(),
    {
        self.rows.len()
    }

    /// Row `i`.
    pub fn row(&self, i: usize) -> (r: Row)
        requires
            i < self@.len(),
        ensures
            r == self@[i as int],
    {
        self.rows[i]
    }
}

/// Builds the witness of `a` and `b`. Fails, before any row is filled, when the
/// lengths differ, when they are not the circuit's width, or on an element
/// that is neither 0 nor 1.
pub fn build_witness(a: &Vec<u64>, b: &Vec<u64>) -> (r: Result<Witness, InputError>)
    ensures
        r is Ok <==> (a.len() == ROWS && b.len() == ROWS && is_bits(a@) && is_bits(b@)),
        r matches Ok(w) ==> w@ == trace_of(a@, b@),
        r matches Err(InputError::LengthMismatch { left, right }) <==> a.len() != b.len(),
        r matches Err(InputError::LengthMismatch { left, right }) ==> left == a.len() && right
            == b.len(),
        r matches Err(InputError::WrongLength { found }) <==> (a.len() == b.len() && a.len()
            != ROWS),
        r matches Err(InputError::WrongLength { found }) ==> found == a.len(),
        r matches Err(InputError::NotBinary { operand, position, value }) ==> {
            &&& operand == Operand::A ==> first_non_bit(a@, position as int) && value
                == a@[position as int]
            &&& operand == Operand::B ==> is_bits(a@) && first_non_bit(b@, position as int)
                && value == b@[position as int]
        },
{
    if a.len() != b.len() {
        return Err(InputError::LengthMismatch { left: a.len(), right: b.len() });
    }
    if a.len() != ROWS {
        return Err(InputError::WrongLength { found: a.len() });
    }
    match check_pair(a, b) {
        Err(e) => {
            return Err(e);
        },
        Ok(()) => {},
    }
    let sums = running_sums(a, b);
    let mut rows: Vec<Row> = Vec::new();
    let mut i: usize = 0;
    while i < ROWS
        invariant
            a.len() == ROWS,
            b.len() == ROWS,
            sums.len() == ROWS,
            forall|j: int| 0 <= j < ROWS ==> #[trigger] sums[j] == diff_count(a@, b@, j + 1),
            i <= ROWS,
            rows@ =~= trace_of(a@, b@).take(i as int),
        decreases ROWS - i,
    {
        rows.push(Row { a: a[i], b: b[i], sum: sums[i] });
        i = i + 1;
    }
    proof {
        assert(rows@ =~= trace_of(a@, b@));
    }
    Ok(Witness { rows })
}

/// `x * (x - 1) = 0`, decided without overflow.
fn is_bit_value(x: u64) -> (r: bool)
    ensures
        r == (x * (x - 1) == 0),
{
    proof {
        lemma_bit_cases(x);
    }
    x <= 1
}

/// `cur = prev + a + b - 2ab`, decided without overflow.
fn xor_step_holds(prev: u64, a: u64, b: u64, cur: u64) -> (r: bool)
    ensures
        r == (cur == prev + xor_bit(a as int, b as int)),
{
    proof {
        assert(a * b <= 0xffff_ffff_ffff_ffffu64 * 0xffff_ffff_ffff_ffffu64) by (nonlinear_arith)
            requires
                a <= 0xffff_ffff_ffff_ffffu64,
                b <= 0xffff_ffff_ffff_ffffu64,
        ;
        assert(xor_bit(a as int, b as int) == a + b - 2 * (a * b)) by (nonlinear_arith);
    }
    let ab: u128 = (a as u128) * (b as u128);
    let rhs: u128 = prev as u128 + a as u128 + b as u128;
    if ab > rhs {
        false
    } else {
        let lhs: u128 = cur as u128 + 2 * ab;
        lhs == rhs
    }
}

/// Whether `c` holds on `row` of `w`, or is not enabled there.
pub fn constraint_holds(c: Constraint, w: &Witness, row: usize, public: u64) -> (r: bool)
    requires
        w@.len() == ROWS,
        row < ROWS,
    ensures
        r == !violated(c, w@, row as int, public as int),
{
    let cur = w.rows[row];
    match c {
        Constraint::BitA => is_bit_value(cur.a),
        Constraint::BitB => is_bit_value(cur.b),
        Constraint::StartSum => row != 0 || xor_step_holds(0, cur.a, cur.b, cur.sum),
        Constraint::Accumulate => row == 0 || xor_step_holds(
            w.rows[row - 1].sum,
            cur.a,
            cur.b,
            cur.sum,
        ),
        Constraint::Bind => row != ROWS - 1 || cur.sum == public,
    }
}

/// A constraint that a witness fails, with its place.
#[derive(Clone, Copy, Debug, PartialEq, Eq, Structural)]
pub enum Violation {
    /// The witness does not have the circuit's number of rows.
    RowCount { found: usize },
    /// `constraint` does not hold on `row`.
    Unsatisfied { row: usize, constraint: Constraint },
}

/// Checks every constraint of the circuit on `w` with public distance `public`,
/// without the proving backend, and reports the first one that fails.
pub fn check_witness(w: &Witness, public: u64) -> (r: Result<(), Violation>)
    ensures
        r matches Err(Violation::RowCount { found }) <==> w@.len() != ROWS,
        r matches Err(Violation::RowCount { found }) ==> found == w@.len(),
        r is Ok <==> satisfied(w@, public as int),
        r matches Err(Violation::Unsatisfied { row, constraint }) ==> first_violation(
            w@,
            public as int,
            row as int,
            constraint,
        ),
{
    if w.rows.len() != ROWS {
        return Err(Violation::RowCount { found: w.rows.len() });
    }
    let order: [Constraint; 5] = [
        Constraint::BitA,
        Constraint::BitB,
        Constraint::StartSum,
        Constraint::Accumulate,
        Constraint::Bind,
    ];
    let mut row: usize = 0;
    while row < ROWS
        invariant
            w@.len() == ROWS,
            row <= ROWS,
            order@ == seq![Constraint::BitA, Constraint::BitB, Constraint::StartSum, Constraint::Accumulate, Constraint::Bind],
            forall|r2: int, c2: Constraint| r2 < row ==> !#[trigger] violated(c2, w@, r2, public as int),
        decreases ROWS - row,
    {
        let mut k: usize = 0;
        while k < 5
            invariant
                w@.len() == ROWS,
                row < ROWS,
                k <= 5,
                order@ == seq![Constraint::BitA, Constraint::BitB, Constraint::StartSum, Constraint::Accumulate, Constraint::Bind],
                forall|r2: int, c2: Constraint| r2 < row ==> !#[trigger] violated(c2, w@, r2, public as int),
                forall|c2: Constraint| constraint_order(c2) < k ==> !#[trigger] violated(c2, w@, row as int, public as int),
            decreases 5 - k,
        {
            let c = order[k];
            assert(constraint_order(c) == k);
            if !constraint_holds(c, w, row, public) {
                return Err(Violation::Unsatisfied { row, constraint: c });
            }
            k = k + 1;
        }
        assert forall|r2: int, c2: Constraint| r2 < row + 1 implies !#[trigger] violated(c2, w@, r2, public as int) by {
            if r2 == row {
                assert(constraint_order(c2) < 5);
            }
        }
        row = row + 1;
    }
    Ok(())
}

/// The `a` cells of a trace, top to bottom.
pub open spec fn column_a(w: Seq<Row>) -> Seq<u64> {
    w.map_values(|r: Row| r.a)
}

/// The `b` cells of a trace, top to bottom.
pub open spec fn column_b(w: Seq<Row>) -> Seq<u64> {
    w.map_values(|r: Row| r.b)
}

proof fn lemma_bit_cases(x: u64)
    ensures
        (x * (x - 1) == 0) <==> x <= 1,
{
    if x > 1 {
        assert(x * (x - 1) > 0) by (nonlinear_arith)
            requires
                x > 1,
        ;
    } else if x == 1 {
        assert(x * (x - 1) == 0);
    } else {
        assert(x * (x - 1) == 0);
    }
}

/// The witness built from two valid vectors meets every constraint with public
/// distance `d` exactly when `d` is their Hamming distance: the true distance
/// is accepted, and any other claim is refused.
pub proof fn lemma_witness_meets_constraints(a: Seq<u64>, b: Seq<u64>, d: int)
    requires
        a.len() == ROWS,
        b.len() == ROWS,
        is_bits(a),
        is_bits(b),
    ensures
        satisfied(trace_of(a, b), d) <==> d == hamming(a, b),
{
    let w = trace_of(a, b);
    assert forall|i: int| 0 <= i <= ROWS implies 0 <= #[trigger] diff_count(a, b, i) <= i by {
        lemma_diff_count_bounds(a, b, i);
    }
    assert forall|i: int| 0 <= i <= ROWS implies #[trigger] xor_sum(a, b, i) == diff_count(a, b, i) by {
        lemma_xor_sum_counts(a, b, i);
    }
    if d == hamming(a, b) {
        assert forall|c: Constraint, row: int| #[trigger] violated(c, w, row, d) implies false by {
            lemma_bit_cases(a[row]);
            lemma_bit_cases(b[row]);
            lemma_diff_count_bounds(a, b, row + 1);
            lemma_diff_count_bounds(a, b, row);
            lemma_xor_sum_counts(a, b, row + 1);
            lemma_xor_sum_counts(a, b, row);
            assert(w[row].sum == diff_count(a, b, row + 1));
            assert(xor_sum(a, b, row + 1) == xor_sum(a, b, row) + xor_bit(
                a[row] as int,
                b[row] as int,
            ));
            if row > 0 {
                assert(w[row - 1].sum == diff_count(a, b, row));
            }
            match c {
                Constraint::BitA => {},
                Constraint::BitB => {},
                Constraint::StartSum => {
                    assert(xor_sum(a, b, 0) == 0);
                },
                Constraint::Accumulate => {},
                Constraint::Bind => {},
            }
        }
    }
    if satisfied(w, d) {
        assert(!violated(Constraint::Bind, w, ROWS - 1, d));
    }
}

/// Soundness of the constraints: every trace that meets them all carries only
/// bits in its two input columns, and its public distance is their Hamming distance.
pub proof fn lemma_constraints_force_distance(w: Seq<Row>, d: int)
    requires
        satisfied(w, d),
    ensures
        is_bits(column_a(w)),
        is_bits(column_b(w)),
        d == hamming(column_a(w), column_b(w)),
{
    let ca = column_a(w);
    let cb = column_b(w);
    assert forall|i: int| 0 <= i < ca.len() implies #[trigger] ca[i] <= 1 by {
        assert(!violated(Constraint::BitA, w, i, d));
        lemma_bit_cases(w[i].a);
    }
    assert forall|i: int| 0 <= i < cb.len() implies #[trigger] cb[i] <= 1 by {
        assert(!violated(Constraint::BitB, w, i, d));
        lemma_bit_cases(w[i].b);
    }
    lemma_sums_follow(w, d, ROWS as int);
    lemma_xor_sum_counts(ca, cb, ROWS as int);
    assert(!violated(Constraint::Bind, w, ROWS - 1, d));
}

proof fn lemma_sums_follow(w: Seq<Row>, d: int, n: int)
    requires
        satisfied(w, d),
        1 <= n <= ROWS,
    ensures
        w[n - 1].sum == xor_sum(column_a(w), column_b(w), n),
    decreases n,
{
    assert(column_a(w)[n - 1] == w[n - 1].a);
    assert(column_b(w)[n - 1] == w[n - 1].b);
    assert(xor_sum(column_a(w), column_b(w), n - 1) + xor_bit(w[n - 1].a as int, w[n - 1].b as int)
        == xor_sum(column_a(w), column_b(w), n));
    if n == 1 {
        assert(xor_sum(column_a(w), column_b(w), 0) == 0);
        assert(!violated(Constraint::StartSum, w, 0, d));
    } else {
        lemma_sums_follow(w, d, n - 1);
        assert(!violated(Constraint::Accumulate, w, n - 1, d));
    }
}

} // verus!
