//! The Hamming distance of two bit vectors, computed by the field identity
//! `x XOR y = x + y - 2xy` that the circuit enforces row by row.
use vstd::prelude::*;

verus! {

/// Every element is 0 or 1.
pub open spec fn is_bits(s: Seq<u64>) -> bool {
    forall|i: int| 0 <= i < s.len() ==> #[trigger] s[i] <= 1
}

/// `pos` is the first position of `s` that holds neither 0 nor 1.
pub open spec fn first_non_bit(s: Seq<u64>, pos: int) -> bool {
    &&& 0 <= pos < s.len()
    &&& s[pos] > 1
    &&& forall|j: int| 0 <= j < pos ==> #[trigger] s[j] <= 1
}

/// XOR of two bits written as a polynomial over the field.
pub open spec fn xor_bit(x: int, y: int) -> int {
    x + y - 2 * x * y
}

/// Sum of `xor_bit` over the first `n` positions.
pub open spec fn xor_sum(a: Seq<u64>, b: Seq<u64>, n: int) -> int
    decreases n,
{
    if n <= 0 {
        0
    } else {
        xor_sum(a, b, n - 1) + xor_bit(a[n - 1] as int, b[n - 1] as int)
    }
}

/// Number of positions among the first `n` where `a` and `b` differ.
pub open spec fn diff_count(a: Seq<u64>, b: Seq<u64>, n: int) -> int
    decreases n,
{
    if n <= 0 {
        0
    } else {
        diff_count(a, b, n - 1) + (if a[n - 1] != b[n - 1] {
            1int
        } else {
            0int
        })
    }
}

/// The Hamming distance: the number of positions where `a` and `b` differ.
pub open spec fn hamming(a: Seq<u64>, b: Seq<u64>) -> int {
    diff_count(a, b, a.len() as int)
}

/// Which of the two input vectors an error is about.
#[derive(Clone, Copy, Debug, PartialEq, Eq, Structural)]
pub enum Operand {
    A,
    B,
}

/// Why a pair of vectors was refused before any circuit work.
#[derive(Clone, Copy, Debug, PartialEq, Eq, Structural)]
pub enum InputError {
    /// The two vectors have different lengths.
    LengthMismatch { left: usize, right: usize },
    /// The vectors have equal lengths, but not the circuit's width.
    WrongLength { found: usize },
    /// An element is neither 0 nor 1.
    NotBinary { operand: Operand, position: usize, value: u64 },
}

/// What `check_pair` reports: lengths first, then the first non-binary
/// element of `a`, then that of `b`.
pub open spec fn pair_check_ok(a: Seq<u64>, b: Seq<u64>, r: Result<(), InputError>) -> bool {
    &&& (r is Ok <==> (a.len() == b.len() && is_bits(a) && is_bits(b)))
    &&& (r matches Err(InputError::LengthMismatch { left, right }) <==> a.len() != b.len())
    &&& (r matches Err(InputError::LengthMismatch { left, right }) ==> left == a.len()
        && right == b.len())
    &&& !(r matches Err(InputError::WrongLength { .. }))
    &&& (r matches Err(InputError::NotBinary { operand, position, value }) ==> {
        &&& a.len() == b.len()
        &&& operand == Operand::A ==> first_non_bit(a, position as int) && value
            == a[position as int]
        &&& operand == Operand::B ==> is_bits(a) && first_non_bit(b, position as int) && value
            == b[position as int]
    })
}

/// Forgets the value of a successful result.
pub open spec fn status<T>(r: Result<T, InputError>) -> Result<(), InputError> {
    match r {
        Ok(_) => Ok(()),
        Err(e) => Err(e),
    }
}

/// The first position of `v` that holds neither 0 nor 1, if any.
pub fn find_non_binary(v: &Vec<u64>) -> (r: Option<usize>)
    ensures
        r is None <==> is_bits(v@),
        r matches Some(p) ==> first_non_bit(v@, p as int),
{
    let mut i: usize = 0;
    while i < v.len()
        invariant
            i <= v.len(),
            forall|j: int| 0 <= j < i ==> #[trigger] v@[j] <= 1,
        decreases v.len() - i,
    {
        if v[i] > 1 {
            return Some(i);
        }
        i = i + 1;
    }
    None
}

/// Checks that `a` and `b` have one length and hold only 0 and 1.
pub fn check_pair(a: &Vec<u64>, b: &Vec<u64>) -> (r: Result<(), InputError>)
    ensures
        pair_check_ok(a@, b@, r),
{
    if a.len() != b.len() {
        return Err(InputError::LengthMismatch { left: a.len(), right: b.len() });
    }
    match find_non_binary(a) {
        Some(p) => {
            return Err(InputError::NotBinary { operand: Operand::A, position: p, value: a[p] });
        },
        None => {},
    }
    match find_non_binary(b) {
        Some(p) => Err(InputError::NotBinary { operand: Operand::B, position: p, value: b[p] }),
        None => Ok(()),
    }
}

/// On bits, the polynomial XOR is 1 exactly where the bits differ.
pub proof fn lemma_xor_bit(x: int, y: int)
    requires
        0 <= x <= 1,
        0 <= y <= 1,
    ensures
        xor_bit(x, y) == if x != y {
            1int
        } else {
            0int
        },
{
    assert(xor_bit(x, y) == if x != y {
        1int
    } else {
        0int
    }) by (nonlinear_arith)
        requires
            0 <= x <= 1,
            0 <= y <= 1,
    ;
}

/// On bit vectors the XOR-sum counts the differing positions.
pub proof fn lemma_xor_sum_counts(a: Seq<u64>, b: Seq<u64>, n: int)
    requires
        is_bits(a),
        is_bits(b),
        0 <= n <= a.len(),
        a.len() == b.len(),
    ensures
        xor_sum(a, b, n) == diff_count(a, b, n),
    decreases n,
{
    if n > 0 {
        lemma_xor_sum_counts(a, b, n - 1);
        lemma_xor_bit(a[n - 1] as int, b[n - 1] as int);
    }
}

/// At most `n` positions among the first `n` differ.
pub proof fn lemma_diff_count_bounds(a: Seq<u64>, b: Seq<u64>, n: int)
    requires
        0 <= n,
    ensures
        0 <= diff_count(a, b, n) <= n,
    decreases n,
{
    if n > 0 {
        lemma_diff_count_bounds(a, b, n - 1);
    }
}

/// A vector is at distance zero from itself.
pub proof fn lemma_distance_to_self(a: Seq<u64>)
    ensures
        hamming(a, a) == 0,
{
    lemma_self_count(a, a.len() as int);
}

proof fn lemma_self_count(a: Seq<u64>, n: int)
    ensures
        diff_count(a, a, n) == 0,
    decreases n,
{
    if n > 0 {
        lemma_self_count(a, n - 1);
    }
}

/// The distance does not depend on the order of its arguments.
pub proof fn lemma_distance_symmetric(a: Seq<u64>, b: Seq<u64>)
    requires
        a.len() == b.len(),
    ensures
        hamming(a, b) == hamming(b, a),
{
    lemma_swap_count(a, b, a.len() as int);
}

proof fn lemma_swap_count(a: Seq<u64>, b: Seq<u64>, n: int)
    ensures
        diff_count(a, b, n) == diff_count(b, a, n),
    decreases n,
{
    if n > 0 {
        lemma_swap_count(a, b, n - 1);
    }
}

/// The running XOR-sums of `a` and `b`: entry `i` covers positions `0..=i`.
pub fn running_sums(a: &Vec<u64>, b: &Vec<u64>) -> (r: Vec<u64>)
    requires
        a.len() == b.len(),
        is_bits(a@),
        is_bits(b@),
    ensures
        r.len() == a.len(),
        forall|i: int| 0 <= i < r.len() ==> #[trigger] r[i] == diff_count(a@, b@, i + 1),
        forall|i: int| 0 <= i < r.len() ==> #[trigger] r[i] == xor_sum(a@, b@, i + 1),
{
    let mut out: Vec<u64> = Vec::new();
    let mut sum: u64 = 0;
    let mut i: usize = 0;
    while i < a.len()
        invariant
            a.len() == b.len(),
            is_bits(a@),
            is_bits(b@),
            i <= a.len(),
            out.len() == i,
            sum == xor_sum(a@, b@, i as int),
            sum == diff_count(a@, b@, i as int),
            forall|j: int| 0 <= j < i ==> #[trigger] out[j] == diff_count(a@, b@, j + 1),
            forall|j: int| 0 <= j < i ==> #[trigger] out[j] == xor_sum(a@, b@, j + 1),
        decreases a.len() - i,
    {
        let x = a[i];
        let y = b[i];
        proof {
            lemma_xor_bit(x as int, y as int);
            lemma_diff_count_bounds(a@, b@, i as int);
            assert(x * y <= 1) by (nonlinear_arith)
                requires
                    x <= 1,
                    y <= 1,
            ;
        }
        sum = sum + (x + y - 2 * x * y);
        out.push(sum);
        i = i + 1;
    }
    out
}

/// The Hamming distance of `a` and `b`, computed as the sum of `a_i + b_i - 2 a_i b_i`.
/// Fails when the lengths differ or an element is neither 0 nor 1.
pub fn compute_distance(a: &Vec<u64>, b: &Vec<u64>) -> (r: Result<u64, InputError>)
    ensures
        pair_check_ok(a@, b@, status(r)),
        r matches Ok(d) ==> d == hamming(a@, b@) && d == xor_sum(a@, b@, a.len() as int),
{
    match check_pair(a, b) {
        Err(e) => Err(e),
        Ok(()) => {
            let sums = running_sums(a, b);
            if sums.len() == 0 {
                Ok(0)
            } else {
                Ok(sums[sums.len() - 1])
            }
        },
    }
}

/// The positions where `a` and `b` differ, in increasing order.
pub fn differing_positions(a: &Vec<u64>, b: &Vec<u64>) -> (r: Vec<usize>)
    requires
        a.len() == b.len(),
    ensures
        r.len() == hamming(a@, b@),
        forall|k: int| 0 <= k < r.len() ==> #[trigger] r[k] < a.len() && a[r[k] as int] != b[r[k] as int],
        forall|k: int, l: int| 0 <= k < l < r.len() ==> #[trigger] r[k] < #[trigger] r[l],
        forall|i: int| 0 <= i < a.len() && a[i] != b[i] ==> r@.contains(i as usize),
{
    let mut out: Vec<usize> = Vec::new();
    let mut i: usize = 0;
    while i < a.len()
        invariant
            a.len() == b.len(),
            i <= a.len(),
            out.len() == diff_count(a@, b@, i as int),
            forall|k: int| 0 <= k < out.len() ==> #[trigger] out[k] < i && a[out[k] as int] != b[out[k] as int],
            forall|k: int, l: int| 0 <= k < l < out.len() ==> #[trigger] out[k] < #[trigger] out[l],
            forall|j: int| 0 <= j < i && a[j] != b[j] ==> out@.contains(j as usize),
        decreases a.len() - i,
    {
        let ghost before = out@;
        if a[i] != b[i] {
            out.push(i);
            assert(out[out.len() - 1] == i);
        }
        assert forall|j: int| 0 <= j < i + 1 && a[j] != b[j] implies out@.contains(j as usize) by {
            if j < i {
                let k = choose|k: int| 0 <= k < before.len() && before[k] == j as usize;
                assert(out@[k] == j as usize);
            } else {
                assert(out@[out.len() - 1] == i);
            }
        }
        i = i + 1;
    }
    out
}

/// Two vectors of `width` bits at distance `d`: all zeros, and `d` ones followed by zeros.
pub fn example_vectors(width: usize, d: usize) -> (r: (Vec<u64>, Vec<u64>))
    requires
        d <= width,
    ensures
        r.0.len() == width,
        r.1.len() == width,
        is_bits(r.0@),
        is_bits(r.1@),
        forall|i: int| 0 <= i < width ==> #[trigger] r.0[i] == 0,
        forall|i: int| 0 <= i < width ==> #[trigger] r.1[i] == if i < d {
            1u64
        } else {
            0u64
        },
        hamming(r.0@, r.1@) == d,
{
    let mut a: Vec<u64> = Vec::new();
    let mut b: Vec<u64> = Vec::new();
    let mut i: usize = 0;
    while i < width
        invariant
            d <= width,
            i <= width,
            a.len() == i,
            b.len() == i,
            forall|j: int| 0 <= j < i ==> #[trigger] a[j] == 0,
            forall|j: int| 0 <= j < i ==> #[trigger] b[j] == if j < d {
                1u64
            } else {
                0u64
            },
            diff_count(a@, b@, i as int) == if i < d {
                i as int
            } else {
                d as int
            },
        decreases width - i,
    {
        let ghost (a0, b0) = (a@, b@);
        a.push(0);
        b.push(if i < d {
            1
        } else {
            0
        });
        proof {
            lemma_count_prefix(a@, b@, a0, b0, i as int);
        }
        i = i + 1;
    }
    (a, b)
}

proof fn lemma_count_prefix(a: Seq<u64>, b: Seq<u64>, a2: Seq<u64>, b2: Seq<u64>, n: int)
    requires
        0 <= n <= a2.len(),
        a2.len() <= a.len(),
        a2.len() <= b.len(),
        a2.len() == b2.len(),
        forall|j: int| 0 <= j < a2.len() ==> a[j] == a2[j] && b[j] == b2[j],
    ensures
        diff_count(a, b, n) == diff_count(a2, b2, n),
    decreases n,
{
    if n > 0 {
        lemma_count_prefix(a, b, a2, b2, n - 1);
    }
}

} // verus!
