//! Reading a bit vector from text: comma-separated fields, each an unsigned
//! decimal number (surrounding white space allowed) that must be 0 or 1.
use vstd::prelude::*;
use crate::distance::is_bits;

verus! {

/// Unicode `White_Space`: the characters that `char::is_whitespace` and `str::trim` skip.
pub open spec fn is_white_space(c: char) -> bool {
    let u = c as u32;
    (0x9 <= u <= 0xd) || u == 0x20 || u == 0x85 || u == 0xa0 || u == 0x1680 || (0x2000 <= u
        <= 0x200a) || u == 0x2028 || u == 0x2029 || u == 0x202f || u == 0x205f || u == 0x3000
}

/// `f` without its leading white space.
pub open spec fn trim_start(f: Seq<char>) -> Seq<char>
    decreases f.len(),
{
    if f.len() > 0 && is_white_space(f[0]) {
        trim_start(f.drop_first())
    } else {
        f
    }
}

/// `f` without its trailing white space.
pub open spec fn trim_end(f: Seq<char>) -> Seq<char>
    decreases f.len(),
{
    if f.len() > 0 && is_white_space(f.last()) {
        trim_end(f.drop_last())
    } else {
        f
    }
}

/// `f` without white space at either end.
pub open spec fn trim(f: Seq<char>) -> Seq<char> {
    trim_end(trim_start(f))
}

/// The pieces of `s` between commas, in order; text without a comma is one piece.
pub open spec fn split_commas(s: Seq<char>) -> Seq<Seq<char>>
    decreases s.len(),
{
    if s.len() == 0 {
        seq![Seq::empty()]
    } else {
        let rest = split_commas(s.drop_last());
        if s.last() == ',' {
            rest.push(Seq::empty())
        } else {
            rest.update(rest.len() - 1, rest.last().push(s.last()))
        }
    }
}

pub open spec fn is_digit(c: char) -> bool {
    '0' <= c <= '9'
}

pub open spec fn digit_value(c: char) -> int {
    c as u32 - '0' as u32
}

/// The number that the decimal digits `d` write.
pub open spec fn digits_value(d: Seq<char>) -> int
    decreases d.len(),
{
    if d.len() == 0 {
        0
    } else {
        digits_value(d.drop_last()) * 10 + digit_value(d.last())
    }
}

/// The digits of an unsigned number: `t` without one leading `+`.
pub open spec fn unsigned_digits(t: Seq<char>) -> Seq<char> {
    if t.len() > 0 && t[0] == '+' {
        t.drop_first()
    } else {
        t
    }
}

/// `t` writes a `u64`: an optional `+`, then at least one digit, and a value that fits.
pub open spec fn is_u64_text(t: Seq<char>) -> bool {
    let d = unsigned_digits(t);
    &&& d.len() > 0
    &&& forall|i: int| 0 <= i < d.len() ==> is_digit(#[trigger] d[i])
    &&& digits_value(d) <= u64::MAX
}

/// Why a text was not a bit vector; `field` counts the comma-separated fields from 0.
#[derive(Clone, Copy, Debug, PartialEq, Eq, Structural)]
pub enum ParseError {
    /// The field, trimmed, is not an unsigned decimal number that fits in 64 bits.
    NotANumber { field: usize },
    /// The field is a number, but neither 0 nor 1.
    NotBinary { field: usize, value: u64 },
}

/// The outcome of reading the first `n` fields of `fs`: their values, or the
/// error of the first field that is not 0 or 1.
pub open spec fn parse_fields(fs: Seq<Seq<char>>, n: int) -> Result<Seq<u64>, ParseError>
    decreases n,
{
    if n <= 0 {
        Ok(Seq::empty())
    } else {
        match parse_fields(fs, n - 1) {
            Err(e) => Err(e),
            Ok(v) => {
                let t = trim(fs[n - 1]);
                let value = digits_value(unsigned_digits(t));
                if !is_u64_text(t) {
                    Err(ParseError::NotANumber { field: (n - 1) as usize })
                } else if value > 1 {
                    Err(ParseError::NotBinary { field: (n - 1) as usize, value: value as u64 })
                } else {
                    Ok(v.push(value as u64))
                }
            },
        }
    }
}

/// The outcome of reading text `s` as a bit vector.
pub open spec fn parse_spec(s: Seq<char>) -> Result<Seq<u64>, ParseError> {
    let fs = split_commas(s);
    parse_fields(fs, fs.len() as int)
}

/// The characters of `s`, in order.
pub fn chars_of(s: &str) -> (r: Vec<char>)
    ensures
        r@ == s@,
{
    let mut out: Vec<char> = Vec::new();
    for c in it: s.chars()
        invariant
            it.seq() == s@,
            out@ == s@.take(it.index() as int),
    {
        out.push(c);
    }
    proof {
        assert(out@ =~= s@);
    }
    out
}

/// Whether `c` is white space, as `is_white_space` says.
pub fn white_space(c: char) -> (r: bool)
    ensures
        r == is_white_space(c),
{
    let u = c as u32;
    (0x9 <= u && u <= 0xd) || u == 0x20 || u == 0x85 || u == 0xa0 || u == 0x1680 || (0x2000 <= u
        && u <= 0x200a) || u == 0x2028 || u == 0x2029 || u == 0x202f || u == 0x205f || u == 0x3000
}

/// Splits `s` at each comma.
pub fn split_fields(s: &Vec<char>) -> (r: Vec<Vec<char>>)
    ensures
        r@.map_values(|f: Vec<char>| f@) == split_commas(s@),
{
    let mut fields: Vec<Vec<char>> = Vec::new();
    let mut cur: Vec<char> = Vec::new();
    let mut i: usize = 0;
    while i < s.len()
        invariant
            i <= s.len(),
            fields@.map_values(|f: Vec<char>| f@).push(cur@) == split_commas(s@.take(i as int)),
        decreases s.len() - i,
    {
        let c = s[i];
        proof {
            assert(s@.take(i + 1).drop_last() =~= s@.take(i as int));
            assert(s@.take(i + 1).last() == c);
        }
        if c == ',' {
            let ghost before = fields@;
            fields.push(cur);
            cur = Vec::new();
            proof {
                assert(fields@.map_values(|f: Vec<char>| f@) =~= before.map_values(
                    |f: Vec<char>| f@,
                ).push(fields@.last()@));
                assert(fields@.map_values(|f: Vec<char>| f@).push(cur@) =~= split_commas(
                    s@.take(i + 1),
                ));
            }
        } else {
            let ghost old_cur = cur@;
            cur.push(c);
            proof {
                assert(cur@ == old_cur.push(c));
                assert(fields@.map_values(|f: Vec<char>| f@).push(cur@) =~= split_commas(
                    s@.take(i as int),
                ).update(fields@.len() as int, old_cur.push(c)));
            }
        }
        i = i + 1;
    }
    fields.push(cur);
    proof {
        assert(s@.take(s.len() as int) =~= s@);
    }
    fields
}

/// Where the trimmed text of `f` lies: `f[start..end]`.
fn trim_bounds(f: &Vec<char>) -> (r: (usize, usize))
    ensures
        r.0 <= r.1 <= f.len(),
        trim(f@) == f@.subrange(r.0 as int, r.1 as int),
{
    let mut i: usize = 0;
    assert(f@.subrange(0, f.len() as int) =~= f@);
    while i < f.len() && white_space(f[i])
        invariant
            i <= f.len(),
            trim_start(f@) == trim_start(f@.subrange(i as int, f.len() as int)),
        decreases f.len() - i,
    {
        proof {
            assert(f@.subrange(i as int, f.len() as int).drop_first() =~= f@.subrange(
                i + 1,
                f.len() as int,
            ));
        }
        i = i + 1;
    }
    assert(trim_start(f@) == f@.subrange(i as int, f.len() as int));
    let mut j: usize = f.len();
    while j > i && white_space(f[j - 1])
        invariant
            i <= j <= f.len(),
            trim_start(f@) == f@.subrange(i as int, f.len() as int),
            trim(f@) == trim_end(f@.subrange(i as int, j as int)),
        decreases j,
    {
        proof {
            assert(f@.subrange(i as int, j as int).drop_last() =~= f@.subrange(
                i as int,
                j - 1,
            ));
        }
        j = j - 1;
    }
    (i, j)
}

/// More digits never write a smaller number.
proof fn lemma_digits_value_grows(d: Seq<char>, k: int)
    requires
        0 <= k <= d.len(),
        forall|i: int| 0 <= i < d.len() ==> is_digit(#[trigger] d[i]),
    ensures
        digits_value(d.take(k)) <= digits_value(d),
        0 <= digits_value(d),
    decreases d.len(),
{
    if d.len() > 0 {
        lemma_digits_value_grows(d.drop_last(), if k < d.len() {
            k
        } else {
            0
        });
        if k < d.len() {
            assert(d.drop_last().take(k) =~= d.take(k));
        } else {
            assert(d.take(k) =~= d);
        }
    } else {
        assert(d.take(k) =~= d);
    }
}

/// The value of field `f`, read as `str::trim` then `u64::from_str` read it;
/// `None` when it is not such a number.
pub fn parse_field(f: &Vec<char>) -> (r: Option<u64>)
    ensures
        r is Some <==> is_u64_text(trim(f@)),
        r matches Some(v) ==> v == digits_value(unsigned_digits(trim(f@))),
{
    let (start, end) = trim_bounds(f);
    let ghost t = trim(f@);
    let mut p: usize = start;
    if start < end && f[start] == '+' {
        p = start + 1;
        assert(unsigned_digits(t) =~= f@.subrange(p as int, end as int));
    } else {
        assert(unsigned_digits(t) =~= f@.subrange(p as int, end as int));
    }
    let ghost d = unsigned_digits(t);
    if p == end {
        return None;
    }
    let mut acc: u64 = 0;
    let mut q: usize = p;
    while q < end
        invariant
            p <= q <= end <= f.len(),
            d == f@.subrange(p as int, end as int),
            d == unsigned_digits(trim(f@)),
            forall|i: int| p <= i < q ==> is_digit(#[trigger] f@[i]),
            acc == digits_value(d.take(q - p)),
        decreases end - q,
    {
        let c = f[q];
        assert(d.take(q - p + 1).drop_last() =~= d.take(q - p));
        assert(d.take(q - p + 1).last() == c);
        if !('0' <= c && c <= '9') {
            assert(d[q - p] == c);
            assert(!is_digit(d[q - p]));
            return None;
        }
        let digit: u64 = (c as u32 - '0' as u32) as u64;
        let next = match acc.checked_mul(10) {
            Some(m) => m.checked_add(digit),
            None => None,
        };
        match next {
            Some(n) => {
                acc = n;
            },
            None => {
                proof {
                    assert(d[q - p] == c);
                    assert(digits_value(d.take(q - p + 1)) == acc * 10 + digit);
                    if is_u64_text(trim(f@)) {
                        lemma_digits_value_grows(d, q - p + 1);
                    }
                }
                return None;
            },
        }
        q = q + 1;
    }
    assert(d.take(q - p) =~= d);
    Some(acc)
}

/// The first error among the fields stays the outcome of all later prefixes.
proof fn lemma_error_stays(fs: Seq<Seq<char>>, n: int, m: int)
    requires
        0 <= n <= m,
        parse_fields(fs, n) is Err,
    ensures
        parse_fields(fs, m) == parse_fields(fs, n),
    decreases m - n,
{
    if m > n {
        lemma_error_stays(fs, n, m - 1);
    }
}

/// Every vector that the fields give holds only 0 and 1, one per field.
proof fn lemma_parsed_are_bits(fs: Seq<Seq<char>>, n: int)
    requires
        0 <= n,
        parse_fields(fs, n) is Ok,
    ensures
        is_bits(parse_fields(fs, n)->Ok_0),
        parse_fields(fs, n)->Ok_0.len() == n,
    decreases n,
{
    if n > 0 {
        lemma_parsed_are_bits(fs, n - 1);
        let d = unsigned_digits(trim(fs[n - 1]));
        lemma_digits_value_grows(d, 0);
        let v = parse_fields(fs, n - 1)->Ok_0;
        let w = parse_fields(fs, n)->Ok_0;
        assert(w == v.push(digits_value(d) as u64));
        assert forall|i: int| 0 <= i < w.len() implies #[trigger] w[i] <= 1 by {
            if i < v.len() {
                assert(w[i] == v[i]);
            }
        }
    }
}

/// Reads comma-separated bits (`"1, 0,1"`). Each field, trimmed of white space,
/// must be an unsigned decimal number that fits in 64 bits, and 0 or 1; the
/// first field that is not gives the error.
pub fn parse_binary_vector(input: &str) -> (r: Result<Vec<u64>, ParseError>)
    ensures
        r is Ok <==> parse_spec(input@) is Ok,
        r matches Ok(v) ==> parse_spec(input@) == Ok::<Seq<u64>, ParseError>(v@),
        r matches Err(e) ==> parse_spec(input@) == Err::<Seq<u64>, ParseError>(e),
        r matches Ok(v) ==> is_bits(v@) && v.len() == split_commas(input@).len(),
{
    let chars = chars_of(input);
    let fields = split_fields(&chars);
    let ghost fs = fields@.map_values(|f: Vec<char>| f@);
    let mut out: Vec<u64> = Vec::new();
    let mut k: usize = 0;
    while k < fields.len()
        invariant
            k <= fields.len(),
            fs == split_commas(input@),
            fs == fields@.map_values(|f: Vec<char>| f@),
            parse_fields(fs, k as int) == Ok::<Seq<u64>, ParseError>(out@),
        decreases fields.len() - k,
    {
        assert(fs[k as int] == fields@[k as int]@);
        match parse_field(&fields[k]) {
            None => {
                proof {
                    lemma_error_stays(fs, k + 1, fs.len() as int);
                }
                return Err(ParseError::NotANumber { field: k });
            },
            Some(v) => {
                if v > 1 {
                    proof {
                        lemma_error_stays(fs, k + 1, fs.len() as int);
                    }
                    return Err(ParseError::NotBinary { field: k, value: v });
                }
                out.push(v);
            },
        }
        k = k + 1;
    }
    proof {
        lemma_parsed_are_bits(fs, k as int);
    }
    Ok(out)
}

} // verus!
