use vstd::prelude::*;
use vstd::string::*;

verus! {

/// Fixed-point values read from text are below this many units in magnitude
/// (an integer part of at most twenty digits).
pub const FIXED_LIMIT: i128 = 10_000_000_000_000_000_000_000_000_000;

pub open spec fn is_digit(c: char) -> bool {
    '0' <= c && c <= '9'
}

pub open spec fn all_digits(t: Seq<char>) -> bool {
    forall|i: int| 0 <= i < t.len() ==> is_digit(#[trigger] t[i])
}

pub open spec fn digit_of(c: char) -> int {
    c as int - '0' as int
}

/// The number that a run of decimal digits spells.
pub open spec fn digits_value(t: Seq<char>) -> int
    decreases t.len(),
{
    if t.len() == 0 {
        0
    } else {
        digits_value(t.drop_last()) * 10 + digit_of(t.last())
    }
}

pub open spec fn zeros(n: nat) -> Seq<char> {
    Seq::new(n, |i: int| '0')
}

/// `b` is digits, or digits, a point and at most eight digits, with `d` the
/// length of the integer part.
pub open spec fn unsigned_form(b: Seq<char>, d: int) -> bool {
    &&& 1 <= d <= b.len()
    &&& all_digits(b.subrange(0, d))
    &&& d == b.len() || (b[d] == '.' && all_digits(b.subrange(d + 1, b.len() as int)) && b.len() - d - 1 <= 8)
}

/// The digits of the value in units of one hundred-millionth: the integer
/// part followed by the fraction padded to eight places.
pub open spec fn unit_digits(b: Seq<char>, d: int) -> Seq<char> {
    if d == b.len() {
        b + zeros(8)
    } else {
        b.subrange(0, d) + b.subrange(d + 1, b.len() as int) + zeros((8 - (b.len() - d - 1)) as nat)
    }
}

pub open spec fn unsigned_value(b: Seq<char>) -> Option<int> {
    if exists|d: int| unsigned_form(b, d) {
        let d = choose|d: int| unsigned_form(b, d);
        let v = digits_value(unit_digits(b, d));
        if v < FIXED_LIMIT { Some(v) } else { None }
    } else {
        None
    }
}

/// The fixed-point value (in hundred-millionths) of a decimal text such as
/// `-12.5` or `0.00012300`, or none where the text is not such a number or is
/// too large.
pub open spec fn fixed_value(s: Seq<char>) -> Option<int> {
    if s.len() > 0 && s[0] == '-' {
        match unsigned_value(s.drop_first()) {
            Some(v) => Some(-v),
            None => None,
        }
    } else {
        unsigned_value(s)
    }
}

proof fn lemma_unsigned_form_unique_len(b: Seq<char>, d: int, e: int)
    requires
        0 <= d <= b.len(),
        all_digits(b.subrange(0, d)),
        d < b.len() ==> !is_digit(b[d]),
        unsigned_form(b, e),
    ensures
        d == e,
{
    if e < d {
        assert(b.subrange(0, d)[e] == b[e]);
    } else if d < e {
        assert(b.subrange(0, e)[d] == b[d]);
    }
}

pub open spec fn saturated(v: int) -> int {
    if v < FIXED_LIMIT { v } else { FIXED_LIMIT as int }
}

/// The value of a digit run, saturated at `FIXED_LIMIT`.
fn accumulate(digits: &Vec<char>) -> (r: i128)
    requires
        all_digits(digits@),
    ensures
        r == saturated(digits_value(digits@)),
        digits_value(digits@) >= 0,
{
    let mut acc: i128 = 0;
    let mut q: usize = 0;
    while q < digits.len()
        invariant
            q <= digits@.len(),
            all_digits(digits@),
            acc == saturated(digits_value(digits@.subrange(0, q as int))),
            digits_value(digits@.subrange(0, q as int)) >= 0,
        decreases digits@.len() - q,
    {
        let c = digits[q];
        assert(is_digit(digits@[q as int]));
        let ghost pre = digits@.subrange(0, q as int);
        assert(digits@.subrange(0, q + 1 as int).drop_last() =~= pre);
        let dig: i128 = (c as u32 - '0' as u32) as i128;
        if acc < FIXED_LIMIT {
            let next = acc * 10 + dig;
            acc = if next < FIXED_LIMIT { next } else { FIXED_LIMIT };
        }
        q = q + 1;
    }
    assert(digits@.subrange(0, digits@.len() as int) =~= digits@);
    acc
}

/// Reads a decimal text as a fixed-point number of hundred-millionths. The
/// text is digits, optionally after a leading `-`, optionally followed by a
/// point and at most eight digits, with an integer part below 10^20; any
/// other text (a `+`, an exponent, a bare point) gives none.
pub fn parse_fixed(s: &str) -> (r: Option<i128>)
    ensures
        match fixed_value(s@) {
            Some(v) => r == Some(v as i128) && -FIXED_LIMIT < v < FIXED_LIMIT,
            None => r.is_none(),
        },
{
    let n = s.unicode_len();
    let mut cs: Vec<char> = Vec::new();
    let mut k: usize = 0;
    while k < n
        invariant
            n == s@.len(),
            k <= n,
            cs@ == s@.subrange(0, k as int),
        decreases n - k,
    {
        cs.push(s.get_char(k));
        k = k + 1;
    }
    assert(cs@ =~= s@);
    let neg = n > 0 && cs[0] == '-';
    let start: usize = if neg { 1 } else { 0 };
    let ghost b = if neg { s@.drop_first() } else { s@ };
    assert(b =~= cs@.subrange(start as int, n as int));
    let u = parse_unsigned(&cs, start);
    match u {
        Some(v) => {
            if neg {
                Some(-v)
            } else {
                Some(v)
            }
        },
        None => None,
    }
}

fn parse_unsigned(cs: &Vec<char>, start: usize) -> (r: Option<i128>)
    requires
        start <= cs@.len(),
    ensures
        match unsigned_value(cs@.subrange(start as int, cs@.len() as int)) {
            Some(v) => r == Some(v as i128) && 0 <= v < FIXED_LIMIT,
            None => r.is_none(),
        },
{
    let n = cs.len();
    let ghost b = cs@.subrange(start as int, n as int);
    let mut i: usize = start;
    while i < n && '0' <= cs[i] && cs[i] <= '9'
        invariant
            start <= i <= n,
            n == cs@.len(),
            b == cs@.subrange(start as int, n as int),
            all_digits(b.subrange(0, i - start)),
        decreases n - i,
    {
        assert(b.subrange(0, i + 1 - start) =~= b.subrange(0, i - start).push(b[i - start]));
        i = i + 1;
    }
    let d = i - start;
    if d == 0 {
        proof {
            assert forall|e: int| !unsigned_form(b, e) by {
                if unsigned_form(b, e) {
                    assert(b.subrange(0, e)[0] == b[0]);
                }
            }
        }
        return None;
    }
    let mut digits: Vec<char> = Vec::new();
    let mut j: usize = start;
    while j < i
        invariant
            start <= j <= i <= n,
            n == cs@.len(),
            b == cs@.subrange(start as int, n as int),
            digits@ == b.subrange(0, j - start),
        decreases i - j,
    {
        digits.push(cs[j]);
        j = j + 1;
    }
    let mut pad: usize = 8;
    if i < n {
        if cs[i] != '.' {
            proof {
                assert forall|e: int| !unsigned_form(b, e) by {
                    if unsigned_form(b, e) {
                        lemma_unsigned_form_unique_len(b, d as int, e);
                    }
                }
            }
            return None;
        }
        if n - i - 1 > 8 {
            proof {
                assert forall|e: int| !unsigned_form(b, e) by {
                    if unsigned_form(b, e) {
                        lemma_unsigned_form_unique_len(b, d as int, e);
                    }
                }
            }
            return None;
        }
        pad = 8 - (n - i - 1);
        let mut m: usize = i + 1;
        while m < n
            invariant
                start <= i < m <= n,
                n == cs@.len(),
                d == i - start,
                b == cs@.subrange(start as int, n as int),
                digits@ == b.subrange(0, d as int) + b.subrange(d + 1, m - start),
                all_digits(b.subrange(0, d as int)),
                all_digits(b.subrange(d + 1, m - start)),
                b[d as int] == '.',
                n - i - 1 <= 8,
            decreases n - m,
        {
            if !('0' <= cs[m] && cs[m] <= '9') {
                proof {
                    assert forall|e: int| !unsigned_form(b, e) by {
                        if unsigned_form(b, e) {
                            lemma_unsigned_form_unique_len(b, d as int, e);
                            assert(b.subrange(d + 1, b.len() as int)[m - start - d - 1] == b[m - start]);
                        }
                    }
                }
                return None;
            }
            assert(b.subrange(d + 1, m + 1 - start) =~= b.subrange(d + 1, m - start).push(b[m - start]));
            digits.push(cs[m]);
            m = m + 1;
        }
    }
    let ghost body = digits@;
    let mut z: usize = 0;
    while z < pad
        invariant
            z <= pad <= 8,
            digits@ == body + zeros(z as nat),
        decreases pad - z,
    {
        digits.push('0');
        z = z + 1;
        assert(digits@ =~= body + zeros(z as nat));
    }
    proof {
        assert(unsigned_form(b, d as int));
        assert forall|e: int| unsigned_form(b, e) implies e == d by {
            lemma_unsigned_form_unique_len(b, d as int, e);
        }
        assert(digits@ =~= unit_digits(b, d as int));
        assert(all_digits(digits@)) by {
            assert forall|q: int| 0 <= q < digits@.len() implies is_digit(#[trigger] digits@[q]) by {
                if q < d {
                    assert(b.subrange(0, d as int)[q] == digits@[q]);
                } else if q < body.len() {
                    assert(b.subrange(d + 1, b.len() as int)[q - d] == digits@[q]);
                }
            }
        }
    }
    let v = accumulate(&digits);
    if v >= FIXED_LIMIT {
        None
    } else {
        Some(v)
    }
}

} // verus!
