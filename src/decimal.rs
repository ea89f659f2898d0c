use vstd::prelude::*;

verus! {

/// An ASCII decimal digit.
pub open spec fn is_digit(b: u8) -> bool {
    48 <= b <= 57
}

pub open spec fn all_digits(t: Seq<u8>) -> bool {
    forall|i: int| 0 <= i < t.len() ==> is_digit(#[trigger] t[i])
}

/// The number that a run of decimal digits denotes, most significant first.
pub open spec fn digits_value(t: Seq<u8>) -> nat
    decreases t.len(),
{
    if t.len() == 0 {
        0
    } else {
        digits_value(t.drop_last()) * 10 + (t.last() - 48) as nat
    }
}

/// A magnitude written as one or more digits that stays within `limit`.
pub open spec fn magnitude(m: Seq<u8>, limit: nat) -> bool {
    m.len() > 0 && all_digits(m) && digits_value(m) <= limit
}

/// The signed 64-bit integer that a byte string spells: an optional `-` or `+`,
/// then one or more decimal digits, within the range of `i64`.
pub open spec fn parse_int(t: Seq<u8>) -> Option<int> {
    if t.len() > 0 && t[0] == 45 {
        let m = t.subrange(1, t.len() as int);
        if magnitude(m, 0x8000_0000_0000_0000) {
            Some(-(digits_value(m) as int))
        } else {
            None
        }
    } else {
        let m = if t.len() > 0 && t[0] == 43 {
            t.subrange(1, t.len() as int)
        } else {
            t
        };
        if magnitude(m, 0x7fff_ffff_ffff_ffff) {
            Some(digits_value(m) as int)
        } else {
            None
        }
    }
}

/// The shortest decimal spelling of a natural number.
pub open spec fn decimal(n: nat) -> Seq<u8>
    decreases n,
{
    if n < 10 {
        seq![(n + 48) as u8]
    } else {
        decimal(n / 10).push((n % 10 + 48) as u8)
    }
}

/// The decimal spelling of an integer, with a leading `-` when it is negative.
pub open spec fn signed_decimal(n: int) -> Seq<u8> {
    if n < 0 {
        seq![45u8] + decimal((-n) as nat)
    } else {
        decimal(n as nat)
    }
}

proof fn lemma_digits_prefix(t: Seq<u8>, k: int)
    requires
        0 <= k <= t.len(),
    ensures
        digits_value(t.subrange(0, k)) <= digits_value(t),
    decreases t.len(),
{
    if k < t.len() {
        assert(t.drop_last().subrange(0, k) =~= t.subrange(0, k));
        lemma_digits_prefix(t.drop_last(), k);
    } else {
        assert(t.subrange(0, k) =~= t);
    }
}

pub proof fn lemma_decimal(n: nat)
    ensures
        decimal(n).len() > 0,
        all_digits(decimal(n)),
        digits_value(decimal(n)) == n,
    decreases n,
{
    if n >= 10 {
        lemma_decimal(n / 10);
        assert(decimal(n).drop_last() =~= decimal(n / 10));
        assert(decimal(n).last() == (n % 10 + 48) as u8);
        assert(n == (n / 10) * 10 + n % 10);
        let t = decimal(n);
        assert(digits_value(t) == digits_value(t.drop_last()) * 10 + (t.last() - 48) as nat);
    } else {
        let t = decimal(n);
        assert(t.drop_last() =~= Seq::<u8>::empty());
        assert(digits_value(t) == digits_value(t.drop_last()) * 10 + (t.last() - 48) as nat);
        assert(digits_value(Seq::<u8>::empty()) == 0);
    }
}

/// Reading back what `signed_decimal` writes gives the same integer.
pub proof fn lemma_parse_signed_decimal(n: int)
    requires
        -0x8000_0000_0000_0000 <= n <= 0x7fff_ffff_ffff_ffff,
    ensures
        parse_int(signed_decimal(n)) == Some(n),
{
    if n < 0 {
        lemma_decimal((-n) as nat);
        let t = signed_decimal(n);
        assert(t.subrange(1, t.len() as int) =~= decimal((-n) as nat));
    } else {
        lemma_decimal(n as nat);
        let t = decimal(n as nat);
        assert(is_digit(t[0]));
    }
}

/// The value of the digits of `t` from `start` on, when they are one or more and
/// their value stays within `limit`.
fn digits_from(t: &[u8], start: usize, limit: u64) -> (r: Option<u64>)
    requires
        start <= t@.len(),
        limit >= 9,
    ensures
        ({
            let m = t@.subrange(start as int, t@.len() as int);
            match r {
                Some(v) => magnitude(m, limit as nat) && v == digits_value(m),
                None => !magnitude(m, limit as nat),
            }
        }),
{
    let ghost m = t@.subrange(start as int, t@.len() as int);
    if start == t.len() {
        return None;
    }
    let mut acc: u64 = 0;
    let mut i: usize = start;
    while i < t.len()
        invariant
            start <= i <= t@.len(),
            m == t@.subrange(start as int, t@.len() as int),
            limit >= 9,
            all_digits(t@.subrange(start as int, i as int)),
            acc == digits_value(t@.subrange(start as int, i as int)),
            acc <= limit,
        decreases t@.len() - i,
    {
        let b = t[i];
        if b < 48 || b > 57 {
            proof {
                assert(m[i - start] == b);
            }
            return None;
        }
        let d: u64 = (b - 48) as u64;
        let ghost next = t@.subrange(start as int, i + 1);
        proof {
            assert(next.drop_last() =~= t@.subrange(start as int, i as int));
            assert(m.subrange(0, i + 1 - start) =~= next);
        }
        if acc > (limit - d) / 10 {
            proof {
                assert(acc * 10 + d > limit) by (nonlinear_arith)
                    requires
                        acc > (limit - d) / 10,
                        d <= 9,
                        limit >= 9,
                ;
                lemma_digits_prefix(m, i + 1 - start);
            }
            return None;
        }
        proof {
            assert(acc * 10 + d <= limit) by (nonlinear_arith)
                requires
                    acc <= (limit - d) / 10,
                    d <= 9,
                    limit >= 9,
            ;
        }
        acc = acc * 10 + d;
        i = i + 1;
        proof {
            assert forall|j: int| 0 <= j < next.len() implies is_digit(#[trigger] next[j]) by {
                if j < next.len() - 1 {
                    assert(next[j] == t@.subrange(start as int, i - 1)[j]);
                }
            }
        }
    }
    proof {
        assert(t@.subrange(start as int, i as int) =~= m);
    }
    Some(acc)
}

/// Reads a signed 64-bit integer written in decimal.
pub fn parse_i64(t: &[u8]) -> (r: Option<i64>)
    ensures
        match parse_int(t@) {
            Some(x) => r == Some(x as i64) && i64::MIN <= x <= i64::MAX,
            None => r.is_none(),
        },
{
    if t.len() > 0 && t[0] == 45 {
        match digits_from(t, 1, 0x8000_0000_0000_0000) {
            Some(v) => Some((0 - (v as i128)) as i64),
            None => None,
        }
    } else {
        let start: usize = if t.len() > 0 && t[0] == 43 {
            1
        } else {
            0
        };
        proof {
            assert(t@.subrange(0, t@.len() as int) =~= t@);
        }
        match digits_from(t, start, 0x7fff_ffff_ffff_ffff) {
            Some(v) => Some(v as i64),
            None => None,
        }
    }
}

/// Writes a natural number in decimal.
pub fn decimal_of(n: u64) -> (r: Vec<u8>)
    ensures
        r@ == decimal(n as nat),
{
    let mut m: u64 = n;
    let mut out: Vec<u8> = Vec::new();
    while m >= 10
        invariant
            decimal(n as nat) == decimal(m as nat) + out@,
        decreases m,
    {
        let d: u8 = (m % 10) as u8 + 48;
        let ghost before = out@;
        out.insert(0, d);
        proof {
            assert(decimal(m as nat) == decimal((m / 10) as nat).push(d));
            assert(decimal(m as nat) + before =~= decimal((m / 10) as nat) + out@);
        }
        m = m / 10;
    }
    let d: u8 = m as u8 + 48;
    out.insert(0, d);
    proof {
        assert(decimal(m as nat) =~= seq![d]);
        assert(decimal(n as nat) =~= out@);
    }
    out
}

/// Writes a signed 64-bit integer in decimal, with `-` before a negative one.
pub fn signed_decimal_of(n: i64) -> (r: Vec<u8>)
    ensures
        r@ == signed_decimal(n as int),
{
    if n < 0 {
        let mag: u64 = (0 - (n as i128)) as u64;
        let digits = decimal_of(mag);
        let mut out: Vec<u8> = vec![45u8];
        let mut i: usize = 0;
        while i < digits.len()
            invariant
                i <= digits@.len(),
                out@ == seq![45u8] + digits@.subrange(0, i as int),
            decreases digits@.len() - i,
        {
            out.push(digits[i]);
            i = i + 1;
            proof {
                assert(out@ =~= seq![45u8] + digits@.subrange(0, i as int));
            }
        }
        proof {
            assert(digits@.subrange(0, i as int) =~= digits@);
        }
        out
    } else {
        decimal_of(n as u64)
    }
}

} // verus!
