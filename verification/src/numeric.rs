//! The decimal numeric grammar used to coerce cell text to a number:
//! an optional sign, an integer and/or fractional part, and an optional
//! exponent. A token matching this grammar is what the engine treats as a
//! numeric cell.

use vstd::prelude::*;

verus! {

/// Whether `c` is a decimal digit.
pub open spec fn is_digit(c: char) -> bool {
    '0' <= c && c <= '9'
}

/// Whether `c` is a leading sign.
pub open spec fn is_sign(c: char) -> bool {
    c == '+' || c == '-'
}

/// Whether `c` introduces an exponent part.
pub open spec fn is_exp_mark(c: char) -> bool {
    c == 'e' || c == 'E'
}

/// A mantissa: digits with at most one decimal point and at least one digit.
pub open spec fn valid_mantissa(s: Seq<char>) -> bool {
    &&& forall|i: int| 0 <= i < s.len() ==> is_digit(s[i]) || s[i] == '.'
    &&& exists|i: int| 0 <= i < s.len() && is_digit(s[i])
    &&& forall|i: int, j: int| 0 <= i < j < s.len() && s[i] == '.' ==> s[j] != '.'
}

/// `s` without its leading sign, if it has one.
pub open spec fn strip_sign(s: Seq<char>) -> Seq<char> {
    if s.len() > 0 && is_sign(s[0]) {
        s.skip(1)
    } else {
        s
    }
}

/// Every character of `s` is a decimal digit.
pub open spec fn all_digits(s: Seq<char>) -> bool {
    forall|i: int| 0 <= i < s.len() ==> is_digit(s[i])
}

/// An exponent body: an optional sign followed by at least one digit.
pub open spec fn valid_exponent(s: Seq<char>) -> bool {
    strip_sign(s).len() > 0 && all_digits(strip_sign(s))
}

/// The whole numeric grammar: an optional sign, a mantissa, and an optional
/// exponent part introduced by `e` or `E`.
pub open spec fn spec_is_numeric(s: Seq<char>) -> bool {
    let m = strip_sign(s);
    valid_mantissa(m) || (exists|k: int|
        0 <= k < m.len() && #[trigger] is_exp_mark(m[k]) && valid_mantissa(m.take(k))
            && valid_exponent(m.skip(k + 1)))
}

/// Whether `v[from..to]` is a valid mantissa.
fn mantissa_ok(v: &Vec<char>, from: usize, to: usize) -> (r: bool)
    requires
        from <= to <= v@.len(),
    ensures
        r == valid_mantissa(v@.subrange(from as int, to as int)),
{
    let ghost m = v@.subrange(from as int, to as int);
    let mut has_digit: bool = false;
    let mut dot_seen: bool = false;
    let ghost mut dot_at: int = 0;
    let mut i: usize = from;
    while i < to
        invariant
            from <= i <= to <= v@.len(),
            m == v@.subrange(from as int, to as int),
            forall|j: int| 0 <= j < i - from ==> is_digit(m[j]) || m[j] == '.',
            has_digit == exists|j: int| 0 <= j < i - from && is_digit(m[j]),
            dot_seen ==> 0 <= dot_at < i - from && m[dot_at] == '.' && forall|j: int|
                0 <= j < i - from && j != dot_at ==> m[j] != '.',
            !dot_seen ==> forall|j: int| 0 <= j < i - from ==> m[j] != '.',
        decreases to - i,
    {
        let c = v[i];
        proof {
            assert(m[i - from] == c);
        }
        if '0' <= c && c <= '9' {
            has_digit = true;
            proof {
                assert(is_digit(m[i - from]));
            }
        } else if c == '.' {
            if dot_seen {
                proof {
                    assert(m[dot_at] == '.' && m[i - from] == '.');
                }
                return false;
            }
            dot_seen = true;
            proof {
                dot_at = i - from;
            }
        } else {
            proof {
                assert(!(is_digit(m[i - from]) || m[i - from] == '.'));
            }
            return false;
        }
        i = i + 1;
    }
    has_digit
}

/// Whether `v[from..to]` is a valid exponent body.
fn exponent_ok(v: &Vec<char>, from: usize, to: usize) -> (r: bool)
    requires
        from <= to <= v@.len(),
    ensures
        r == valid_exponent(v@.subrange(from as int, to as int)),
{
    let ghost e = v@.subrange(from as int, to as int);
    let start: usize = if from < to && (v[from] == '+' || v[from] == '-') {
        from + 1
    } else {
        from
    };
    let ghost d = strip_sign(e);
    proof {
        assert(d =~= v@.subrange(start as int, to as int));
    }
    if start == to {
        proof {
            assert(strip_sign(e).len() == 0);
        }
        return false;
    }
    let mut i: usize = start;
    while i < to
        invariant
            from <= start <= i <= to <= v@.len(),
            e == v@.subrange(from as int, to as int),
            d == strip_sign(e),
            d == v@.subrange(start as int, to as int),
            forall|j: int| 0 <= j < i - start ==> is_digit(d[j]),
        decreases to - i,
    {
        let c = v[i];
        proof {
            assert(d[i - start] == c);
        }
        if !('0' <= c && c <= '9') {
            proof {
                assert(!is_digit(d[i - start]));
                assert(0 <= i - start < d.len());
                assert(!all_digits(d));
            }
            return false;
        }
        i = i + 1;
    }
    proof {
        assert(all_digits(d));
    }
    true
}

/// Whether the characters of `v` match the numeric grammar.
pub fn is_numeric(v: &Vec<char>) -> (r: bool)
    ensures
        r == spec_is_numeric(v@),
{
    let n = v.len();
    let start: usize = if n > 0 && (v[0] == '+' || v[0] == '-') {
        1
    } else {
        0
    };
    let ghost m = strip_sign(v@);
    proof {
        assert(m =~= v@.subrange(start as int, n as int));
    }
    // Look for the first exponent mark after the sign.
    let mut i: usize = start;
    while i < n
        invariant
            start <= i <= n == v@.len(),
            m == strip_sign(v@),
            m == v@.subrange(start as int, n as int),
            forall|j: int| 0 <= j < i - start ==> !is_exp_mark(m[j]),
        decreases n - i,
    {
        let c = v[i];
        proof {
            assert(m[i - start] == c);
        }
        if c == 'e' || c == 'E' {
            let ghost k: int = i - start;
            let mant = mantissa_ok(v, start, i);
            let expo = if mant {
                exponent_ok(v, i + 1, n)
            } else {
                false
            };
            proof {
                assert(m.take(k) =~= v@.subrange(start as int, i as int));
                assert(m.skip(k + 1) =~= v@.subrange(i + 1, n as int));
                assert(!(is_digit(m[k]) || m[k] == '.'));
            }
            if mant && expo {
                proof {
                    assert(0 <= k < m.len() && is_exp_mark(m[k]) && valid_mantissa(m.take(k))
                        && valid_exponent(m.skip(k + 1)));
                }
                return true;
            }
            proof {
                // The exponent mark at `k` rules the whole of `m` out as a
                // mantissa, and any split point other than `k` as well.
                assert(!valid_mantissa(m));
                assert forall|k2: int|
                    0 <= k2 < m.len() && #[trigger] is_exp_mark(m[k2]) implies !(valid_mantissa(
                    m.take(k2)) && valid_exponent(m.skip(k2 + 1))) by {
                    if k2 < k {
                        assert(!is_exp_mark(m[k2]));
                    } else if k2 > k {
                        assert(m.take(k2)[k] == m[k]);
                        assert(!valid_mantissa(m.take(k2)));
                    } else {
                        assert(!(valid_mantissa(m.take(k)) && valid_exponent(m.skip(k + 1))));
                    }
                }
            }
            return false;
        }
        i = i + 1;
    }
    // No exponent mark anywhere in `m`.
    let r = mantissa_ok(v, start, n);
    proof {
        assert(m.take(m.len() as int) =~= m);
        if !r {
            assert forall|k2: int|
                0 <= k2 < m.len() implies !(#[trigger] is_exp_mark(m[k2]) && valid_mantissa(
                m.take(k2)) && valid_exponent(m.skip(k2 + 1))) by {
                assert(!is_exp_mark(m[k2]));
            }
        }
    }
    r
}

} // verus!
