use vstd::prelude::*;

verus! {

pub open spec fn is_digit(b: u8) -> bool {
    48 <= b <= 57
}

pub open spec fn all_digits(s: Seq<u8>) -> bool {
    forall|i: int| 0 <= i < s.len() ==> is_digit(#[trigger] s[i])
}

/// The number written by a run of decimal digits.
pub open spec fn digits_value(s: Seq<u8>) -> int
    decreases s.len(),
{
    if s.len() == 0 {
        0
    } else {
        digits_value(s.drop_last()) * 10 + (s.last() - 48)
    }
}

/// The integer a token denotes as an `i64` literal: an optional `+` or `-`,
/// then one or more decimal digits, with a value that fits in an `i64`.
pub open spec fn int_of(s: Seq<u8>) -> Option<i64> {
    if s.len() > 0 && s[0] == 45 {
        let d = s.drop_first();
        if d.len() > 0 && all_digits(d) && digits_value(d) <= 9223372036854775808 {
            Some((-digits_value(d)) as i64)
        } else {
            None
        }
    } else {
        let d = if s.len() > 0 && s[0] == 43 {
            s.drop_first()
        } else {
            s
        };
        if d.len() > 0 && all_digits(d) && digits_value(d) <= 9223372036854775807 {
            Some(digits_value(d) as i64)
        } else {
            None
        }
    }
}

/// Index of the first byte of `s` that is `a` or `b`; `s.len()` when there is none.
pub open spec fn find_either(s: Seq<u8>, a: u8, b: u8) -> int
    decreases s.len(),
{
    if s.len() == 0 {
        0
    } else if s[0] == a || s[0] == b {
        0
    } else {
        1 + find_either(s.drop_first(), a, b)
    }
}

/// Digits with at most one `.`, and at least one digit.
pub open spec fn is_mantissa(s: Seq<u8>) -> bool {
    let k = find_either(s, 46, 46);
    if k == s.len() {
        s.len() > 0 && all_digits(s)
    } else {
        all_digits(s.take(k)) && all_digits(s.skip(k + 1)) && s.len() > 1
    }
}

pub open spec fn is_sign(b: u8) -> bool {
    b == 43 || b == 45
}

/// An exponent after the `e`: an optional sign and one or more digits.
pub open spec fn is_exponent(s: Seq<u8>) -> bool {
    let d = if s.len() > 0 && is_sign(s[0]) {
        s.drop_first()
    } else {
        s
    };
    d.len() > 0 && all_digits(d)
}

/// A mantissa with an optional exponent.
pub open spec fn is_decimal(s: Seq<u8>) -> bool {
    let k = find_either(s, 101, 69);
    if k == s.len() {
        is_mantissa(s)
    } else {
        is_mantissa(s.take(k)) && is_exponent(s.skip(k + 1))
    }
}

pub open spec fn ascii_lower(b: u8) -> u8 {
    if 65 <= b <= 90 {
        (b + 32) as u8
    } else {
        b
    }
}

/// `s` equals `lit` when ASCII letters are compared without case.
pub open spec fn same_ignoring_case(s: Seq<u8>, lit: Seq<u8>) -> bool {
    s.len() == lit.len() && forall|i: int| 0 <= i < s.len() ==> ascii_lower(#[trigger] s[i]) == lit[i]
}

pub open spec fn inf_text() -> Seq<u8> {
    seq![105u8, 110, 102]
}

pub open spec fn infinity_text() -> Seq<u8> {
    seq![105u8, 110, 102, 105, 110, 105, 116, 121]
}

pub open spec fn nan_text() -> Seq<u8> {
    seq![110u8, 97, 110]
}

/// Whether a token is a floating-point literal in the grammar that `f64`'s
/// `FromStr` documents: an optional sign, then `inf`, `infinity`, `nan`
/// (any case) or a decimal with an optional exponent.
pub open spec fn is_float_syntax(s: Seq<u8>) -> bool {
    let m = if s.len() > 0 && is_sign(s[0]) {
        s.drop_first()
    } else {
        s
    };
    same_ignoring_case(m, inf_text()) || same_ignoring_case(m, infinity_text())
        || same_ignoring_case(m, nan_text()) || is_decimal(m)
}

proof fn lemma_digits_prefix(d: Seq<u8>, k: int)
    requires
        all_digits(d),
        0 <= k <= d.len(),
    ensures
        digits_value(d.take(k)) <= digits_value(d),
        digits_value(d) >= 0,
    decreases d.len(),
{
    if d.len() > 0 {
        let p = d.drop_last();
        assert(all_digits(p)) by {
            assert forall|i: int| 0 <= i < p.len() implies is_digit(#[trigger] p[i]) by {
                assert(p[i] == d[i]);
            }
        }
        assert(is_digit(d[d.len() - 1]));
        if k < d.len() {
            lemma_digits_prefix(p, k);
            assert(p.take(k) =~= d.take(k));
        } else {
            lemma_digits_prefix(p, 0);
            assert(d.take(k) =~= d);
        }
    } else {
        assert(d.take(k) =~= d);
    }
}

pub proof fn lemma_find_either(s: Seq<u8>, a: u8, b: u8, i: int)
    requires
        0 <= i <= s.len(),
        forall|j: int| 0 <= j < i ==> s[j] != a && s[j] != b,
        i == s.len() || s[i] == a || s[i] == b,
    ensures
        find_either(s, a, b) == i,
    decreases i,
{
    if i > 0 {
        let t = s.drop_first();
        assert forall|j: int| 0 <= j < i - 1 implies t[j] != a && t[j] != b by {
            assert(t[j] == s[j + 1]);
        }
        if i < s.len() {
            assert(t[i - 1] == s[i]);
        }
        lemma_find_either(t, a, b, i - 1);
    }
}

/// Index of the first byte of `s` that is `a` or `b`, or `s.len()`.
fn find_either_exec(s: &[u8], a: u8, b: u8) -> (r: usize)
    ensures
        r == find_either(s@, a, b),
        r <= s@.len(),
{
    let mut i: usize = 0;
    while i < s.len()
        invariant
            i <= s@.len(),
            forall|j: int| 0 <= j < i ==> s@[j] != a && s@[j] != b,
        decreases s@.len() - i,
    {
        if s[i] == a || s[i] == b {
            proof {
                lemma_find_either(s@, a, b, i as int);
            }
            return i;
        }
        i = i + 1;
    }
    proof {
        lemma_find_either(s@, a, b, i as int);
    }
    i
}

fn all_digits_exec(s: &[u8], from: usize, to: usize) -> (r: bool)
    requires
        from <= to <= s@.len(),
    ensures
        r == all_digits(s@.subrange(from as int, to as int)),
{
    let mut i: usize = from;
    while i < to
        invariant
            from <= i <= to,
            to <= s@.len(),
            forall|j: int| from <= j < i ==> is_digit(s@[j]),
        decreases to - i,
    {
        if !(48 <= s[i] && s[i] <= 57) {
            assert(s@.subrange(from as int, to as int)[i - from] == s@[i as int]);
            return false;
        }
        i = i + 1;
    }
    assert forall|j: int| 0 <= j < to - from implies is_digit(
        #[trigger] s@.subrange(from as int, to as int)[j],
    ) by {
        assert(s@.subrange(from as int, to as int)[j] == s@[from + j]);
    }
    true
}

/// The integer a token denotes, as `int_of` states it.
pub fn parse_int(s: &[u8]) -> (r: Option<i64>)
    ensures
        r == int_of(s@),
{
    let n = s.len();
    if n == 0 {
        return None;
    }
    let neg = s[0] == 45;
    let start: usize = if s[0] == 45 || s[0] == 43 {
        1
    } else {
        0
    };
    let ghost d = s@.subrange(start as int, n as int);
    assert(start == 1 ==> d =~= s@.drop_first());
    assert(start == 0 ==> d =~= s@);
    if start == n {
        return None;
    }
    let mut v: u64 = 0;
    let mut i: usize = start;
    while i < n
        invariant
            start <= i <= n,
            n == s@.len(),
            d == s@.subrange(start as int, n as int),
            start == 1 ==> d == s@.drop_first(),
            start == 0 ==> d == s@,
            n > 0,
            start <= 1,
            neg == (s@[0] == 45),
            (start == 1) == (s@[0] == 45 || s@[0] == 43),
            v as int == digits_value(s@.subrange(start as int, i as int)),
            v <= 9223372036854775808,
            all_digits(s@.subrange(start as int, i as int)),
        decreases n - i,
    {
        let b = s[i];
        let ghost pre = s@.subrange(start as int, i as int);
        let ghost next = s@.subrange(start as int, i + 1);
        assert(next.drop_last() =~= pre);
        assert(d[i - start] == b);
        if !(48 <= b && b <= 57) {
            assert(!is_digit(d[i - start]));
            return None;
        }
        assert(digits_value(next) == digits_value(pre) * 10 + (b - 48));
        assert(all_digits(next)) by {
            assert forall|j: int| 0 <= j < next.len() implies is_digit(#[trigger] next[j]) by {
                if j < pre.len() {
                    assert(next[j] == pre[j]);
                }
            }
        }
        if v > 922337203685477580 {
            proof {
                assert(digits_value(pre) * 10 >= 9223372036854775810) by (nonlinear_arith)
                    requires digits_value(pre) > 922337203685477580;
                if all_digits(d) {
                    assert(d.take(i + 1 - start) =~= next);
                    lemma_digits_prefix(d, i + 1 - start);
                    assert(digits_value(d) > 9223372036854775808);
                }
                assert(int_of(s@) is None);
            }
            return None;
        }
        let nv = v * 10 + (b - 48) as u64;
        if nv > 9223372036854775808 {
            proof {
                if all_digits(d) {
                    assert(d.take(i + 1 - start) =~= next);
                    lemma_digits_prefix(d, i + 1 - start);
                    assert(digits_value(d) > 9223372036854775808);
                }
                assert(int_of(s@) is None);
            }
            return None;
        }
        v = nv;
        i = i + 1;
    }
    assert(s@.subrange(start as int, i as int) =~= d);
    if neg {
        if v == 9223372036854775808 {
            Some(i64::MIN)
        } else {
            Some(-(v as i64))
        }
    } else if v > 9223372036854775807 {
        None
    } else {
        Some(v as i64)
    }
}

/// The bytes of `s` from `from` up to `to`.
fn bytes_between(s: &[u8], from: usize, to: usize) -> (r: Vec<u8>)
    requires
        from <= to <= s@.len(),
    ensures
        r@ == s@.subrange(from as int, to as int),
{
    let mut r: Vec<u8> = Vec::new();
    let mut i: usize = from;
    while i < to
        invariant
            from <= i <= to,
            to <= s@.len(),
            r@ == s@.subrange(from as int, i as int),
        decreases to - i,
    {
        r.push(s[i]);
        assert(s@.subrange(from as int, i + 1) =~= s@.subrange(from as int, i as int).push(s@[i as int]));
        i = i + 1;
    }
    r
}

fn same_ignoring_case_exec(s: &[u8], lit: &[u8]) -> (r: bool)
    ensures
        r == same_ignoring_case(s@, lit@),
{
    if s.len() != lit.len() {
        return false;
    }
    let mut i: usize = 0;
    while i < s.len()
        invariant
            s@.len() == lit@.len(),
            i <= s@.len(),
            forall|j: int| 0 <= j < i ==> ascii_lower(#[trigger] s@[j]) == lit@[j],
        decreases s@.len() - i,
    {
        let b = s[i];
        let lower = if 65 <= b && b <= 90 {
            b + 32
        } else {
            b
        };
        if lower != lit[i] {
            return false;
        }
        i = i + 1;
    }
    true
}

fn is_mantissa_exec(s: &[u8]) -> (r: bool)
    ensures
        r == is_mantissa(s@),
{
    let n = s.len();
    let k = find_either_exec(s, 46, 46);
    if k == n {
        assert(s@.subrange(0, n as int) =~= s@);
        n > 0 && all_digits_exec(s, 0, n)
    } else {
        assert(s@.subrange(0, k as int) =~= s@.take(k as int));
        assert(s@.subrange(k + 1, n as int) =~= s@.skip(k + 1));
        all_digits_exec(s, 0, k) && all_digits_exec(s, k + 1, n) && n > 1
    }
}

fn is_exponent_exec(s: &[u8]) -> (r: bool)
    ensures
        r == is_exponent(s@),
{
    let n = s.len();
    let start: usize = if n > 0 && (s[0] == 43 || s[0] == 45) {
        1
    } else {
        0
    };
    assert(start == 1 ==> s@.subrange(1, n as int) =~= s@.drop_first());
    assert(start == 0 ==> s@.subrange(0, n as int) =~= s@);
    n > start && all_digits_exec(s, start, n)
}

fn is_decimal_exec(s: &[u8]) -> (r: bool)
    ensures
        r == is_decimal(s@),
{
    let n = s.len();
    let k = find_either_exec(s, 101, 69);
    if k == n {
        is_mantissa_exec(s)
    } else {
        let a = bytes_between(s, 0, k);
        let b = bytes_between(s, k + 1, n);
        assert(a@ =~= s@.take(k as int));
        assert(b@ =~= s@.skip(k + 1));
        is_mantissa_exec(a.as_slice()) && is_exponent_exec(b.as_slice())
    }
}

/// Whether a token is a floating-point literal, as `is_float_syntax` states it.
pub fn is_float_literal(s: &[u8]) -> (r: bool)
    ensures
        r == is_float_syntax(s@),
{
    let n = s.len();
    let m = if n > 0 && (s[0] == 43 || s[0] == 45) {
        bytes_between(s, 1, n)
    } else {
        bytes_between(s, 0, n)
    };
    assert(n > 0 && is_sign(s@[0]) ==> m@ =~= s@.drop_first());
    assert(!(n > 0 && is_sign(s@[0])) ==> m@ =~= s@);
    let inf: Vec<u8> = vec![105u8, 110, 102];
    let infinity: Vec<u8> = vec![105u8, 110, 102, 105, 110, 105, 116, 121];
    let nan: Vec<u8> = vec![110u8, 97, 110];
    assert(inf@ =~= inf_text());
    assert(infinity@ =~= infinity_text());
    assert(nan@ =~= nan_text());
    same_ignoring_case_exec(m.as_slice(), inf.as_slice()) || same_ignoring_case_exec(
        m.as_slice(),
        infinity.as_slice(),
    ) || same_ignoring_case_exec(m.as_slice(), nan.as_slice()) || is_decimal_exec(m.as_slice())
}

} // verus!
