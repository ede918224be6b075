//! Decimal arithmetic on digit strings: the value a string of digits spells,
//! and whether a decimal `M` times 2^1075 stays within a power of ten, which
//! is how far a number is from the smallest positive `f64` (2^-1074).

use vstd::arithmetic::power::{
    lemma_pow_increases, lemma_pow_multiplies, lemma_pow_positive, lemma_pow_strictly_increases, pow,
};
use vstd::prelude::*;

use crate::json::{digits_value, is_digit};

verus! {

/// The value of digits stored lowest first.
pub open spec fn le_value(v: Seq<u8>) -> int
    decreases v.len(),
{
    if v.len() == 0 {
        0
    } else {
        le_value(v.drop_last()) + (v.last() as int) * pow(10, (v.len() - 1) as nat)
    }
}

/// Every entry is a decimal digit.
pub open spec fn small_digits(v: Seq<u8>) -> bool {
    forall|i: int| 0 <= i < v.len() ==> #[trigger] v[i] < 10
}

/// Every character is a decimal digit.
pub open spec fn all_digits(s: Seq<char>) -> bool {
    forall|i: int| 0 <= i < s.len() ==> is_digit(#[trigger] s[i])
}

proof fn lemma_pow_succ(b: int, e: nat)
    ensures
        pow(b, e + 1) == b * pow(b, e),
{
    reveal(pow);
}

/// Digits stored lowest first stay below the next power of ten.
proof fn lemma_le_bounds(v: Seq<u8>)
    requires
        small_digits(v),
    ensures
        0 <= le_value(v) < pow(10, v.len()),
    decreases v.len(),
{
    reveal(pow);
    if v.len() > 0 {
        let dl = v.drop_last();
        assert(small_digits(dl)) by {
            assert forall|i: int| 0 <= i < dl.len() implies #[trigger] dl[i] < 10 by {
                assert(dl[i] == v[i]);
            }
        }
        lemma_le_bounds(dl);
        let p = pow(10, dl.len());
        lemma_pow_positive(10, dl.len());
        lemma_pow_succ(10, dl.len());
        let t = v.last() as int;
        assert(v[v.len() - 1] < 10);
        assert(0 <= t * p <= 9 * p) by (nonlinear_arith)
            requires
                0 <= t <= 9,
                p > 0,
        ;
    }
}

/// With a nonzero top digit, the value is at least that power of ten, and
/// equal to it only when the top digit is one and the rest are zero.
proof fn lemma_le_top(v: Seq<u8>)
    requires
        small_digits(v),
        v.len() > 0,
        v.last() != 0,
    ensures
        le_value(v) >= pow(10, (v.len() - 1) as nat),
        le_value(v) == pow(10, (v.len() - 1) as nat) <==> (v.last() == 1 && le_value(v.drop_last()) == 0),
{
    let dl = v.drop_last();
    assert(small_digits(dl)) by {
        assert forall|i: int| 0 <= i < dl.len() implies #[trigger] dl[i] < 10 by {
            assert(dl[i] == v[i]);
        }
    }
    lemma_le_bounds(dl);
    let p = pow(10, dl.len());
    lemma_pow_positive(10, dl.len());
    let t = v.last() as int;
    assert(t * p >= p && (t >= 2 ==> t * p >= 2 * p) && (t == 1 ==> t * p == p)) by (nonlinear_arith)
        requires
            t >= 1,
            p > 0,
    ;
}

/// Digits stored lowest first spell zero only when they are all zero.
proof fn lemma_le_zero(v: Seq<u8>)
    requires
        small_digits(v),
    ensures
        (le_value(v) == 0) <==> (forall|i: int| 0 <= i < v.len() ==> #[trigger] v[i] == 0),
    decreases v.len(),
{
    if v.len() > 0 {
        let dl = v.drop_last();
        assert(small_digits(dl)) by {
            assert forall|i: int| 0 <= i < dl.len() implies #[trigger] dl[i] < 10 by {
                assert(dl[i] == v[i]);
            }
        }
        lemma_le_zero(dl);
        lemma_le_bounds(dl);
        let p = pow(10, dl.len());
        lemma_pow_positive(10, dl.len());
        let t = v.last() as int;
        assert((t * p == 0) <==> t == 0) by (nonlinear_arith)
            requires
                t >= 0,
                p > 0,
        ;
        if le_value(v) == 0 {
            assert forall|i: int| 0 <= i < v.len() implies #[trigger] v[i] == 0 by {
                if i < dl.len() {
                    assert(dl[i] == v[i]);
                }
            }
        }
        if forall|i: int| 0 <= i < v.len() ==> #[trigger] v[i] == 0 {
            assert forall|i: int| 0 <= i < dl.len() implies #[trigger] dl[i] == 0 by {
                assert(dl[i] == v[i]);
            }
            assert(v[v.len() - 1] == 0);
        }
    }
}

/// The digits of a concatenation spell the first part shifted past the
/// second.
pub proof fn lemma_digits_append(t1: Seq<char>, t2: Seq<char>)
    ensures
        digits_value(t1 + t2) == digits_value(t1) * pow(10, t2.len()) + digits_value(t2),
    decreases t2.len(),
{
    reveal(pow);
    if t2.len() == 0 {
        assert(t1 + t2 =~= t1);
    } else {
        let t = t1 + t2;
        assert(t.drop_last() =~= t1 + t2.drop_last());
        lemma_digits_append(t1, t2.drop_last());
        let a = digits_value(t1);
        let p = pow(10, t2.drop_last().len());
        let b = digits_value(t2.drop_last());
        let c = ((t2.last() as nat) - ('0' as nat)) as nat;
        assert(t.last() == t2.last());
        lemma_pow_succ(10, t2.drop_last().len());
        assert((a * p + b) * 10 + c == a * (10 * p) + (b * 10 + c)) by (nonlinear_arith);
    }
}

/// A string of `n` digits spells a number below 10^n.
pub proof fn lemma_digits_upper(t: Seq<char>)
    requires
        all_digits(t),
    ensures
        digits_value(t) < pow(10, t.len()),
    decreases t.len(),
{
    reveal(pow);
    if t.len() > 0 {
        let dl = t.drop_last();
        assert(all_digits(dl)) by {
            assert forall|i: int| 0 <= i < dl.len() implies is_digit(#[trigger] dl[i]) by {
                assert(dl[i] == t[i]);
            }
        }
        lemma_digits_upper(dl);
        assert(is_digit(t[t.len() - 1]));
        lemma_pow_succ(10, dl.len());
        let p = pow(10, dl.len());
        let a = digits_value(dl);
        let c = ((t.last() as nat) - ('0' as nat)) as nat;
        assert(a * 10 + c < 10 * p) by (nonlinear_arith)
            requires
                a < p,
                c <= 9,
        ;
    }
}

/// 2^1075 is below 10^538 (2^1076 = 16^269 < 100^269).
pub proof fn lemma_two_pow_bound()
    ensures
        pow(2, 1075) < pow(10, 538),
{
    reveal_with_fuel(pow, 5);
    assert(pow(2, 4) == 16);
    assert(pow(10, 2) == 100);
    lemma_pow_multiplies(2, 4, 269);
    lemma_pow_multiplies(10, 2, 269);
    lemma_pow_base_lt(16, 100, 269);
    lemma_pow_strictly_increases(2, 1075, 1076);
}

proof fn lemma_pow_base_lt(a: int, b: int, e: nat)
    requires
        0 < a < b,
        e > 0,
    ensures
        pow(a, e) < pow(b, e),
    decreases e,
{
    reveal(pow);
    if e > 1 {
        lemma_pow_base_lt(a, b, (e - 1) as nat);
        lemma_pow_positive(a, (e - 1) as nat);
        let x = pow(a, (e - 1) as nat);
        let y = pow(b, (e - 1) as nat);
        assert(a * x < b * y) by (nonlinear_arith)
            requires
                0 < a < b,
                0 < x < y,
        ;
    } else {
        assert(pow(a, 0) == 1 && pow(b, 0) == 1);
    }
}

/// The digits of `s` (a string of decimal digits), stored lowest first.
fn from_decimal(s: &Vec<char>) -> (v: Vec<u8>)
    requires
        all_digits(s@),
    ensures
        small_digits(v@),
        le_value(v@) == digits_value(s@),
{
    let d = s.len();
    let mut v: Vec<u8> = Vec::new();
    let mut i: usize = 0;
    while i < d
        invariant
            i <= d,
            d == s@.len(),
            all_digits(s@),
            v@.len() == i,
            small_digits(v@),
            le_value(v@) == digits_value(s@.subrange(d - i, d as int)),
        decreases d - i,
    {
        let c = s[d - 1 - i];
        proof {
            assert(is_digit(s@[d - 1 - i]));
        }
        let x: u8 = ((c as u32) - ('0' as u32)) as u8;
        let ghost before = v@;
        v.push(x);
        proof {
            assert(v@.drop_last() =~= before);
            let tail = s@.subrange(d - i, d as int);
            let t1 = seq![c];
            assert(s@.subrange(d - i - 1, d as int) =~= t1 + tail);
            lemma_digits_append(t1, tail);
            assert(t1.drop_last() =~= Seq::<char>::empty());
            assert((c as u32) as int == c as int);
            assert(x as int == (c as int) - ('0' as int));
            assert(digits_value(t1) == digits_value(t1.drop_last()) * 10 + ((t1.last() as nat) - ('0' as nat)) as nat);
            assert(digits_value(t1) == x as nat);
            assert forall|j: int| 0 <= j < v@.len() implies #[trigger] v@[j] < 10 by {
                if j < i {
                    assert(v@[j] == before[j]);
                }
            }
        }
        i = i + 1;
    }
    proof {
        assert(s@.subrange(0, d as int) =~= s@);
    }
    v
}

/// Doubles a number whose digits are stored lowest first.
fn double(v: &mut Vec<u8>)
    requires
        small_digits(old(v)@),
    ensures
        small_digits(final(v)@),
        le_value(final(v)@) == 2 * le_value(old(v)@),
{
    let n = v.len();
    let mut w: Vec<u8> = Vec::new();
    let mut carry: u8 = 0;
    let mut i: usize = 0;
    while i < n
        invariant
            i <= n,
            n == v@.len(),
            small_digits(v@),
            w@.len() == i,
            small_digits(w@),
            carry <= 1,
            le_value(w@) + (carry as int) * pow(10, i as nat) == 2 * le_value(v@.take(i as int)),
        decreases n - i,
    {
        let t: u8 = 2 * v[i] + carry;
        let ghost before = w@;
        w.push(t % 10);
        proof {
            assert(v@[i as int] < 10);
            assert(w@.drop_last() =~= before);
            assert(v@.take(i + 1).drop_last() =~= v@.take(i as int));
            assert(v@.take(i + 1).last() == v@[i as int]);
            lemma_pow_succ(10, i as nat);
            let p = pow(10, i as nat);
            let tt = t as int;
            let vi = v@[i as int] as int;
            let c = carry as int;
            assert(((tt % 10) * p + (tt / 10) * (10 * p)) == (2 * vi + c) * p) by (nonlinear_arith)
                requires
                    tt == 2 * vi + c,
                    0 <= tt < 20,
            ;
            assert forall|j: int| 0 <= j < w@.len() implies #[trigger] w@[j] < 10 by {
                if j < i {
                    assert(w@[j] == before[j]);
                }
            }
        }
        let ghost c0 = carry as int;
        carry = t / 10;
        proof {
            let p = pow(10, i as nat);
            assert(le_value(w@) == le_value(before) + ((t % 10) as int) * p);
            assert(le_value(v@.take(i + 1)) == le_value(v@.take(i as int)) + (v@[i as int] as int) * p);
            assert(pow(10, (i + 1) as nat) == 10 * p);
            let lw = le_value(w@);
            let lb = le_value(before);
            let lt = le_value(v@.take(i as int));
            let tt = t as int;
            let vi = v@[i as int] as int;
            let ct = carry as int;
            assert(ct == tt / 10);
            assert(lw + ct * (10 * p) == 2 * (lt + vi * p)) by (nonlinear_arith)
                requires
                    lw == lb + (tt % 10) * p,
                    lb + c0 * p == 2 * lt,
                    tt == 2 * vi + c0,
                    ct == tt / 10,
                    0 <= tt < 20,
            ;
            assert(le_value(w@) + (carry as int) * pow(10, (i + 1) as nat) == 2 * le_value(v@.take(i + 1)));
        }
        i = i + 1;
    }
    proof {
        assert(v@.take(n as int) =~= v@);
    }
    if carry > 0 {
        let ghost before = w@;
        w.push(carry);
        proof {
            assert(w@.drop_last() =~= before);
            assert forall|j: int| 0 <= j < w@.len() implies #[trigger] w@[j] < 10 by {
                if j < n {
                    assert(w@[j] == before[j]);
                }
            }
        }
    }
    *v = w;
}

/// Whether `M * 2^1075 <= 10^k`, `M` being the number the digits `s` spell:
/// whether `M * 10^-k` is at most half the smallest positive `f64`, so that
/// reading it as an `f64` rounds it to zero.
pub fn scaled_at_most(s: &Vec<char>, k: u128) -> (r: bool)
    requires
        all_digits(s@),
    ensures
        r == (digits_value(s@) * pow(2, 1075) <= pow(10, k as nat)),
{
    let mut v = from_decimal(s);
    let mut i: u32 = 0;
    proof {
        vstd::arithmetic::power::lemma_pow0(2);
    }
    while i < 1075
        invariant
            i <= 1075,
            small_digits(v@),
            le_value(v@) == digits_value(s@) * pow(2, i as nat),
        decreases 1075 - i,
    {
        double(&mut v);
        proof {
            lemma_pow_succ(2, i as nat);
            let a = digits_value(s@) as int;
            let p = pow(2, i as nat);
            assert(2 * (a * p) == a * (2 * p)) by (nonlinear_arith);
        }
        i = i + 1;
    }
    let value = Ghost(le_value(v@));
    while v.len() > 0 && v[v.len() - 1] == 0
        invariant
            small_digits(v@),
            le_value(v@) == value@,
        decreases v.len(),
    {
        let ghost before = v@;
        v.pop();
        proof {
            assert(v@ =~= before.drop_last());
            assert(before.last() == 0);
            assert(le_value(before) == le_value(before.drop_last()) + 0 * pow(10, (before.len() - 1) as nat));
            assert(le_value(before) == le_value(v@));
            assert forall|j: int| 0 <= j < v@.len() implies #[trigger] v@[j] < 10 by {
                assert(v@[j] == before[j]);
            }
        }
    }
    let len = v.len();
    proof {
        lemma_le_bounds(v@);
        lemma_pow_positive(10, k as nat);
    }
    if len == 0 {
        return true;
    }
    proof {
        lemma_le_top(v@);
    }
    if (len as u128) <= k {
        proof {
            lemma_pow_increases(10, len as nat, k as nat);
        }
        return true;
    }
    if (len as u128) > k + 1 {
        proof {
            lemma_pow_strictly_increases(10, k as nat, (len - 1) as nat);
        }
        return false;
    }
    let rest_zero = lower_digits_zero(&v);
    proof {
        let dl = v@.drop_last();
        assert(small_digits(dl)) by {
            assert forall|q: int| 0 <= q < dl.len() implies #[trigger] dl[q] < 10 by {
                assert(dl[q] == v@[q]);
            }
        }
        lemma_le_zero(dl);
        if rest_zero {
            assert forall|q: int| 0 <= q < dl.len() implies #[trigger] dl[q] == 0 by {
                assert(dl[q] == v@[q]);
            }
        } else {
            let q = choose|q: int| 0 <= q < len - 1 && v@[q] != 0;
            assert(dl[q] != 0);
        }
    }
    rest_zero && v[len - 1] == 1
}

/// Whether every digit but the top one is zero.
fn lower_digits_zero(v: &Vec<u8>) -> (r: bool)
    requires
        v@.len() > 0,
    ensures
        r == (forall|q: int| 0 <= q < v@.len() - 1 ==> #[trigger] v@[q] == 0),
{
    let len = v.len();
    let mut j: usize = 0;
    while j < len - 1
        invariant
            j <= len - 1,
            len == v@.len(),
            forall|q: int| 0 <= q < j ==> #[trigger] v@[q] == 0,
        decreases len - 1 - j,
    {
        if v[j] != 0 {
            return false;
        }
        j = j + 1;
    }
    true
}


} // verus!
