//! Store credit. A balance hangs off a customer's `storeCreditAccounts`, so an
//! export walks customers and keeps those with a non-zero balance, and an
//! import finds each customer by email in the target store and credits the
//! account. Only current balances are reproduced.

use vstd::prelude::*;

use crate::json::{
    digits_value, entries_view, entry, filter_some, is_digit, lemma_entries_view, lemma_filter_some_push,
    owned, seq_view, str_eq, Json, JsonV,
};
use crate::lookup::IdTable;
use crate::resource::{kind_name, mutation_payload, payload_of, ResourceKind};
use crate::text::{ascii_lower, chars_of, string_from, to_ascii_lowercase};
use crate::decimal::{all_digits, lemma_digits_upper, lemma_two_pow_bound, scaled_at_most};
use vstd::arithmetic::power::{lemma_pow_adds, lemma_pow_increases, lemma_pow_positive, pow};

verus! {

pub struct StoreCredit;

impl StoreCredit {
    /// The name used on the command line.
    pub fn name(&self) -> (r: &'static str)
        ensures
            r@ == kind_name(ResourceKind::StoreCredit),
    {
        "store_credit"
    }

    /// The resource kind this is.
    pub fn kind(&self) -> (r: ResourceKind)
        ensures
            r == ResourceKind::StoreCredit,
    {
        ResourceKind::StoreCredit
    }
}

/// An amount of money, as decimal text and a currency code.
pub struct Money {
    pub amount: String,
    pub currency_code: String,
}

/// One customer's store credit, as exported.
pub struct StoreCreditRecord {
    pub email: String,
    pub balances: Vec<Money>,
}

// ---- when an exported amount counts as zero ----
//
// An amount is decimal text. It is read as a number the way Rust's `f64`
// parser reads one: an optional sign, then `inf`, `infinity` or `nan` (in any
// case), or digits with at most one decimal point and an optional exponent.
// It counts as zero when it is such a number whose digits before the exponent
// are all `0`, when it is a number so small that the parser rounds it to
// `0.0` (at most half the smallest positive `f64`, 2^-1075, as `1e-400` is),
// or when it is not a number at all.

pub open spec fn sign_len(s: Seq<char>) -> int {
    if s.len() > 0 && (s[0] == '+' || s[0] == '-') {
        1
    } else {
        0
    }
}

pub open spec fn mantissa_char(c: char) -> bool {
    is_digit(c) || c == '.'
}

pub open spec fn is_exp_mark(c: char) -> bool {
    c == 'e' || c == 'E'
}

/// Digits with at most one decimal point, and at least one digit.
pub open spec fn mantissa_ok(m: Seq<char>) -> bool {
    &&& forall|i: int| 0 <= i < m.len() ==> mantissa_char(#[trigger] m[i])
    &&& forall|i: int, j: int| 0 <= i < j < m.len() ==> !(#[trigger] m[i] == '.' && #[trigger] m[j] == '.')
    &&& exists|i: int| 0 <= i < m.len() && is_digit(#[trigger] m[i])
}

/// An optional sign and at least one digit.
pub open spec fn exponent_ok(x: Seq<char>) -> bool {
    let d = x.skip(sign_len(x));
    d.len() > 0 && forall|i: int| 0 <= i < d.len() ==> is_digit(#[trigger] d[i])
}

/// Every digit is `0`.
pub open spec fn zero_digits(m: Seq<char>) -> bool {
    forall|i: int| 0 <= i < m.len() ==> (is_digit(#[trigger] m[i]) ==> m[i] == '0')
}

pub open spec fn special_value(b: Seq<char>) -> bool {
    let l = ascii_lower(b);
    l == "inf"@ || l == "infinity"@ || l == "nan"@
}

/// `b` (the text after the sign) is a number whose mantissa is `b[..p]`.
pub open spec fn number_split(b: Seq<char>, p: int) -> bool {
    &&& 0 <= p <= b.len()
    &&& mantissa_ok(b.take(p))
    &&& (p == b.len() || (is_exp_mark(b[p]) && exponent_ok(b.skip(p + 1))))
}

/// The digits of a mantissa, without its decimal point.
pub open spec fn mant_digits(m: Seq<char>) -> Seq<char>
    decreases m.len(),
{
    if m.len() == 0 {
        Seq::empty()
    } else if is_digit(m.last()) {
        mant_digits(m.drop_last()).push(m.last())
    } else {
        mant_digits(m.drop_last())
    }
}

/// How many digits follow the decimal point of a mantissa.
pub open spec fn frac_len(m: Seq<char>) -> int {
    if exists|i: int| 0 <= i < m.len() && m[i] == '.' {
        m.len() - 1 - (choose|i: int| 0 <= i < m.len() && m[i] == '.')
    } else {
        0
    }
}

/// The value of an exponent: an optional sign, then digits.
pub open spec fn exponent_value(x: Seq<char>) -> int {
    let v = digits_value(x.skip(sign_len(x))) as int;
    if x.len() > 0 && x[0] == '-' {
        -v
    } else {
        v
    }
}

/// The number `b` spells, split at `p` into mantissa and exponent, is
/// `M * 10^-k` for `M` its digits and `k` the digits after the point less
/// the exponent; it is at most 2^-1075 (half the smallest positive `f64`,
/// which an `f64` read rounds to `0.0`) when `M * 2^1075 <= 10^k`.
pub open spec fn underflows(b: Seq<char>, p: int) -> bool {
    let m = b.take(p);
    let x = if p < b.len() {
        exponent_value(b.skip(p + 1))
    } else {
        0
    };
    let k = frac_len(m) - x;
    k > 0 && digits_value(mant_digits(m)) * pow(2, 1075) <= pow(10, k as nat)
}

/// Whether an exported balance amount counts as zero (see above).
pub open spec fn counts_as_zero(s: Seq<char>) -> bool {
    let b = s.skip(sign_len(s));
    !special_value(b) && forall|p: int| number_split(b, p) ==> (zero_digits(b.take(p)) || underflows(b, p))
}

/// A number's mantissa ends at the first character that cannot be part of it.
proof fn lemma_split_unique(b: Seq<char>, p0: int)
    requires
        0 <= p0 <= b.len(),
        forall|j: int| 0 <= j < p0 ==> mantissa_char(#[trigger] b[j]),
        p0 == b.len() || !mantissa_char(b[p0]),
    ensures
        forall|p: int| #[trigger] number_split(b, p) ==> p == p0,
{
    assert forall|p: int| #[trigger] number_split(b, p) implies p == p0 by {
        if p < p0 {
            assert(mantissa_char(b[p]));
        } else if p > p0 {
            assert(b.take(p)[p0] == b[p0]);
            assert(mantissa_char(b.take(p)[p0]));
        }
    }
}

/// Whether the digits after an exponent mark, `cs[from..]`, make an exponent.
fn exponent_at(cs: &Vec<char>, from: usize) -> (r: bool)
    requires
        from <= cs@.len(),
    ensures
        r == exponent_ok(cs@.skip(from as int)),
{
    let ghost x = cs@.skip(from as int);
    let n = cs.len();
    let st = if from < n && (cs[from] == '+' || cs[from] == '-') {
        from + 1
    } else {
        from
    };
    assert(x.skip(sign_len(x)) =~= cs@.skip(st as int));
    if st == n {
        return false;
    }
    let mut k = st;
    while k < n
        invariant
            st <= k <= n,
            n == cs@.len(),
            x == cs@.skip(from as int),
            x.skip(sign_len(x)) == cs@.skip(st as int),
            forall|j: int| st <= j < k ==> is_digit(#[trigger] cs@[j]),
        decreases n - k,
    {
        if !(cs[k] >= '0' && cs[k] <= '9') {
            assert(cs@.skip(st as int)[k - st] == cs@[k as int]);
            assert(!is_digit(x.skip(sign_len(x))[k - st]));
            return false;
        }
        k = k + 1;
    }
    assert forall|i: int| 0 <= i < cs@.skip(st as int).len() implies is_digit(
        #[trigger] cs@.skip(st as int)[i],
    ) by {
        assert(cs@.skip(st as int)[i] == cs@[st + i]);
    }
    true
}

/// Whether the number `cs[st..]` spells, with mantissa `cs[st..k]` (its
/// decimal point, if any, at `dot_at`) and, when `k` is not the end, an
/// exponent after `cs[k]`, rounds to zero as an `f64` (see [`underflows`]).
fn underflows_at(cs: &Vec<char>, st: usize, k: usize, dot_at: Option<usize>) -> (r: bool)
    requires
        st <= k <= cs@.len(),
        forall|j: int| st <= j < k ==> mantissa_char(#[trigger] cs@[j]),
        match dot_at {
            Some(d) => st <= d < k && cs@[d as int] == '.' && forall|j: int|
                st <= j < k && j != d ==> #[trigger] cs@[j] != '.',
            None => forall|j: int| st <= j < k ==> #[trigger] cs@[j] != '.',
        },
        k == cs@.len() || exponent_ok(cs@.skip(k + 1)),
    ensures
        r == underflows(cs@.subrange(st as int, cs@.len() as int), k - st),
{
    let n = cs.len();
    let ghost b = cs@.subrange(st as int, n as int);
    let ghost m = b.take(k - st);
    proof {
        assert(m =~= cs@.subrange(st as int, k as int));
    }
    // the mantissa's digits
    let mut digits: Vec<char> = Vec::new();
    let mut j: usize = st;
    while j < k
        invariant
            st <= j <= k,
            k <= n,
            n == cs@.len(),
            forall|q: int| st <= q < k ==> mantissa_char(#[trigger] cs@[q]),
            digits@ == mant_digits(cs@.subrange(st as int, j as int)),
            all_digits(digits@),
        decreases k - j,
    {
        proof {
            let sub = cs@.subrange(st as int, j + 1);
            assert(sub.drop_last() =~= cs@.subrange(st as int, j as int));
            assert(sub.last() == cs@[j as int]);
            assert(mantissa_char(cs@[j as int]));
        }
        if cs[j] != '.' {
            let ghost before = digits@;
            digits.push(cs[j]);
            proof {
                assert forall|q: int| 0 <= q < digits@.len() implies is_digit(#[trigger] digits@[q]) by {
                    if q < before.len() {
                        assert(digits@[q] == before[q]);
                    }
                }
            }
        }
        j = j + 1;
    }
    // digits after the decimal point
    let frac: u128 = match dot_at {
        Some(d) => (k - d - 1) as u128,
        None => 0,
    };
    proof {
        match dot_at {
            Some(d) => {
                assert(m[d - st] == '.');
                let c = choose|i: int| 0 <= i < m.len() && m[i] == '.';
                assert(m[c] == cs@[st + c]);
                assert(c == d - st);
                assert(frac_len(m) == frac as int);
            },
            None => {
                assert forall|i: int| 0 <= i < m.len() implies m[i] != '.' by {
                    assert(m[i] == cs@[st + i]);
                }
                assert(frac_len(m) == 0);
            },
        }
    }
    let cap: u128 = (n as u128) + 1000;
    if k == n {
        proof {
            assert(!(k - st < b.len()));
        }
        return frac > 0 && scaled_at_most(&digits, frac);
    }
    // the exponent, saturated above `cap`
    let ghost x = cs@.skip(k + 1);
    let st2: usize = if k + 1 < n && (cs[k + 1] == '+' || cs[k + 1] == '-') {
        k + 2
    } else {
        k + 1
    };
    let negative = k + 1 < n && cs[k + 1] == '-';
    proof {
        assert(x.skip(sign_len(x)) =~= cs@.subrange(st2 as int, n as int));
        assert(b.skip(k - st + 1) =~= x);
    }
    let mut acc: u128 = 0;
    let mut q: usize = st2;
    while q < n
        invariant
            st2 <= q <= n,
            n == cs@.len(),
            cap == (n as u128) + 1000,
            exponent_ok(x),
            x == cs@.skip(k + 1),
            x.skip(sign_len(x)) == cs@.subrange(st2 as int, n as int),
            acc <= cap + 1,
            digits_value(cs@.subrange(st2 as int, q as int)) <= cap ==> acc == digits_value(
                cs@.subrange(st2 as int, q as int),
            ),
            digits_value(cs@.subrange(st2 as int, q as int)) > cap ==> acc == cap + 1,
        decreases n - q,
    {
        let ghost e0 = digits_value(cs@.subrange(st2 as int, q as int));
        proof {
            let sub = cs@.subrange(st2 as int, q + 1);
            assert(sub.drop_last() =~= cs@.subrange(st2 as int, q as int));
            assert(sub.last() == cs@[q as int]);
            assert(x.skip(sign_len(x))[q - st2] == cs@[q as int]);
            assert(is_digit(cs@[q as int]));
        }
        let dg: u128 = ((cs[q] as u32) - ('0' as u32)) as u128;
        proof {
            assert((cs@[q as int] as u32) as int == cs@[q as int] as int);
        }
        if acc <= cap {
            let next = acc * 10 + dg;
            acc = if next > cap {
                cap + 1
            } else {
                next
            };
        }
        q = q + 1;
    }
    let ghost xv = exponent_value(x);
    proof {
        assert(digits_value(x.skip(sign_len(x))) == digits_value(cs@.subrange(st2 as int, n as int)));
        assert(negative == (x.len() > 0 && x[0] == '-'));
        lemma_digits_upper(digits@);
    }
    if acc > cap {
        if !negative {
            return false;
        }
        proof {
            // k is at least n + 1001, far past the digits' 10^len * 10^538
            let big_m = digits_value(digits@) as int;
            let kk = frac_len(m) - xv;
            assert(digits@.len() <= n) by {
                assert(digits@ == mant_digits(cs@.subrange(st as int, k as int)));
                lemma_mant_digits_len(cs@.subrange(st as int, k as int));
            }
            lemma_two_pow_bound();
            lemma_pow_adds(10, digits@.len(), 538);
            lemma_pow_increases(10, digits@.len() + 538, kk as nat);
            lemma_pow_positive(2, 1075);
            let a = pow(10, digits@.len());
            let t = pow(2, 1075);
            assert(big_m * t <= a * pow(10, 538)) by (nonlinear_arith)
                requires
                    0 <= big_m < a,
                    0 < t < pow(10, 538),
            ;
        }
        return true;
    }
    let xval: i128 = if negative {
        -(acc as i128)
    } else {
        acc as i128
    };
    let kk: i128 = (frac as i128) - xval;
    if kk <= 0 {
        return false;
    }
    scaled_at_most(&digits, kk as u128)
}

proof fn lemma_mant_digits_len(m: Seq<char>)
    ensures
        mant_digits(m).len() <= m.len(),
    decreases m.len(),
{
    if m.len() > 0 {
        lemma_mant_digits_len(m.drop_last());
    }
}

/// Whether an exported balance amount counts as zero (see [`counts_as_zero`]).
pub fn amount_is_zero(amount: &str) -> (r: bool)
    ensures
        r == counts_as_zero(amount@),
{
    let cs = chars_of(amount);
    let n = cs.len();
    let st: usize = if n > 0 && (cs[0] == '+' || cs[0] == '-') {
        1
    } else {
        0
    };
    let ghost b = amount@.skip(st as int);
    assert(st == sign_len(amount@));
    assert(b =~= cs@.subrange(st as int, n as int));
    let rest = string_from(&cs, st, n);
    let low = to_ascii_lowercase(rest.as_str());
    if str_eq(low.as_str(), "inf") || str_eq(low.as_str(), "infinity") || str_eq(
        low.as_str(),
        "nan",
    ) {
        return false;
    }
    assert(!special_value(b));
    let mut k = st;
    let mut dot_at: Option<usize> = None;
    let mut digit_at: Option<usize> = None;
    let mut nonzero_at: Option<usize> = None;
    while k < n && (cs[k] == '.' || (cs[k] >= '0' && cs[k] <= '9'))
        invariant
            st <= k <= n,
            n == cs@.len(),
            cs@ == amount@,
            b == cs@.subrange(st as int, n as int),
            b == amount@.skip(sign_len(amount@)),
            !special_value(b),
            forall|j: int| st <= j < k ==> mantissa_char(#[trigger] cs@[j]),
            match dot_at {
                Some(d) => st <= d < k && cs@[d as int] == '.' && forall|j: int|
                    st <= j < k && j != d ==> #[trigger] cs@[j] != '.',
                None => forall|j: int| st <= j < k ==> #[trigger] cs@[j] != '.',
            },
            match digit_at {
                Some(d) => st <= d < k && is_digit(cs@[d as int]),
                None => forall|j: int| st <= j < k ==> !is_digit(#[trigger] cs@[j]),
            },
            match nonzero_at {
                Some(d) => st <= d < k && is_digit(cs@[d as int]) && cs@[d as int] != '0',
                None => forall|j: int| st <= j < k ==> (is_digit(#[trigger] cs@[j]) ==> cs@[j] == '0'),
            },
        decreases n - k,
    {
        if cs[k] == '.' {
            if let Some(d) = dot_at {
                // A second decimal point: no prefix of the text is a mantissa
                // that an exponent or the end follows.
                proof {
                    assert(cs@[k as int] == '.');
                    assert forall|p: int| number_split(b, p) implies zero_digits(b.take(p)) by {
                        if p > k - st {
                            let m = b.take(p);
                            assert(m[d - st] == '.' && m[k - st] == '.');
                        } else {
                            assert(b[p] == cs@[st + p]);
                            assert(mantissa_char(cs@[st + p]));
                        }
                    }
                }
                return true;
            }
            dot_at = Some(k);
        } else {
            if digit_at.is_none() {
                digit_at = Some(k);
            }
            if cs[k] != '0' && nonzero_at.is_none() {
                nonzero_at = Some(k);
            }
        }
        k = k + 1;
    }
    let ghost p0 = k - st;
    proof {
        assert forall|j: int| 0 <= j < p0 implies mantissa_char(#[trigger] b[j]) by {
            assert(b[j] == cs@[st + j]);
        }
        if p0 < b.len() {
            assert(b[p0] == cs@[k as int]);
        }
        lemma_split_unique(b, p0);
    }
    let tail_ok = if k == n {
        true
    } else if cs[k] == 'e' || cs[k] == 'E' {
        let ok = exponent_at(&cs, k + 1);
        proof {
            assert(b.skip(p0 + 1) =~= cs@.skip(k + 1));
        }
        ok
    } else {
        false
    };
    let mant_ok = digit_at.is_some();
    proof {
        let m = b.take(p0);
        assert forall|j: int| 0 <= j < m.len() implies #[trigger] m[j] == cs@[st + j] by {}
        if mant_ok {
            let d = digit_at->Some_0;
            assert(is_digit(m[d - st]));
            assert forall|i: int, j: int| 0 <= i < j < m.len() implies !(#[trigger] m[i] == '.'
                && #[trigger] m[j] == '.') by {
                assert(m[i] == cs@[st + i]);
                assert(m[j] == cs@[st + j]);
            }
            assert(mantissa_ok(m));
        } else {
            assert(!mantissa_ok(m));
        }
        match nonzero_at {
            Some(d) => {
                assert(m[d - st] == cs@[d as int]);
                assert(!zero_digits(m));
            },
            None => {
                assert(zero_digits(m));
            },
        }
        if !(k == n || cs@[k as int] == 'e' || cs@[k as int] == 'E') {
            assert(!number_split(b, p0));
        }
        assert(number_split(b, p0) == (mant_ok && tail_ok));
        assert(counts_as_zero(amount@) == (number_split(b, p0) ==> (zero_digits(m) || underflows(b, p0))));
    }
    if mant_ok && tail_ok {
        match nonzero_at {
            None => true,
            Some(_) => underflows_at(&cs, st, k, dot_at),
        }
    } else {
        true
    }
}

// ---- export ----

/// An account's balance as exported, or `None` when its amount is not a
/// string or counts as zero.
pub open spec fn kept_balance(account: JsonV) -> Option<JsonV> {
    let bal = account.at("balance"@);
    match bal.at("amount"@) {
        JsonV::Str(amount) => if counts_as_zero(amount) {
            None
        } else {
            Some(
                JsonV::Object(
                    seq![("amount"@, JsonV::Str(amount)), ("currencyCode"@, bal.at("currencyCode"@))],
                ),
            )
        },
        _ => None,
    }
}

/// The non-zero balances of a list of accounts, in order.
pub open spec fn kept_balances(accounts: Seq<JsonV>) -> Seq<JsonV> {
    filter_some(accounts.map_values(|a: JsonV| kept_balance(a)))
}

/// A customer's export record `{ email, balances }`, or `None` when it has no
/// string email or no non-zero balance. Anything else the customer carries
/// (the transport `id` among it) is left out.
pub open spec fn credit_record(customer: JsonV) -> Option<JsonV> {
    match customer.at("email"@) {
        JsonV::Str(email) => {
            let balances = match customer.at("storeCreditAccounts"@).at("nodes"@) {
                JsonV::Array(accounts) => kept_balances(accounts),
                _ => Seq::empty(),
            };
            if balances.len() == 0 {
                None
            } else {
                Some(
                    JsonV::Object(
                        seq![("email"@, JsonV::Str(email)), ("balances"@, JsonV::Array(balances))],
                    ),
                )
            }
        },
        _ => None,
    }
}

fn balance_entry(account: &Json) -> (r: Option<Json>)
    ensures
        match r {
            Some(j) => kept_balance(account@) == Some(j@),
            None => kept_balance(account@) is None,
        },
{
    let bal = account.at("balance");
    let amount = match bal.str_at("amount") {
        Some(a) => a,
        None => {
            return None;
        },
    };
    if amount_is_zero(amount.as_str()) {
        return None;
    }
    let es = vec![entry("amount", Json::Str(amount.clone())), entry("currencyCode", bal.at("currencyCode"))];
    proof {
        lemma_entries_view(es@);
        assert(entries_view(es@) =~= kept_balance(account@)->Some_0->Object_0);
    }
    Some(Json::Object(es))
}

fn credit_entry(customer: &Json) -> (r: Option<Json>)
    ensures
        match r {
            Some(j) => credit_record(customer@) == Some(j@),
            None => credit_record(customer@) is None,
        },
{
    let email = match customer.str_at("email") {
        Some(e) => e,
        None => {
            return None;
        },
    };
    let mut balances: Vec<Json> = Vec::new();
    let nodes = customer.at("storeCreditAccounts").at("nodes");
    if let Some(accounts) = nodes.as_array() {
        let ghost av = seq_view(accounts@);
        proof {
            crate::json::lemma_seq_view(accounts@);
        }
        let mut i: usize = 0;
        while i < accounts.len()
            invariant
                i <= accounts@.len(),
                av == seq_view(accounts@),
                av.len() == accounts@.len(),
                forall|j: int| 0 <= j < accounts@.len() ==> #[trigger] av[j] == accounts@[j]@,
                seq_view(balances@) == filter_some(
                    av.take(i as int).map_values(|a: JsonV| kept_balance(a)),
                ),
            decreases accounts@.len() - i,
        {
            let e = balance_entry(&accounts[i]);
            proof {
                assert(av.take(i + 1).map_values(|a: JsonV| kept_balance(a)) =~= av.take(
                    i as int,
                ).map_values(|a: JsonV| kept_balance(a)).push(kept_balance(av[i as int])));
                lemma_filter_some_push(
                    av.take(i as int).map_values(|a: JsonV| kept_balance(a)),
                    kept_balance(av[i as int]),
                );
            }
            match e {
                Some(j) => {
                    proof {
                        crate::json::lemma_seq_view_push(balances@, j);
                    }
                    balances.push(j);
                },
                None => {},
            }
            i = i + 1;
        }
        proof {
            assert(av.take(accounts@.len() as int) =~= av);
        }
    } else {
        proof {
            assert(seq_view(balances@) =~= Seq::<JsonV>::empty());
        }
    }
    if balances.len() == 0 {
        proof {
            crate::json::lemma_seq_view(balances@);
        }
        return None;
    }
    proof {
        crate::json::lemma_seq_view(balances@);
    }
    let es = vec![entry("email", Json::Str(email.clone())), entry("balances", Json::Array(balances))];
    proof {
        lemma_entries_view(es@);
        assert(entries_view(es@) =~= credit_record(customer@)->Some_0->Object_0);
    }
    Some(Json::Object(es))
}

/// Reshapes exported customers (bulk-reassembled or paged) into the store
/// credit export: one `{ email, balances }` per customer with a non-zero
/// balance, in order (see [`credit_record`]).
pub fn reshape_store_credit(customers: Vec<Json>) -> (out: Vec<Json>)
    ensures
        seq_view(out@) == filter_some(
            seq_view(customers@).map_values(|c: JsonV| credit_record(c)),
        ),
{
    let ghost cv = seq_view(customers@);
    proof {
        crate::json::lemma_seq_view(customers@);
    }
    let mut out: Vec<Json> = Vec::new();
    let mut i: usize = 0;
    while i < customers.len()
        invariant
            i <= customers@.len(),
            cv == seq_view(customers@),
            cv.len() == customers@.len(),
            forall|j: int| 0 <= j < customers@.len() ==> #[trigger] cv[j] == customers@[j]@,
            seq_view(out@) == filter_some(cv.take(i as int).map_values(|c: JsonV| credit_record(c))),
        decreases customers@.len() - i,
    {
        let e = credit_entry(&customers[i]);
        proof {
            assert(cv.take(i + 1).map_values(|c: JsonV| credit_record(c)) =~= cv.take(
                i as int,
            ).map_values(|c: JsonV| credit_record(c)).push(credit_record(cv[i as int])));
            lemma_filter_some_push(
                cv.take(i as int).map_values(|c: JsonV| credit_record(c)),
                credit_record(cv[i as int]),
            );
        }
        match e {
            Some(j) => {
                proof {
                    crate::json::lemma_seq_view_push(out@, j);
                }
                out.push(j);
            },
            None => {},
        }
        i = i + 1;
    }
    proof {
        assert(cv.take(customers@.len() as int) =~= cv);
    }
    out
}

// ---- import ----

/// `"<amount> <currency>"` for each balance, joined by `", "`.
pub open spec fn summary_of(bs: Seq<Money>) -> Seq<char>
    decreases bs.len(),
{
    if bs.len() == 0 {
        Seq::empty()
    } else {
        let last = bs.last().amount@ + " "@ + bs.last().currency_code@;
        if bs.len() == 1 {
            last
        } else {
            summary_of(bs.drop_last()) + ", "@ + last
        }
    }
}

/// One-line summary of a record's balances, e.g. `"50.00 USD, 10.00 CAD"`.
pub fn balance_summary(r: &StoreCreditRecord) -> (s: String)
    ensures
        s@ == summary_of(r.balances@),
{
    let mut s = String::new();
    let mut i: usize = 0;
    while i < r.balances.len()
        invariant
            i <= r.balances@.len(),
            s@ == summary_of(r.balances@.take(i as int)),
        decreases r.balances@.len() - i,
    {
        proof {
            assert(r.balances@.take(i + 1).drop_last() =~= r.balances@.take(i as int));
        }
        if i > 0 {
            s.append(", ");
        }
        s.append(r.balances[i].amount.as_str());
        s.append(" ");
        s.append(r.balances[i].currency_code.as_str());
        proof {
            reveal_strlit(", ");
            reveal_strlit(" ");
            let t = r.balances@.take(i + 1);
            assert(t.last() == r.balances@[i as int]);
            if i > 0 {
                assert(s@ =~= summary_of(r.balances@.take(i as int)) + ", "@ + (
                r.balances@[i as int].amount@ + " "@ + r.balances@[i as int].currency_code@));
            } else {
                assert(s@ =~= r.balances@[i as int].amount@ + " "@
                    + r.balances@[i as int].currency_code@);
            }
        }
        i = i + 1;
    }
    proof {
        assert(r.balances@.take(r.balances@.len() as int) =~= r.balances@);
    }
    s
}

/// The `storeCreditAccountCredit` payload inside one bulk-mutation result line.
pub fn store_credit_payload(result: &Json) -> (r: Json)
    ensures
        r@ == payload_of(result@, "storeCreditAccountCredit"@),
{
    mutation_payload(result, "storeCreditAccountCredit")
}

/// The bulk-mutation line that credits `customer_id` with one balance:
/// `{ id, creditInput: { creditAmount: { amount, currencyCode } } }`.
pub open spec fn credit_line(customer_id: Seq<char>, m: Money) -> JsonV {
    JsonV::Object(
        seq![
            ("id"@, JsonV::Str(customer_id)),
            (
                "creditInput"@,
                JsonV::Object(
                    seq![
                        (
                            "creditAmount"@,
                            JsonV::Object(
                                seq![
                                    ("amount"@, JsonV::Str(m.amount@)),
                                    ("currencyCode"@, JsonV::Str(m.currency_code@)),
                                ],
                            ),
                        ),
                    ],
                ),
            ),
        ],
    )
}

/// The line (or the variables of one call) that credits `customer_id` with
/// one balance (see [`credit_line`]).
pub fn build_credit_line(customer_id: &String, m: &Money) -> (r: Json)
    ensures
        r@ == credit_line(customer_id@, *m),
{
    let amount = vec![
        entry("amount", Json::Str(m.amount.clone())),
        entry("currencyCode", Json::Str(m.currency_code.clone())),
    ];
    proof {
        lemma_entries_view(amount@);
    }
    let ghost av = entries_view(amount@);
    let credit = vec![entry("creditAmount", Json::Object(amount))];
    proof {
        lemma_entries_view(credit@);
    }
    let ghost crv = entries_view(credit@);
    let es = vec![entry("id", Json::Str(customer_id.clone())), entry("creditInput", Json::Object(credit))];
    proof {
        lemma_entries_view(es@);
        let want = credit_line(customer_id@, *m)->Object_0;
        assert(av =~= want[1].1->Object_0[0].1->Object_0);
        assert(crv =~= want[1].1->Object_0);
        assert(entries_view(es@) =~= want);
    }
    Json::Object(es)
}

/// The bulk-mutation lines for one record: one [`credit_line`] per balance
/// for the customer its email finds in the target store (by lower-cased
/// email), or `None` when the target store has no such customer.
pub open spec fn credit_lines(r: StoreCreditRecord, emails: Map<Seq<char>, Seq<char>>) -> Option<
    Seq<JsonV>,
> {
    let key = ascii_lower(r.email@);
    if emails.contains_key(key) {
        Some(r.balances@.map_values(|m: Money| credit_line(emails[key], m)))
    } else {
        None
    }
}

/// The lines that credit one record's balances (see [`credit_lines`]).
pub fn plan_credit(r: &StoreCreditRecord, emails: &IdTable) -> (out: Option<Vec<Json>>)
    ensures
        match out {
            Some(v) => credit_lines(*r, emails@) == Some(seq_view(v@)),
            None => credit_lines(*r, emails@) is None,
        },
{
    let key = to_ascii_lowercase(r.email.as_str());
    let id = match emails.get(key.as_str()) {
        Some(id) => id,
        None => {
            return None;
        },
    };
    let mut lines: Vec<Json> = Vec::new();
    let mut i: usize = 0;
    while i < r.balances.len()
        invariant
            i <= r.balances@.len(),
            emails@.contains_key(key@),
            emails@[key@] == id@,
            key@ == ascii_lower(r.email@),
            seq_view(lines@) == r.balances@.take(i as int).map_values(
                |m: Money| credit_line(id@, m),
            ),
        decreases r.balances@.len() - i,
    {
        let line = build_credit_line(id, &r.balances[i]);
        proof {
            crate::json::lemma_seq_view_push(lines@, line);
            assert(r.balances@.take(i + 1).map_values(|m: Money| credit_line(id@, m))
                =~= r.balances@.take(i as int).map_values(|m: Money| credit_line(id@, m)).push(
                credit_line(id@, r.balances@[i as int]),
            ));
        }
        lines.push(line);
        i = i + 1;
    }
    proof {
        assert(r.balances@.take(r.balances@.len() as int) =~= r.balances@);
    }
    Some(lines)
}

/// The lines the bulk import sends for `records`, in order: every balance of
/// each record whose customer the target store has, tagged with the
/// positions of the record and of the balance.
pub open spec fn credit_picked(rs: Seq<StoreCreditRecord>, emails: Map<Seq<char>, Seq<char>>) -> Seq<
    (int, int, JsonV),
>
    decreases rs.len(),
{
    if rs.len() == 0 {
        Seq::empty()
    } else {
        let rest = credit_picked(rs.drop_last(), emails);
        match credit_lines(rs.last(), emails) {
            Some(ls) => rest + ls.map(|k: int, l: JsonV| ((rs.len() - 1) as int, k, l)),
            None => rest,
        }
    }
}

pub open spec fn credit_batch_view(b: Seq<(usize, usize, Json)>) -> Seq<(int, int, JsonV)> {
    b.map_values(|p: (usize, usize, Json)| (p.0 as int, p.1 as int, p.2@))
}

/// The lines the bulk import sends for `records` (see [`credit_picked`]).
pub fn credit_batch(records: &Vec<StoreCreditRecord>, emails: &IdTable) -> (r: Vec<(usize, usize, Json)>)
    ensures
        credit_batch_view(r@) == credit_picked(records@, emails@),
{
    let mut out: Vec<(usize, usize, Json)> = Vec::new();
    let mut i: usize = 0;
    while i < records.len()
        invariant
            i <= records@.len(),
            credit_batch_view(out@) == credit_picked(records@.take(i as int), emails@),
        decreases records@.len() - i,
    {
        proof {
            assert(records@.take(i + 1).drop_last() =~= records@.take(i as int));
            assert(records@.take(i + 1).last() == records@[i as int]);
        }
        match plan_credit(&records[i], emails) {
            Some(lines) => {
                let ghost base = credit_batch_view(out@);
                let ghost lv = seq_view(lines@);
                proof {
                    crate::json::lemma_seq_view(lines@);
                }
                let mut k: usize = 0;
                while k < lines.len()
                    invariant
                        k <= lines@.len(),
                        lv == seq_view(lines@),
                        lv.len() == lines@.len(),
                        forall|q: int| 0 <= q < lines@.len() ==> #[trigger] lv[q] == lines@[q]@,
                        credit_batch_view(out@) == base + lv.take(k as int).map(
                            |q: int, l: JsonV| (i as int, q, l),
                        ),
                    decreases lines@.len() - k,
                {
                    let ghost before = out@;
                    out.push((i, k, lines[k].duplicate()));
                    proof {
                        assert(credit_batch_view(out@) =~= credit_batch_view(before).push(
                            (i as int, k as int, lv[k as int]),
                        ));
                        assert(lv.take(k + 1).map(|q: int, l: JsonV| (i as int, q, l)) =~= lv.take(
                            k as int,
                        ).map(|q: int, l: JsonV| (i as int, q, l)).push((i as int, k as int, lv[k as int])));
                    }
                    k = k + 1;
                }
                proof {
                    assert(lv.take(lines@.len() as int) =~= lv);
                }
            },
            None => {},
        }
        i = i + 1;
    }
    proof {
        assert(records@.take(records@.len() as int) =~= records@);
    }
    out
}

/// Every exported store-credit record carries at least one balance, and every
/// balance it carries is non-zero.
pub proof fn law_exported_balances_are_nonzero(customer: JsonV, i: int)
    requires
        credit_record(customer) is Some,
    ensures
        ({
            let balances = credit_record(customer)->Some_0->Object_0[1].1->Array_0;
            &&& balances.len() > 0
            &&& 0 <= i < balances.len() ==> exists|amount: Seq<char>|
                !counts_as_zero(amount) && (#[trigger] balances[i]->Object_0[0]) == ("amount"@, JsonV::Str(amount))
        }),
{
    let accounts = match customer.at("storeCreditAccounts"@).at("nodes"@) {
        JsonV::Array(a) => a,
        _ => Seq::empty(),
    };
    let ks = accounts.map_values(|a: JsonV| kept_balance(a));
    if 0 <= i < kept_balances(accounts).len() {
        crate::json::lemma_filter_some_member(ks, i);
        let j = choose|j: int| 0 <= j < ks.len() && ks[j] == Some(filter_some(ks)[i]);
        assert(ks[j] == kept_balance(accounts[j]));
        let amount = accounts[j].at("balance"@).at("amount"@)->Str_0;
        assert(!counts_as_zero(amount));
    }
}

/// Each balance of a record whose customer the target store has is
/// credited, in order, to that customer (found by lower-cased email) for the
/// balance's own amount and currency.
pub proof fn law_credit_lines_keep_amounts(r: StoreCreditRecord, emails: Map<Seq<char>, Seq<char>>, i: int)
    requires
        emails.contains_key(ascii_lower(r.email@)),
        0 <= i < r.balances@.len(),
    ensures
        credit_lines(r, emails) matches Some(ls) && ls.len() == r.balances@.len() && {
            let m = r.balances@[i];
            let amount = ls[i].at("creditInput"@).at("creditAmount"@);
            &&& ls[i].get("id"@) == Some(JsonV::Str(emails[ascii_lower(r.email@)]))
            &&& amount.get("amount"@) == Some(JsonV::Str(m.amount@))
            &&& amount.get("currencyCode"@) == Some(JsonV::Str(m.currency_code@))
        },
{
    reveal_strlit("amount");
    reveal_strlit("creditAmount");
    reveal_strlit("creditInput");
    reveal_strlit("currencyCode");
    reveal_strlit("id");
    assert("amount"@.len() == 6);
    assert("creditAmount"@.len() == 12);
    assert("creditInput"@.len() == 11);
    assert("currencyCode"@.len() == 12);
    assert("id"@.len() == 2);
    assert("creditAmount"@[1] != "currencyCode"@[1]);
    let m = r.balances@[i];
    let es = credit_line(emails[ascii_lower(r.email@)], m)->Object_0;
    crate::json::lemma_get_entry(es, 0);
    assert forall|j: int| 0 <= j < 1 implies (#[trigger] es[j]).0 != es[1].0 by {
        if j == 0 {}
    }
    crate::json::lemma_get_entry(es, 1);
    let ces = es[1].1->Object_0;
    crate::json::lemma_get_entry(ces, 0);
    let aes = ces[0].1->Object_0;
    crate::json::lemma_get_entry(aes, 0);
    assert forall|j: int| 0 <= j < 1 implies (#[trigger] aes[j]).0 != aes[1].0 by {
        if j == 0 {}
    }
    crate::json::lemma_get_entry(aes, 1);
}

} // verus!
