use vstd::prelude::*;
use vstd::string::{StringExecFns, StringSliceAdditionalSpecFns};
use crate::error::RebaseMintError;

verus! {

/// An ASCII decimal digit.
pub open spec fn is_digit(b: u8) -> bool {
    48 <= b <= 57
}

pub open spec fn all_digits(s: Seq<u8>) -> bool {
    forall|i: int| 0 <= i < s.len() ==> is_digit(#[trigger] s[i])
}

/// `acc` followed by the decimal digits `s`, read as one number.
pub open spec fn digits_onto(acc: nat, s: Seq<u8>) -> nat
    decreases s.len(),
{
    if s.len() == 0 {
        acc
    } else {
        digits_onto(acc * 10 + (s[0] - 48) as nat, s.drop_first())
    }
}

/// Index of the first `.` in `s` at or after `i`, or `s.len()` if there is none.
pub open spec fn find_dot(s: Seq<u8>, i: int) -> int
    decreases s.len() - i,
{
    if i >= s.len() {
        s.len() as int
    } else if s[i] == 46 {
        i
    } else {
        find_dot(s, i + 1)
    }
}

/// Whether `b` is a sign, `+` or `-`.
pub open spec fn is_sign(b: u8) -> bool {
    b == 43 || b == 45
}

/// Whether `s` starts with `-`.
pub open spec fn has_minus(s: Seq<u8>) -> bool {
    s.len() > 0 && s[0] == 45
}

/// `s` without a leading sign.
pub open spec fn unsigned_body(s: Seq<u8>) -> Seq<u8> {
    if s.len() > 0 && is_sign(s[0]) {
        s.drop_first()
    } else {
        s
    }
}

/// Index of the first `e` or `E` in `s` at or after `i`, or `s.len()` if
/// there is none.
pub open spec fn find_exp(s: Seq<u8>, i: int) -> int
    decreases s.len() - i,
{
    if i >= s.len() {
        s.len() as int
    } else if s[i] == 101 || s[i] == 69 {
        i
    } else {
        find_exp(s, i + 1)
    }
}

/// The digits and point before any exponent.
pub open spec fn mantissa(s: Seq<u8>) -> Seq<u8> {
    let b = unsigned_body(s);
    b.take(find_exp(b, 0))
}

/// Whether an exponent marker follows the mantissa.
pub open spec fn has_exponent(s: Seq<u8>) -> bool {
    let b = unsigned_body(s);
    find_exp(b, 0) < b.len()
}

/// What follows the exponent marker (empty without one).
pub open spec fn exponent_part(s: Seq<u8>) -> Seq<u8> {
    let b = unsigned_body(s);
    if has_exponent(s) {
        b.subrange(find_exp(b, 0) + 1, b.len() as int)
    } else {
        Seq::empty()
    }
}

/// The exponent's digits, without its sign.
pub open spec fn exponent_digits(s: Seq<u8>) -> Seq<u8> {
    unsigned_body(exponent_part(s))
}

/// The exponent (zero without one).
pub open spec fn exponent_value(s: Seq<u8>) -> int {
    if has_minus(exponent_part(s)) {
        -digits_onto(0, exponent_digits(s))
    } else {
        digits_onto(0, exponent_digits(s)) as int
    }
}

/// The mantissa's digits before the decimal point.
pub open spec fn int_part(s: Seq<u8>) -> Seq<u8> {
    let m = mantissa(s);
    m.take(find_dot(m, 0))
}

/// The mantissa's digits after the decimal point (empty without one).
pub open spec fn frac_part(s: Seq<u8>) -> Seq<u8> {
    let m = mantissa(s);
    let k = find_dot(m, 0);
    if k < m.len() {
        m.subrange(k + 1, m.len() as int)
    } else {
        Seq::empty()
    }
}

/// All digits of the mantissa, in order.
pub open spec fn mantissa_digits(s: Seq<u8>) -> Seq<u8> {
    int_part(s) + frac_part(s)
}

/// A decimal number: an optional sign, digits with an optional decimal point
/// and at least one digit, then optionally `e` or `E`, an optional sign and
/// at least one digit.
pub open spec fn is_decimal(s: Seq<u8>) -> bool {
    &&& all_digits(int_part(s))
    &&& all_digits(frac_part(s))
    &&& int_part(s).len() + frac_part(s).len() > 0
    &&& has_exponent(s) ==> exponent_digits(s).len() > 0 && all_digits(exponent_digits(s))
}

/// The digits `dg` with the decimal point placed after the first `k`: the
/// first `k` digits, filled up with zeros where `dg` is shorter.
pub open spec fn shifted(dg: Seq<u8>, k: int) -> Seq<u8> {
    if k <= 0 {
        Seq::empty()
    } else if k <= dg.len() {
        dg.take(k)
    } else {
        dg + zero_digits((k - dg.len()) as nat)
    }
}

/// The magnitude of the number `s` times `10^decimals`, fractions of a unit
/// dropped.
pub open spec fn scaled_value(s: Seq<u8>, decimals: nat) -> nat {
    digits_onto(
        0,
        shifted(mantissa_digits(s), int_part(s).len() + exponent_value(s) + decimals),
    )
}

/// The raw amount written as `s` at `decimals` decimal places, or
/// `InvalidArgument` when `s` is no decimal number, is negative (a minus sign
/// before a non-zero mantissa), or the amount does not fit in `u64`.
pub open spec fn ui_amount_value(s: Seq<u8>, decimals: nat) -> Result<u64, RebaseMintError> {
    if is_decimal(s) && !(has_minus(s) && digits_onto(0, mantissa_digits(s)) != 0)
        && scaled_value(s, decimals) <= u64::MAX {
        Ok(scaled_value(s, decimals) as u64)
    } else {
        Err(RebaseMintError::InvalidArgument)
    }
}

/// `n` zero digits.
pub open spec fn zero_digits(n: nat) -> Seq<u8> {
    Seq::new(n, |i: int| 48u8)
}

/// `10^n`.
pub open spec fn pow10(n: nat) -> nat
    decreases n,
{
    if n == 0 {
        1
    } else {
        10 * pow10((n - 1) as nat)
    }
}

proof fn lemma_zero_digits(acc: nat, x: Seq<u8>)
    requires
        acc == 0,
        forall|i: int| 0 <= i < x.len() ==> #[trigger] x[i] == 48,
    ensures
        digits_onto(acc, x) == 0,
    decreases x.len(),
{
    if x.len() > 0 {
        lemma_zero_digits(0, x.drop_first());
    }
}

proof fn lemma_nonzero_digits(acc: nat, x: Seq<u8>, i: int)
    requires
        all_digits(x),
        0 <= i < x.len(),
        x[i] != 48,
    ensures
        digits_onto(acc, x) >= 1,
    decreases x.len(),
{
    assert(is_digit(x[0]));
    if i == 0 {
        assert(all_digits(x.drop_first()));
        lemma_digits_onto_grows(acc * 10 + (x[0] - 48) as nat, x.drop_first());
    } else {
        assert(x.drop_first()[i - 1] == x[i]);
        assert(all_digits(x.drop_first()));
        lemma_nonzero_digits(acc * 10 + (x[0] - 48) as nat, x.drop_first(), i - 1);
    }
}

proof fn lemma_zeros_value(acc: nat, m: nat)
    ensures
        digits_onto(acc, zero_digits(m)) == acc * pow10(m),
    decreases m,
{
    let z = zero_digits(m);
    if m > 0 {
        assert(z.drop_first() =~= zero_digits((m - 1) as nat));
        assert(z[0] == 48u8);
        assert(digits_onto(acc, z) == digits_onto(acc * 10, z.drop_first()));
        lemma_zeros_value(acc * 10, (m - 1) as nat);
        assert(acc * 10 * pow10((m - 1) as nat) == acc * pow10(m)) by (nonlinear_arith)
            requires
                pow10(m) == 10 * pow10((m - 1) as nat),
        ;
    } else {
        assert(pow10(0) == 1);
        assert(z.len() == 0);
    }
}

proof fn lemma_pow10_big(m: nat)
    requires
        m >= 20,
    ensures
        pow10(m) > u64::MAX,
    decreases m,
{
    if m == 20 {
        reveal_with_fuel(pow10, 21);
    } else {
        lemma_pow10_big((m - 1) as nat);
    }
}

/// A non-zero mantissa with the point moved 20 places past its end gives
/// more than `u64` holds.
proof fn lemma_big_shift(dg: Seq<u8>, k: int, i: int)
    requires
        all_digits(dg),
        0 <= i < dg.len(),
        dg[i] != 48,
        k >= dg.len() + 20,
    ensures
        digits_onto(0, shifted(dg, k)) > u64::MAX,
{
    let m = (k - dg.len()) as nat;
    lemma_digits_onto_concat(0, dg, zero_digits(m));
    lemma_nonzero_digits(0, dg, i);
    let v = digits_onto(0, dg);
    lemma_zeros_value(v, m);
    lemma_pow10_big(m);
    assert(v * pow10(m) >= pow10(m)) by (nonlinear_arith)
        requires
            v >= 1,
    ;
}

proof fn lemma_digits_onto_grows(acc: nat, s: Seq<u8>)
    requires
        all_digits(s),
    ensures
        digits_onto(acc, s) >= acc,
    decreases s.len(),
{
    if s.len() > 0 {
        lemma_digits_onto_grows(acc * 10 + (s[0] - 48) as nat, s.drop_first());
    }
}

/// Continues `acc` with the digits `s[lo..hi]`; `None` when the number
/// leaves the range of `u64`.
fn push_digits(acc: u64, s: &[u8], lo: usize, hi: usize) -> (r: Option<u64>)
    requires
        lo <= hi <= s@.len(),
        all_digits(s@.subrange(lo as int, hi as int)),
    ensures
        match r {
            Some(v) => v == digits_onto(acc as nat, s@.subrange(lo as int, hi as int)),
            None => digits_onto(acc as nat, s@.subrange(lo as int, hi as int)) > u64::MAX,
        },
{
    let mut v: u64 = acc;
    let mut i: usize = lo;
    while i < hi
        invariant
            lo <= i <= hi <= s@.len(),
            all_digits(s@.subrange(lo as int, hi as int)),
            digits_onto(acc as nat, s@.subrange(lo as int, hi as int)) == digits_onto(
                v as nat,
                s@.subrange(i as int, hi as int),
            ),
        decreases hi - i,
    {
        assert(is_digit(s@.subrange(lo as int, hi as int)[i - lo]));
        let d: u64 = (s[i] - 48) as u64;
        assert(s@.subrange(i as int, hi as int).drop_first() =~= s@.subrange(i + 1, hi as int));
        if v > (u64::MAX - d) / 10 {
            proof {
                assert forall|j: int| 0 <= j < s@.subrange(i + 1, hi as int).len() implies is_digit(
                    #[trigger] s@.subrange(i + 1, hi as int)[j],
                ) by {
                    assert(is_digit(s@.subrange(lo as int, hi as int)[i + 1 + j - lo]));
                }
                lemma_digits_onto_grows(v as nat * 10 + d as nat, s@.subrange(i + 1, hi as int));
            }
            return None;
        }
        v = v * 10 + d;
        i = i + 1;
    }
    Some(v)
}

/// Continues `acc` with `n` zero digits; `None` when the number leaves the
/// range of `u64`.
fn push_zeros(acc: u64, n: u128) -> (r: Option<u64>)
    ensures
        match r {
            Some(v) => v == digits_onto(acc as nat, zero_digits(n as nat)),
            None => digits_onto(acc as nat, zero_digits(n as nat)) > u64::MAX,
        },
{
    let mut v: u64 = acc;
    let mut i: u128 = 0;
    while i < n
        invariant
            i <= n,
            digits_onto(acc as nat, zero_digits(n as nat)) == digits_onto(
                v as nat,
                zero_digits((n - i) as nat),
            ),
        decreases n - i,
    {
        assert(zero_digits((n - i) as nat).drop_first() =~= zero_digits((n - i - 1) as nat));
        if v > u64::MAX / 10 {
            proof {
                lemma_digits_onto_grows(v as nat * 10, zero_digits((n - i - 1) as nat));
            }
            return None;
        }
        v = v * 10;
        i = i + 1;
    }
    assert(zero_digits((n - i) as nat) =~= Seq::<u8>::empty());
    Some(v)
}


proof fn lemma_digits_onto_concat(acc: nat, x: Seq<u8>, y: Seq<u8>)
    ensures
        digits_onto(acc, x + y) == digits_onto(digits_onto(acc, x), y),
    decreases x.len(),
{
    if x.len() > 0 {
        assert((x + y).drop_first() =~= x.drop_first() + y);
        lemma_digits_onto_concat(acc * 10 + (x[0] - 48) as nat, x.drop_first(), y);
    } else {
        assert(x + y =~= y);
    }
}

/// Whether `s[lo..hi]` holds only decimal digits.
fn digits_only(s: &[u8], lo: usize, hi: usize) -> (r: bool)
    requires
        lo <= hi <= s@.len(),
    ensures
        r == all_digits(s@.subrange(lo as int, hi as int)),
{
    let mut i: usize = lo;
    while i < hi
        invariant
            lo <= i <= hi <= s@.len(),
            forall|j: int| lo <= j < i ==> is_digit(#[trigger] s@[j]),
        decreases hi - i,
    {
        if s[i] < 48 || s[i] > 57 {
            assert(!is_digit(s@.subrange(lo as int, hi as int)[i - lo]));
            return false;
        }
        i = i + 1;
    }
    assert forall|j: int| 0 <= j < s@.subrange(lo as int, hi as int).len() implies is_digit(
        #[trigger] s@.subrange(lo as int, hi as int)[j],
    ) by {
        assert(is_digit(s@[lo + j]));
    }
    true
}

/// Appends `s[lo..hi]` to `out`.
fn append_range(out: &mut Vec<u8>, s: &[u8], lo: usize, hi: usize)
    requires
        lo <= hi <= s@.len(),
    ensures
        final(out)@ == old(out)@ + s@.subrange(lo as int, hi as int),
{
    let mut i: usize = lo;
    while i < hi
        invariant
            lo <= i <= hi <= s@.len(),
            out@ == old(out)@ + s@.subrange(lo as int, i as int),
        decreases hi - i,
    {
        out.push(s[i]);
        assert(out@ =~= old(out)@ + s@.subrange(lo as int, i + 1));
        i = i + 1;
    }
}

/// Whether every byte of `s` is the digit zero.
fn zeros_only(s: &[u8]) -> (r: bool)
    ensures
        r == (forall|i: int| 0 <= i < s@.len() ==> #[trigger] s@[i] == 48),
{
    let mut i: usize = 0;
    while i < s.len()
        invariant
            i <= s@.len(),
            forall|j: int| 0 <= j < i ==> #[trigger] s@[j] == 48,
        decreases s@.len() - i,
    {
        if s[i] != 48 {
            return false;
        }
        i = i + 1;
    }
    true
}

/// The number written by the digits `s[lo..hi]`, or `cap` if it is larger.
fn digits_capped(s: &[u8], lo: usize, hi: usize, cap: u128) -> (r: u128)
    requires
        lo <= hi <= s@.len(),
        all_digits(s@.subrange(lo as int, hi as int)),
        cap <= u64::MAX as u128 * 2,
    ensures
        r == if digits_onto(0, s@.subrange(lo as int, hi as int)) < cap {
            digits_onto(0, s@.subrange(lo as int, hi as int))
        } else {
            cap as nat
        },
{
    let ghost total = digits_onto(0, s@.subrange(lo as int, hi as int));
    let mut v: u128 = 0;
    let mut i: usize = lo;
    while i < hi
        invariant
            lo <= i <= hi <= s@.len(),
            v <= cap <= u64::MAX as u128 * 2,
            all_digits(s@.subrange(lo as int, hi as int)),
            total == digits_onto(0, s@.subrange(lo as int, hi as int)),
            v < cap ==> total == digits_onto(v as nat, s@.subrange(i as int, hi as int)),
            v == cap ==> total >= cap,
        decreases hi - i,
    {
        assert(is_digit(s@.subrange(lo as int, hi as int)[i - lo]));
        assert(s@.subrange(i as int, hi as int).drop_first() =~= s@.subrange(i + 1, hi as int));
        assert forall|j: int| 0 <= j < s@.subrange(i + 1, hi as int).len() implies is_digit(
            #[trigger] s@.subrange(i + 1, hi as int)[j],
        ) by {
            assert(is_digit(s@.subrange(lo as int, hi as int)[i + 1 + j - lo]));
        }
        if v < cap {
            let next: u128 = v * 10 + (s[i] - 48) as u128;
            if next >= cap {
                proof {
                    lemma_digits_onto_grows(next as nat, s@.subrange(i + 1, hi as int));
                }
                v = cap;
            } else {
                v = next;
            }
        }
        i = i + 1;
    }
    assert(s@.subrange(i as int, hi as int) =~= Seq::<u8>::empty());
    v
}

/// Where the parts of a number's text lie: sign, mantissa digits before and
/// after the point, and exponent.
struct NumberLayout {
    minus: bool,
    start: usize,
    dot: usize,
    frac_start: usize,
    exp_mark: usize,
    has_exp: bool,
    exp_minus: bool,
    exp_start: usize,
}

/// Finds the parts of the number text `b`.
#[verifier::rlimit(60)]
fn number_layout(b: &[u8]) -> (r: NumberLayout)
    ensures
        r.start <= r.dot <= r.frac_start <= r.exp_mark <= b@.len(),
        r.exp_start <= b@.len(),
        r.minus == has_minus(b@),
        int_part(b@) == b@.subrange(r.start as int, r.dot as int),
        frac_part(b@) == b@.subrange(r.frac_start as int, r.exp_mark as int),
        r.has_exp == has_exponent(b@),
        r.has_exp ==> r.exp_start > r.exp_mark,
        exponent_digits(b@) == b@.subrange(r.exp_start as int, b@.len() as int),
        r.exp_minus == has_minus(exponent_part(b@)),
{
    let ghost s = b@;
    let len: usize = b.len();
    let minus: bool = len > 0 && b[0] == 45;
    let start: usize = if len > 0 && (b[0] == 43 || b[0] == 45) { 1 } else { 0 };
    let ghost body = unsigned_body(s);
    assert(body =~= s.subrange(start as int, len as int));
    let mut e: usize = start;
    while e < len && b[e] != 101 && b[e] != 69
        invariant
            start <= e <= len == s.len(),
            b@ == s,
            body == s.subrange(start as int, len as int),
            find_exp(body, 0) == find_exp(body, e - start),
        decreases len - e,
    {
        assert(body[e - start] == b@[e as int]);
        e = e + 1;
    }
    let ghost m = mantissa(s);
    assert(m =~= s.subrange(start as int, e as int));
    let mut k: usize = start;
    while k < e && b[k] != 46
        invariant
            start <= k <= e <= len == s.len(),
            b@ == s,
            m == s.subrange(start as int, e as int),
            find_dot(m, 0) == find_dot(m, k - start),
        decreases e - k,
    {
        assert(m[k - start] == b@[k as int]);
        k = k + 1;
    }
    assert(int_part(s) =~= s.subrange(start as int, k as int));
    let fstart: usize = if k < e { k + 1 } else { e };
    assert(frac_part(s) =~= s.subrange(fstart as int, e as int));
    let has_exp: bool = e < len;
    let xs: usize = if has_exp { e + 1 } else { len };
    let exp_minus: bool = xs < len && b[xs] == 45;
    let estart: usize = if xs < len && (b[xs] == 43 || b[xs] == 45) { xs + 1 } else { xs };
    assert(exponent_part(s) =~= s.subrange(xs as int, len as int));
    assert(exponent_digits(s) =~= s.subrange(estart as int, len as int));
    NumberLayout {
        minus,
        start,
        dot: k,
        frac_start: fstart,
        exp_mark: e,
        has_exp,
        exp_minus,
        exp_start: estart,
    }
}

/// Reads a decimal number and scales it by `10^decimals`, dropping what is
/// left below one unit. Negative numbers are refused; a minus sign before a
/// zero mantissa is accepted.
pub fn parse_ui_amount(text: &str, decimals: u8) -> (r: Result<u64, RebaseMintError>)
    ensures
        r == ui_amount_value(text.spec_bytes(), decimals as nat),
{
    let b: &[u8] = text.as_bytes();
    let ghost s = text.spec_bytes();
    let len: usize = b.len();
    let lay = number_layout(b);
    let start = lay.start;
    let k = lay.dot;
    let fstart = lay.frac_start;
    let e = lay.exp_mark;
    let has_exp = lay.has_exp;
    let estart = lay.exp_start;
    let ghost ip = int_part(s);
    let ghost fp = frac_part(s);
    if !digits_only(b, start, k) || !digits_only(b, fstart, e) || (k - start) + (e - fstart) == 0 {
        return Err(RebaseMintError::InvalidArgument);
    }
    if has_exp && (estart == len || !digits_only(b, estart, len)) {
        return Err(RebaseMintError::InvalidArgument);
    }
    let mut dg: Vec<u8> = Vec::new();
    append_range(&mut dg, b, start, k);
    append_range(&mut dg, b, fstart, e);
    let ghost md = mantissa_digits(s);
    assert(dg@ =~= md);
    assert(all_digits(md)) by {
        assert forall|j: int| 0 <= j < md.len() implies is_digit(#[trigger] md[j]) by {
            if j < ip.len() {
                assert(is_digit(ip[j]));
            } else {
                assert(is_digit(fp[j - ip.len()]));
            }
        }
    }
    let cap: u128 = len as u128 + 300;
    let ev: u128 = if has_exp { digits_capped(b, estart, len, cap) } else { 0 };
    assert(!has_exp ==> exponent_digits(s) =~= Seq::<u8>::empty());
    scale_mantissa(
        dg.as_slice(),
        lay.minus,
        k - start,
        decimals,
        lay.exp_minus,
        ev,
        cap,
        Ghost(exponent_value(s)),
    )
}

/// The mantissa digits `dg` (of which the first `int_len` come before the
/// point), moved by the exponent `exp` and by `decimals` places. `ev` is the
/// exponent's magnitude, or `cap` if that is larger.
#[verifier::rlimit(40)]
fn scale_mantissa(
    dg: &[u8],
    minus: bool,
    int_len: usize,
    decimals: u8,
    exp_minus: bool,
    ev: u128,
    cap: u128,
    exp: Ghost<int>,
) -> (r: Result<u64, RebaseMintError>)
    requires
        all_digits(dg@),
        int_len <= dg@.len(),
        cap >= dg@.len() + 300,
        cap <= u64::MAX as int + 300,
        exp_minus ==> exp@ <= 0,
        !exp_minus ==> exp@ >= 0,
        ev == if (if exp_minus { -exp@ } else { exp@ }) < cap {
            (if exp_minus { -exp@ } else { exp@ })
        } else {
            cap as int
        },
    ensures
        r == if !(minus && digits_onto(0, dg@) != 0) && digits_onto(
            0,
            shifted(dg@, int_len + exp@ + decimals),
        ) <= u64::MAX {
            Ok::<u64, RebaseMintError>(digits_onto(0, shifted(dg@, int_len + exp@ + decimals)) as u64)
        } else {
            Err(RebaseMintError::InvalidArgument)
        },
{
    let ghost md = dg@;
    let ghost point = int_len + exp@ + decimals;
    if zeros_only(dg) {
        proof {
            lemma_zero_digits(0, md);
            let sh = shifted(md, point);
            assert forall|j: int| 0 <= j < sh.len() implies #[trigger] sh[j] == 48 by {
                if j < md.len() {
                    assert(md[j] == 48);
                }
            }
            lemma_zero_digits(0, sh);
        }
        return Ok(0);
    }
    let ghost nz = choose|j: int| 0 <= j < md.len() && md[j] != 48;
    proof {
        lemma_nonzero_digits(0, md, nz);
    }
    if minus {
        return Err(RebaseMintError::InvalidArgument);
    }
    if ev >= cap {
        if exp_minus {
            assert(point < 0);
            return Ok(0);
        } else {
            proof {
                lemma_big_shift(md, point, nz);
            }
            return Err(RebaseMintError::InvalidArgument);
        }
    }
    let kk: i128 = int_len as i128 + decimals as i128 + if exp_minus {
        -(ev as i128)
    } else {
        ev as i128
    };
    assert(kk == point);
    if kk <= 0 {
        return Ok(0);
    }
    match scale_digits(dg, kk) {
        Some(v) => Ok(v),
        None => Err(RebaseMintError::InvalidArgument),
    }
}

/// The digits `dg` read with the decimal point after the first `kk`
/// (`kk > 0`), fractions dropped; `None` when that leaves `u64`.
fn scale_digits(dg: &[u8], kk: i128) -> (r: Option<u64>)
    requires
        all_digits(dg@),
        kk > 0,
        kk <= u64::MAX as int * 4,
    ensures
        match r {
            Some(v) => v == digits_onto(0, shifted(dg@, kk as int)),
            None => digits_onto(0, shifted(dg@, kk as int)) > u64::MAX,
        },
{
    let dlen: usize = dg.len();
    assert(dg@.subrange(0, dlen as int) =~= dg@);
    if kk <= dlen as i128 {
        let t: usize = kk as usize;
        assert(shifted(dg@, kk as int) =~= dg@.subrange(0, t as int));
        assert(all_digits(dg@.subrange(0, t as int))) by {
            assert forall|j: int| 0 <= j < t implies is_digit(#[trigger] dg@.subrange(0, t as int)[j]) by {
                assert(is_digit(dg@[j]));
            }
        }
        push_digits(0, dg, 0, t)
    } else {
        let extra: u128 = (kk - dlen as i128) as u128;
        let ghost zeros = zero_digits(extra as nat);
        assert(shifted(dg@, kk as int) == dg@ + zeros);
        proof {
            lemma_digits_onto_concat(0, dg@, zeros);
        }
        match push_digits(0, dg, 0, dlen) {
            Some(v) => push_zeros(v, extra),
            None => {
                proof {
                    assert forall|j: int| 0 <= j < zeros.len() implies is_digit(
                        #[trigger] zeros[j],
                    ) by {}
                    lemma_digits_onto_grows(digits_onto(0, dg@), zeros);
                }
                None
            },
        }
    }
}

/// The decimal digit character for `d < 10`.
pub open spec fn digit_char(d: nat) -> char {
    seq!['0', '1', '2', '3', '4', '5', '6', '7', '8', '9'][d as int]
}

/// Decimal digits of `n`, most significant first, without leading zeros
/// (`"0"` for zero).
pub open spec fn decimal_digits(n: nat) -> Seq<char>
    decreases n,
{
    if n < 10 {
        seq![digit_char(n)]
    } else {
        decimal_digits(n / 10).push(digit_char(n % 10))
    }
}

/// `s` with zeros put in front until it is at least `len` characters long.
pub open spec fn zero_pad(s: Seq<char>, len: nat) -> Seq<char> {
    if s.len() >= len {
        s
    } else {
        Seq::new((len - s.len()) as nat, |i: int| '0') + s
    }
}

/// `amount / 10^decimals` written in decimal with exactly `decimals`
/// fractional digits (and no point when `decimals` is zero).
pub open spec fn ui_text(amount: nat, decimals: nat) -> Seq<char> {
    let p = zero_pad(decimal_digits(amount), decimals + 1);
    if decimals == 0 {
        p
    } else {
        p.subrange(0, p.len() - decimals) + seq!['.'] + p.subrange(
            p.len() - decimals,
            p.len() as int,
        )
    }
}

fn digit_of(d: u64) -> (c: char)
    requires
        d < 10,
    ensures
        c == digit_char(d as nat),
        '0' <= c <= '9',
{
    let table = ['0', '1', '2', '3', '4', '5', '6', '7', '8', '9'];
    let c = table[d as usize];
    assert(table@ =~= seq!['0', '1', '2', '3', '4', '5', '6', '7', '8', '9']);
    c
}

/// The one-character text of a digit or of the decimal point.
fn char_text(c: char) -> (t: &'static str)
    requires
        c == '0' || c == '1' || c == '2' || c == '3' || c == '4' || c == '5' || c == '6' || c == '7'
            || c == '8' || c == '9' || c == '.',
    ensures
        t@ == seq![c],
{
    proof {
        reveal_strlit("0");
        reveal_strlit("1");
        reveal_strlit("2");
        reveal_strlit("3");
        reveal_strlit("4");
        reveal_strlit("5");
        reveal_strlit("6");
        reveal_strlit("7");
        reveal_strlit("8");
        reveal_strlit("9");
        reveal_strlit(".");
    }
    match c {
        '0' => "0",
        '1' => "1",
        '2' => "2",
        '3' => "3",
        '4' => "4",
        '5' => "5",
        '6' => "6",
        '7' => "7",
        '8' => "8",
        '9' => "9",
        _ => ".",
    }
}

/// Collects digits and decimal points into a string.
fn string_from_chars(chars: &Vec<char>) -> (r: String)
    requires
        forall|i: int|
            0 <= i < chars@.len() ==> (#[trigger] chars@[i] == '.' || ('0' <= chars@[i] <= '9')),
    ensures
        r@ == chars@,
{
    let mut r = String::new();
    let mut i: usize = 0;
    while i < chars.len()
        invariant
            i <= chars@.len(),
            r@ == chars@.take(i as int),
            forall|j: int|
                0 <= j < chars@.len() ==> (#[trigger] chars@[j] == '.' || ('0' <= chars@[j] <= '9')),
        decreases chars@.len() - i,
    {
        let c = chars[i];
        r.append(char_text(c));
        assert(r@ =~= chars@.take(i + 1));
        i = i + 1;
    }
    assert(chars@.take(i as int) =~= chars@);
    r
}

/// Writes `amount / 10^decimals` with exactly `decimals` fractional digits.
pub fn format_ui_amount(amount: u64, decimals: u8) -> (r: String)
    ensures
        r@ == ui_text(amount as nat, decimals as nat),
{
    let mut out: Vec<char> = Vec::new();
    let mut n: u64 = amount;
    if amount == 0 {
        out.push('0');
    } else {
        while n > 0
            invariant
                forall|j: int| 0 <= j < out@.len() ==> '0' <= #[trigger] out@[j] <= '9',
                n > 0 ==> decimal_digits(amount as nat) == decimal_digits(n as nat) + out@,
                n == 0 ==> decimal_digits(amount as nat) == out@,
            decreases n,
        {
            let d = digit_of(n % 10);
            proof {
                if n >= 10 {
                    assert(decimal_digits(n as nat) == decimal_digits((n / 10) as nat).push(d));
                    assert(decimal_digits(n as nat) + out@ =~= decimal_digits((n / 10) as nat) + (
                    seq![d] + out@));
                } else {
                    assert(decimal_digits(n as nat) + out@ =~= seq![d] + out@);
                }
            }
            let ghost before = out@;
            out.insert(0, d);
            assert(out@ =~= seq![d] + before);
            n = n / 10;
        }
    }
    let digits = Ghost(out@);
    let width: usize = decimals as usize + 1;
    while out.len() < width
        invariant
            forall|j: int| 0 <= j < out@.len() ==> '0' <= #[trigger] out@[j] <= '9',
            out@ == Seq::new((out@.len() - digits@.len()) as nat, |i: int| '0') + digits@,
            out@.len() >= digits@.len(),
            digits@.len() >= width ==> out@.len() == digits@.len(),
            digits@.len() < width ==> out@.len() <= width,
        decreases width - out.len(),
    {
        let ghost before = out@;
        out.insert(0, '0');
        assert(forall|j: int| 0 <= j < out@.len() ==> '0' <= #[trigger] out@[j] <= '9') by {
            assert forall|j: int| 0 <= j < out@.len() implies '0' <= #[trigger] out@[j] <= '9' by {
                if j > 0 {
                    assert(out@[j] == before[j - 1]);
                }
            }
        }
        assert(out@ =~= Seq::new((out@.len() - digits@.len()) as nat, |i: int| '0') + digits@) by {
            assert(out@ =~= seq!['0'] + before);
        }
    }
    assert(out@ =~= zero_pad(digits@, decimals as nat + 1));
    if decimals > 0 {
        let ghost padded = out@;
        let at: usize = out.len() - decimals as usize;
        out.insert(at, '.');
        assert forall|j: int| 0 <= j < out@.len() implies (#[trigger] out@[j] == '.' || ('0' <= out@[j] <= '9')) by {
            if j < at {
                assert(out@[j] == padded[j]);
            } else if j > at {
                assert(out@[j] == padded[j - 1]);
            }
        }
        assert(out@ =~= padded.subrange(0, at as int) + seq!['.'] + padded.subrange(
            at as int,
            padded.len() as int,
        ));
    }
    string_from_chars(&out)
}

} // verus!
