use vstd::prelude::*;
use crate::eval::{Error, Evaluator, MAX_DEPTH, eval};
use crate::nodes::{BinaryOp, Expression, ExprView, UnaryOp};
use crate::values::{Value, ValueView, value_models, gcd, signed_gcd};

verus! {

/// `v` lies in the range of `isize`.
pub open spec fn fits(v: int) -> bool {
    isize::MIN <= v <= isize::MAX
}

/// Every partial product of `a * b * c * d`, taken from the left, fits.
pub open spec fn fits4(a: int, b: int, c: int, d: int) -> bool {
    fits(a * b) && fits(a * b * c) && fits(a * b * c * d)
}

/// Rust's integer division, which rounds towards zero.
pub open spec fn tdiv(x: int, d: int) -> int {
    if x == 0 {
        0
    } else if x > 0 && d > 0 {
        x / d
    } else if x < 0 && d < 0 {
        (x * -1) / (d * -1)
    } else if x < 0 {
        ((x * -1) / d) * -1
    } else {
        (x / (d * -1)) * -1
    }
}

/// A kernel result as a list of values, as the operators hand it on.
pub open spec fn one(r: Result<ValueView, Error>) -> Result<Seq<ValueView>, Error> {
    match r {
        Ok(v) => Ok(seq![v]),
        Err(e) => Err(e),
    }
}

/// The models of the values of a result.
pub open spec fn result_view(r: Result<Vec<Value>, Error>) -> Result<Seq<ValueView>, Error> {
    match r {
        Ok(v) => Ok(value_models(&v)),
        Err(e) => Err(e),
    }
}

pub open spec fn negation(x: ValueView) -> Result<ValueView, Error> {
    match x {
        ValueView::ComplexNumber(a, b, c, d) => if a == isize::MIN || c == isize::MIN {
            Err(Error::Overflow)
        } else {
            Ok(ValueView::ComplexNumber((-a) as isize, b, (-c) as isize, d))
        },
        _ => Err(Error::MismatchedType),
    }
}

/// The numbers that `a1/b1 + (c1/d1)i` times `a2/b2 + (c2/d2)i` is built
/// from all fit.
pub open spec fn product_fits(
    a1: int, b1: int, c1: int, d1: int, a2: int, b2: int, c2: int, d2: int,
) -> bool {
    &&& fits4(a1, a2, d1, d2)
    &&& fits4(c1, c2, b1, b2)
    &&& fits(a1 * a2 * d1 * d2 - c1 * c2 * b1 * b2)
    &&& fits4(b1, b2, d1, d2)
    &&& fits4(a1, c2, b2, d1)
    &&& fits4(a2, c1, b1, d2)
    &&& fits(a1 * c2 * b2 * d1 + a2 * c1 * b1 * d2)
}

/// Complex multiplication over a shared denominator `b1 b2 d1 d2`.
pub open spec fn product(x: ValueView, y: ValueView) -> Result<ValueView, Error> {
    match (x, y) {
        (
            ValueView::ComplexNumber(a1, b1, c1, d1),
            ValueView::ComplexNumber(a2, b2, c2, d2),
        ) => if product_fits(
            a1 as int,
            b1 as int,
            c1 as int,
            d1 as int,
            a2 as int,
            b2 as int,
            c2 as int,
            d2 as int,
        ) {
            let den = b1 * b2 * d1 * d2;
            Ok(
                ValueView::ComplexNumber(
                    (a1 * a2 * d1 * d2 - c1 * c2 * b1 * b2) as isize,
                    den as isize,
                    (a1 * c2 * b2 * d1 + a2 * c1 * b1 * d2) as isize,
                    den as isize,
                ),
            )
        } else {
            Err(Error::Overflow)
        },
        _ => Err(Error::MismatchedType),
    }
}

pub open spec fn quotient_fits(
    a1: int, b1: int, c1: int, d1: int, a2: int, b2: int, c2: int, d2: int,
) -> bool {
    let s1 = a1 * a2 * d1 * d2 + c1 * c2 * b1 * b2;
    let s2 = a2 * a2 * d2 * d2 + c2 * c2 * b2 * b2;
    let s3 = a2 * c1 * b1 * d2 + a1 * c2 * d1 * b2;
    &&& fits(b2 * d2)
    &&& fits4(a1, a2, d1, d2)
    &&& fits4(c1, c2, b1, b2)
    &&& fits(s1)
    &&& fits(b2 * d2 * s1)
    &&& fits(b1 * d1)
    &&& fits4(a2, a2, d2, d2)
    &&& fits4(c2, c2, b2, b2)
    &&& fits(s2)
    &&& fits(b1 * d1 * s2)
    &&& fits4(a2, c1, b1, d2)
    &&& fits4(a1, c2, d1, b2)
    &&& fits(s3)
    &&& fits(b2 * d2 * s3)
}

/// Division as this language defines it: numerators scaled by `b2 d2`, and
/// the shared denominator `b1 d1 (a2² d2² + c2² b2²)`.
pub open spec fn quotient(x: ValueView, y: ValueView) -> Result<ValueView, Error> {
    match (x, y) {
        (
            ValueView::ComplexNumber(a1, b1, c1, d1),
            ValueView::ComplexNumber(a2, b2, c2, d2),
        ) => if quotient_fits(
            a1 as int,
            b1 as int,
            c1 as int,
            d1 as int,
            a2 as int,
            b2 as int,
            c2 as int,
            d2 as int,
        ) {
            let den = b1 * d1 * (a2 * a2 * d2 * d2 + c2 * c2 * b2 * b2);
            Ok(
                ValueView::ComplexNumber(
                    (b2 * d2 * (a1 * a2 * d1 * d2 + c1 * c2 * b1 * b2)) as isize,
                    den as isize,
                    (b2 * d2 * (a2 * c1 * b1 * d2 + a1 * c2 * d1 * b2)) as isize,
                    den as isize,
                ),
            )
        } else {
            Err(Error::Overflow)
        },
        _ => Err(Error::MismatchedType),
    }
}

/// The common denominator that addition uses for denominators `b1` and `b2`.
pub open spec fn common(b1: int, b2: int) -> int {
    tdiv(b1 * signed_gcd(b1, b2), b2)
}

/// The numbers that the sum (`s == 1`) or difference (`s == -1`) of
/// `n1/m1` and `n2/m2` is built from all fit.
pub open spec fn part_fits(n1: int, m1: int, n2: int, m2: int, s: int) -> bool {
    let l = common(m1, m2);
    &&& m1 != isize::MIN
    &&& m2 != isize::MIN
    &&& fits(m1 * signed_gcd(m1, m2))
    &&& fits(l)
    &&& fits(tdiv(l, m1))
    &&& fits(n1 * tdiv(l, m1))
    &&& fits(tdiv(l, m2))
    &&& fits(n2 * tdiv(l, m2))
    &&& fits(n1 * tdiv(l, m1) + s * (n2 * tdiv(l, m2)))
}

/// The numerator of the sum (`s == 1`) or difference (`s == -1`) of
/// `n1/m1` and `n2/m2` over their common denominator.
pub open spec fn part(n1: int, m1: int, n2: int, m2: int, s: int) -> int {
    let l = common(m1, m2);
    n1 * tdiv(l, m1) + s * (n2 * tdiv(l, m2))
}

/// Addition (`s == 1`) or subtraction (`s == -1`). Both results carry the
/// real part's common denominator.
pub open spec fn sum(x: ValueView, y: ValueView, s: int) -> Result<ValueView, Error> {
    match (x, y) {
        (
            ValueView::ComplexNumber(a1, b1, c1, d1),
            ValueView::ComplexNumber(a2, b2, c2, d2),
        ) => if b1 == 0 || b2 == 0 || d1 == 0 || d2 == 0 {
            Err(Error::ZeroDivisor)
        } else if part_fits(a1 as int, b1 as int, a2 as int, b2 as int, s) && part_fits(
            c1 as int,
            d1 as int,
            c2 as int,
            d2 as int,
            s,
        ) {
            let l = common(b1 as int, b2 as int);
            Ok(
                ValueView::ComplexNumber(
                    part(a1 as int, b1 as int, a2 as int, b2 as int, s) as isize,
                    l as isize,
                    part(c1 as int, d1 as int, c2 as int, d2 as int, s) as isize,
                    l as isize,
                ),
            )
        } else {
            Err(Error::Overflow)
        },
        _ => Err(Error::MismatchedType),
    }
}

/// The product `a * b * c * d`, if every partial product fits.
fn mul4(a: isize, b: isize, c: isize, d: isize) -> (r: Option<isize>)
    ensures
        r == (if fits4(a as int, b as int, c as int, d as int) {
            Some((a * b * c * d) as isize)
        } else {
            None
        }),
{
    match a.checked_mul(b) {
        None => None,
        Some(ab) => match ab.checked_mul(c) {
            None => None,
            Some(abc) => abc.checked_mul(d),
        },
    }
}

/// Applies a value to another that is not a function: both must be numbers,
/// and the result is their product.
pub fn call(x: Value, y: Value) -> (r: Result<Vec<Value>, Error>)
    ensures
        result_view(r) == one(product(x@, y@)),
{
    match (&x, &y) {
        (Value::ComplexNumber(_, _, _, _), Value::ComplexNumber(_, _, _, _)) => multiply(x, y),
        _ => Err(Error::MismatchedType),
    }
}

pub fn multiply(x: Value, y: Value) -> (r: Result<Vec<Value>, Error>)
    ensures
        result_view(r) == one(product(x@, y@)),
{
    match (x, y) {
        (Value::ComplexNumber(a1, b1, c1, d1), Value::ComplexNumber(a2, b2, c2, d2)) => {
            let t1 = mul4(a1, a2, d1, d2);
            let t2 = mul4(c1, c2, b1, b2);
            let den = mul4(b1, b2, d1, d2);
            let q1 = mul4(a1, c2, b2, d1);
            let q2 = mul4(a2, c1, b1, d2);
            match (t1, t2, den, q1, q2) {
                (Some(t1), Some(t2), Some(bf), Some(q1), Some(q2)) => {
                    match (t1.checked_sub(t2), q1.checked_add(q2)) {
                        (Some(af), Some(cf)) => {
                            let r = vec![Value::ComplexNumber(af, bf, cf, bf)];
                            assert(value_models(&r) =~= seq![ValueView::ComplexNumber(af, bf, cf, bf)]);
                            Ok(r)
                        },
                        _ => Err(Error::Overflow),
                    }
                },
                _ => Err(Error::Overflow),
            }
        },
        _ => Err(Error::MismatchedType),
    }
}

pub fn divide(x: Value, y: Value) -> (r: Result<Vec<Value>, Error>)
    ensures
        result_view(r) == one(quotient(x@, y@)),
{
    match (x, y) {
        (Value::ComplexNumber(a1, b1, c1, d1), Value::ComplexNumber(a2, b2, c2, d2)) => {
            let (Some(bd2), Some(t1), Some(t2), Some(bd1), Some(n1), Some(n2), Some(q1), Some(q2)) = (
                b2.checked_mul(d2),
                mul4(a1, a2, d1, d2),
                mul4(c1, c2, b1, b2),
                b1.checked_mul(d1),
                mul4(a2, a2, d2, d2),
                mul4(c2, c2, b2, b2),
                mul4(a2, c1, b1, d2),
                mul4(a1, c2, d1, b2),
            ) else {
                return Err(Error::Overflow);
            };
            let (Some(s1), Some(s2), Some(s3)) = (
                t1.checked_add(t2),
                n1.checked_add(n2),
                q1.checked_add(q2),
            ) else {
                return Err(Error::Overflow);
            };
            let (Some(af), Some(bf), Some(cf)) = (
                bd2.checked_mul(s1),
                bd1.checked_mul(s2),
                bd2.checked_mul(s3),
            ) else {
                return Err(Error::Overflow);
            };
            let r = vec![Value::ComplexNumber(af, bf, cf, bf)];
            assert(value_models(&r) =~= seq![ValueView::ComplexNumber(af, bf, cf, bf)]);
            Ok(r)
        },
        _ => Err(Error::MismatchedType),
    }
}

pub fn negate(x: Value) -> (r: Result<Vec<Value>, Error>)
    ensures
        result_view(r) == one(negation(x@)),
{
    match x {
        Value::ComplexNumber(a, b, c, d) => {
            if a == isize::MIN || c == isize::MIN {
                return Err(Error::Overflow);
            }
            let na: isize = -a;
            let nc: isize = -c;
            let r = vec![Value::ComplexNumber(na, b, nc, d)];
            assert(value_models(&r) =~= seq![ValueView::ComplexNumber(na, b, nc, d)]);
            Ok(r)
        },
        _ => Err(Error::MismatchedType),
    }
}

/// `tdiv(x, d)`, if it fits.
fn div_checked(x: isize, d: isize) -> (r: Option<isize>)
    requires
        d != 0,
    ensures
        r == (if fits(tdiv(x as int, d as int)) {
            Some(tdiv(x as int, d as int) as isize)
        } else {
            None
        }),
{
    x.checked_div(d)
}

/// The common denominator of `m1` and `m2` and the numerator of the sum
/// (`negative` false) or difference of `n1/m1` and `n2/m2` over it.
fn part_exec(n1: isize, m1: isize, n2: isize, m2: isize, negative: bool) -> (r: Option<(isize, isize)>)
    requires
        m1 != 0,
        m2 != 0,
    ensures
        ({
            let s: int = if negative { -1 } else { 1 };
            r == (if part_fits(n1 as int, m1 as int, n2 as int, m2 as int, s) {
                Some(
                    (
                        part(n1 as int, m1 as int, n2 as int, m2 as int, s) as isize,
                        common(m1 as int, m2 as int) as isize,
                    ),
                )
            } else {
                None
            })
        }),
{
    if m1 == isize::MIN || m2 == isize::MIN {
        return None;
    }
    let g = gcd(m1, m2);
    let Some(mg) = m1.checked_mul(g) else {
        return None;
    };
    let Some(l) = div_checked(mg, m2) else {
        return None;
    };
    let Some(k1) = div_checked(l, m1) else {
        return None;
    };
    let Some(t1) = n1.checked_mul(k1) else {
        return None;
    };
    let Some(k2) = div_checked(l, m2) else {
        return None;
    };
    let Some(t2) = n2.checked_mul(k2) else {
        return None;
    };
    let n = if negative {
        t1.checked_sub(t2)
    } else {
        t1.checked_add(t2)
    };
    match n {
        Some(n) => Some((n, l)),
        None => None,
    }
}

fn sum_exec(x: Value, y: Value, negative: bool) -> (r: Result<Vec<Value>, Error>)
    ensures
        result_view(r) == one(sum(x@, y@, if negative { -1 } else { 1 })),
{
    match (x, y) {
        (Value::ComplexNumber(a1, b1, c1, d1), Value::ComplexNumber(a2, b2, c2, d2)) => {
            if b1 == 0 || b2 == 0 || d1 == 0 || d2 == 0 {
                return Err(Error::ZeroDivisor);
            }
            let (Some((af, bf)), Some((cf, _))) = (
                part_exec(a1, b1, a2, b2, negative),
                part_exec(c1, d1, c2, d2, negative),
            ) else {
                return Err(Error::Overflow);
            };
            let r = vec![Value::ComplexNumber(af, bf, cf, bf)];
            assert(value_models(&r) =~= seq![ValueView::ComplexNumber(af, bf, cf, bf)]);
            Ok(r)
        },
        _ => Err(Error::MismatchedType),
    }
}

/// Adds two numbers. The real parts meet over `b1 * gcd(b1, b2) / b2`; the
/// imaginary numerators are scaled by the same rule on `d1, d2`, and the
/// result takes the real part's denominator for both parts.
pub fn add(x: Value, y: Value) -> (r: Result<Vec<Value>, Error>)
    ensures
        result_view(r) == one(sum(x@, y@, 1)),
{
    sum_exec(x, y, false)
}

/// Subtracts `y` from `x`, by the rule of [`add`].
pub fn subtract(x: Value, y: Value) -> (r: Result<Vec<Value>, Error>)
    ensures
        result_view(r) == one(sum(x@, y@, -1)),
{
    sum_exec(x, y, true)
}

/// The kernel operation behind a binary operator; operators without one
/// reject their operands.
pub open spec fn apply_spec(op: BinaryOp, x: ValueView, y: ValueView) -> Result<ValueView, Error> {
    match op {
        BinaryOp::Call => product(x, y),
        BinaryOp::Multiply => product(x, y),
        BinaryOp::Divide => quotient(x, y),
        BinaryOp::Add => sum(x, y, 1),
        BinaryOp::Subtract => sum(x, y, -1),
        _ => Err(Error::MismatchedType),
    }
}

/// `op` applied to `x` and each of `ys` in turn, stopping at the first error.
pub open spec fn row(op: BinaryOp, x: ValueView, ys: Seq<ValueView>) -> Result<Seq<ValueView>, Error>
    decreases ys.len(),
{
    if ys.len() == 0 {
        Ok(seq![])
    } else {
        match row(op, x, ys.drop_last()) {
            Err(e) => Err(e),
            Ok(acc) => match apply_spec(op, x, ys.last()) {
                Err(e) => Err(e),
                Ok(v) => Ok(acc.push(v)),
            },
        }
    }
}

/// `op` applied to every pair of the Cartesian product of `xs` and `ys`, `xs`
/// varying slowest, stopping at the first error.
pub open spec fn cross(op: BinaryOp, xs: Seq<ValueView>, ys: Seq<ValueView>) -> Result<Seq<ValueView>, Error>
    decreases xs.len(),
{
    if xs.len() == 0 {
        Ok(seq![])
    } else {
        match cross(op, xs.drop_last(), ys) {
            Err(e) => Err(e),
            Ok(acc) => match row(op, xs.last(), ys) {
                Err(e) => Err(e),
                Ok(r) => Ok(acc + r),
            },
        }
    }
}

/// The negation of each of `xs`, stopping at the first error.
pub open spec fn negations(xs: Seq<ValueView>) -> Result<Seq<ValueView>, Error>
    decreases xs.len(),
{
    if xs.len() == 0 {
        Ok(seq![])
    } else {
        match negations(xs.drop_last()) {
            Err(e) => Err(e),
            Ok(acc) => match negation(xs.last()) {
                Err(e) => Err(e),
                Ok(v) => Ok(acc.push(v)),
            },
        }
    }
}

/// `s` with every value after its first occurrence removed.
pub open spec fn dedup(s: Seq<ValueView>) -> Seq<ValueView>
    decreases s.len(),
{
    if s.len() == 0 {
        s
    } else {
        let d = dedup(s.drop_last());
        if d.contains(s.last()) {
            d
        } else {
            d.push(s.last())
        }
    }
}

pub open spec fn dedup_result(r: Result<Seq<ValueView>, Error>) -> Result<Seq<ValueView>, Error> {
    match r {
        Ok(v) => Ok(dedup(v)),
        Err(e) => Err(e),
    }
}

/// Deduplication keeps each value once: no value repeats in the result, and
/// a value occurs in it exactly when it occurs in the input.
pub proof fn lemma_dedup(s: Seq<ValueView>)
    ensures
        forall|i: int, j: int|
            0 <= i < j < dedup(s).len() ==> #[trigger] dedup(s)[i] != #[trigger] dedup(s)[j],
        forall|v: ValueView| #[trigger] dedup(s).contains(v) <==> s.contains(v),
    decreases s.len(),
{
    if s.len() > 0 {
        let t = s.drop_last();
        lemma_dedup(t);
        let d = dedup(t);
        assert forall|v: ValueView| s.contains(v) <==> (t.contains(v) || v == s.last()) by {
            if s.contains(v) {
                let k = choose|k: int| 0 <= k < s.len() && s[k] == v;
                if k < s.len() - 1 {
                    assert(t[k] == v);
                }
            }
            if t.contains(v) {
                let k = choose|k: int| 0 <= k < t.len() && t[k] == v;
                assert(s[k] == v);
            }
            if v == s.last() {
                assert(s[s.len() - 1] == v);
            }
        }
        if !d.contains(s.last()) {
            let e = d.push(s.last());
            assert forall|v: ValueView| e.contains(v) <==> (d.contains(v) || v == s.last()) by {
                if e.contains(v) {
                    let k = choose|k: int| 0 <= k < e.len() && e[k] == v;
                    if k < d.len() {
                        assert(d[k] == v);
                    }
                }
                if d.contains(v) {
                    let k = choose|k: int| 0 <= k < d.len() && d[k] == v;
                    assert(e[k] == v);
                }
                if v == s.last() {
                    assert(e[d.len() as int] == v);
                }
            }
            assert forall|i: int, j: int| 0 <= i < j < e.len() implies e[i] != e[j] by {
                if j == d.len() {
                    assert(d[i] == e[i]);
                } else {
                    assert(d[i] == e[i] && d[j] == e[j]);
                }
            }
        }
    }
}

proof fn lemma_row_fails(op: BinaryOp, x: ValueView, ys: Seq<ValueView>, j: int)
    requires
        0 <= j < ys.len(),
        apply_spec(op, x, ys[j]) is Err,
    ensures
        row(op, x, ys) is Err,
    decreases ys.len(),
{
    if j < ys.len() - 1 {
        assert(ys.drop_last()[j] == ys[j]);
        lemma_row_fails(op, x, ys.drop_last(), j);
    }
}

/// One pair whose operation fails makes the whole product fail: no partial
/// list of the pairs that succeeded comes out.
pub proof fn lemma_cross_fails_whole(op: BinaryOp, xs: Seq<ValueView>, ys: Seq<ValueView>, i: int, j: int)
    requires
        0 <= i < xs.len(),
        0 <= j < ys.len(),
        apply_spec(op, xs[i], ys[j]) is Err,
    ensures
        cross(op, xs, ys) is Err,
    decreases xs.len(),
{
    if i < xs.len() - 1 {
        assert(xs.drop_last()[i] == xs[i]);
        lemma_cross_fails_whole(op, xs.drop_last(), ys, i, j);
    } else {
        lemma_row_fails(op, xs[i], ys, j);
    }
}

/// Applies the kernel operation of `op` to one pair.
pub fn apply(op: BinaryOp, x: Value, y: Value) -> (r: Result<Vec<Value>, Error>)
    ensures
        result_view(r) == one(apply_spec(op, x@, y@)),
{
    match op {
        BinaryOp::Call => call(x, y),
        BinaryOp::Multiply => multiply(x, y),
        BinaryOp::Divide => divide(x, y),
        BinaryOp::Add => self::add(x, y),
        BinaryOp::Subtract => subtract(x, y),
        _ => Err(Error::MismatchedType),
    }
}

/// `values` without repetitions, each kept at its first occurrence.
pub fn dedup_values(values: Vec<Value>) -> (r: Vec<Value>)
    ensures
        value_models(&r) == dedup(value_models(&values)),
{
    let ghost vm = value_models(&values);
    let mut out: Vec<Value> = Vec::new();
    let mut k: usize = 0;
    while k < values.len()
        invariant
            k <= values.len(),
            vm == value_models(&values),
            value_models(&out) == dedup(vm.take(k as int)),
        decreases values.len() - k,
    {
        let mut found = false;
        let mut j: usize = 0;
        while j < out.len()
            invariant
                j <= out.len(),
                k < values.len(),
                vm == value_models(&values),
                value_models(&out) == dedup(vm.take(k as int)),
                !found ==> forall|m: int| 0 <= m < j ==> value_models(&out)[m] != vm[k as int],
                found ==> value_models(&out).contains(vm[k as int]),
            decreases out.len() - j,
        {
            if out[j].same(&values[k]) {
                found = true;
                assert(value_models(&out)[j as int] == vm[k as int]);
            }
            j = j + 1;
        }
        proof {
            assert(vm.take(k + 1).drop_last() =~= vm.take(k as int));
            assert(vm.take(k + 1).last() == vm[k as int]);
        }
        if !found {
            let ghost before = value_models(&out);
            out.push(values[k].copy());
            assert(value_models(&out) =~= before.push(vm[k as int]));
        }
        k = k + 1;
    }
    assert(vm.take(values.len() as int) =~= vm);
    out
}

proof fn lemma_row_err(op: BinaryOp, x: ValueView, ys: Seq<ValueView>, k: int, e: Error)
    requires
        0 <= k <= ys.len(),
        row(op, x, ys.take(k)) == Err::<Seq<ValueView>, Error>(e),
    ensures
        row(op, x, ys) == Err::<Seq<ValueView>, Error>(e),
    decreases ys.len() - k,
{
    if k < ys.len() {
        assert(ys.take(k + 1).drop_last() =~= ys.take(k));
        lemma_row_err(op, x, ys, k + 1, e);
    } else {
        assert(ys.take(k) =~= ys);
    }
}

proof fn lemma_cross_err(op: BinaryOp, xs: Seq<ValueView>, ys: Seq<ValueView>, k: int, e: Error)
    requires
        0 <= k <= xs.len(),
        cross(op, xs.take(k), ys) == Err::<Seq<ValueView>, Error>(e),
    ensures
        cross(op, xs, ys) == Err::<Seq<ValueView>, Error>(e),
    decreases xs.len() - k,
{
    if k < xs.len() {
        assert(xs.take(k + 1).drop_last() =~= xs.take(k));
        lemma_cross_err(op, xs, ys, k + 1, e);
    } else {
        assert(xs.take(k) =~= xs);
    }
}

proof fn lemma_negations_err(xs: Seq<ValueView>, k: int, e: Error)
    requires
        0 <= k <= xs.len(),
        negations(xs.take(k)) == Err::<Seq<ValueView>, Error>(e),
    ensures
        negations(xs) == Err::<Seq<ValueView>, Error>(e),
    decreases xs.len() - k,
{
    if k < xs.len() {
        assert(xs.take(k + 1).drop_last() =~= xs.take(k));
        lemma_negations_err(xs, k + 1, e);
    } else {
        assert(xs.take(k) =~= xs);
    }
}

/// Applies `op` to every pair of `xs` × `ys` and removes repeated results.
/// Fails as a whole at the first pair that fails.
pub fn iterate_two_args(op: BinaryOp, xs: &Vec<Value>, ys: &Vec<Value>) -> (r: Result<Vec<Value>, Error>)
    ensures
        result_view(r) == dedup_result(cross(op, value_models(xs), value_models(ys))),
{
    let ghost xm = value_models(xs);
    let ghost ym = value_models(ys);
    let mut out: Vec<Value> = Vec::new();
    let mut i: usize = 0;
    proof {
        assert(xm.take(0) =~= seq![]);
        assert(value_models(&out) =~= seq![]);
    }
    while i < xs.len()
        invariant
            i <= xs.len(),
            xm == value_models(xs),
            ym == value_models(ys),
            cross(op, xm.take(i as int), ym) == Ok::<Seq<ValueView>, Error>(value_models(&out)),
        decreases xs.len() - i,
    {
        let ghost before = value_models(&out);
        let ghost mut rowv: Seq<ValueView> = seq![];
        let mut j: usize = 0;
        proof {
            assert(ym.take(0) =~= seq![]);
            assert(before + rowv =~= before);
        }
        while j < ys.len()
            invariant
                i < xs.len(),
                j <= ys.len(),
                xm == value_models(xs),
                ym == value_models(ys),
                cross(op, xm.take(i as int), ym) == Ok::<Seq<ValueView>, Error>(before),
                row(op, xm[i as int], ym.take(j as int)) == Ok::<Seq<ValueView>, Error>(rowv),
                value_models(&out) == before + rowv,
            decreases ys.len() - j,
        {
            proof {
                assert(ym.take(j + 1).drop_last() =~= ym.take(j as int));
                assert(ym.take(j + 1).last() == ym[j as int]);
            }
            match apply(op, xs[i].copy(), ys[j].copy()) {
                Err(e) => {
                    proof {
                        lemma_row_err(op, xm[i as int], ym, j + 1, e);
                        assert(xm.take(i + 1).drop_last() =~= xm.take(i as int));
                        lemma_cross_err(op, xm, ym, i + 1, e);
                    }
                    return Err(e);
                },
                Ok(mut v) => {
                    let ghost vv = value_models(&v);
                    let ghost prev = value_models(&out);
                    out.append(&mut v);
                    proof {
                        assert(value_models(&out) =~= prev + vv);
                        rowv = rowv.push(vv[0]);
                        assert(value_models(&out) =~= before + rowv);
                    }
                },
            }
            j = j + 1;
        }
        proof {
            assert(ym.take(ys.len() as int) =~= ym);
            assert(xm.take(i + 1).drop_last() =~= xm.take(i as int));
            assert(xm.take(i + 1).last() == xm[i as int]);
        }
        i = i + 1;
    }
    proof {
        assert(xm.take(xs.len() as int) =~= xm);
    }
    Ok(dedup_values(out))
}

/// The negation of every value of `xs`, in order. Fails as a whole at the
/// first value that fails.
pub fn negate_all(xs: &Vec<Value>) -> (r: Result<Vec<Value>, Error>)
    ensures
        result_view(r) == negations(value_models(xs)),
{
    let ghost xm = value_models(xs);
    let mut out: Vec<Value> = Vec::new();
    let mut i: usize = 0;
    proof {
        assert(xm.take(0) =~= seq![]);
        assert(value_models(&out) =~= seq![]);
    }
    while i < xs.len()
        invariant
            i <= xs.len(),
            xm == value_models(xs),
            negations(xm.take(i as int)) == Ok::<Seq<ValueView>, Error>(value_models(&out)),
        decreases xs.len() - i,
    {
        proof {
            assert(xm.take(i + 1).drop_last() =~= xm.take(i as int));
            assert(xm.take(i + 1).last() == xm[i as int]);
        }
        match negate(xs[i].copy()) {
            Err(e) => {
                proof {
                    lemma_negations_err(xm, i + 1, e);
                }
                return Err(e);
            },
            Ok(mut v) => {
                let ghost vv = value_models(&v);
                let ghost prev = value_models(&out);
                out.append(&mut v);
                proof {
                    assert(value_models(&out) =~= prev + vv);
                    assert(value_models(&out) =~= prev.push(vv[0]));
                }
            },
        }
        i = i + 1;
    }
    proof {
        assert(xm.take(xs.len() as int) =~= xm);
    }
    Ok(out)
}

/// Negates every value of `xs` and removes repeated results. Fails as a
/// whole at the first value that fails.
pub fn iterate_one_arg(xs: &Vec<Value>) -> (r: Result<Vec<Value>, Error>)
    ensures
        result_view(r) == dedup_result(negations(value_models(xs))),
{
    let out = negate_all(xs)?;
    Ok(dedup_values(out))
}

/// An operator applied to unevaluated operands.
pub enum Operator {
    Call(Expression, Expression),
    Multiply(Expression, Expression),
    Divide(Expression, Expression),
    Negate(Expression),
    Add(Expression, Expression),
    Subtract(Expression, Expression),
}

/// Evaluates `x` and then `y`, and combines every pair of their values by
/// `op`; the first error stops it.
pub open spec fn combine_operands(
    d: Seq<Seq<crate::eval::Binding>>,
    op: BinaryOp,
    x: ExprView,
    y: ExprView,
) -> (Seq<Seq<crate::eval::Binding>>, Result<Seq<ValueView>, Error>) {
    let (d1, rx) = eval(d, x, MAX_DEPTH as nat);
    match rx {
        Err(e) => (d1, Err(e)),
        Ok(xv) => {
            let (d2, ry) = eval(d1, y, MAX_DEPTH as nat);
            match ry {
                Err(e) => (d2, Err(e)),
                Ok(yv) => (d2, dedup_result(cross(op, xv, yv))),
            }
        },
    }
}

impl Operator {
    /// What the operator gives in the scope stack `d`. `Call` is the kernel's
    /// call on every pair of values: it multiplies numbers and rejects
    /// anything else, functions included.
    pub open spec fn outcome(&self, d: Seq<Seq<crate::eval::Binding>>) -> (
        Seq<Seq<crate::eval::Binding>>,
        Result<Seq<ValueView>, Error>,
    ) {
        match self {
            Operator::Call(x, y) => combine_operands(d, BinaryOp::Call, x@, y@),
            Operator::Multiply(x, y) => combine_operands(d, BinaryOp::Multiply, x@, y@),
            Operator::Divide(x, y) => combine_operands(d, BinaryOp::Divide, x@, y@),
            Operator::Negate(x) => {
                let (d1, rx) = eval(d, x@, MAX_DEPTH as nat);
                match rx {
                    Err(e) => (d1, Err(e)),
                    Ok(xv) => (d1, dedup_result(negations(xv))),
                }
            },
            Operator::Add(x, y) => combine_operands(d, BinaryOp::Add, x@, y@),
            Operator::Subtract(x, y) => combine_operands(d, BinaryOp::Subtract, x@, y@),
        }
    }

    /// Evaluates the operands with `evaluator` and combines their values.
    pub fn get_values(&self, evaluator: &mut Evaluator) -> (r: Result<Vec<Value>, Error>)
        requires
            old(evaluator).wf(),
        ensures
            final(evaluator).wf(),
            (final(evaluator)@, result_view(r)) == self.outcome(old(evaluator)@),
    {
        let (op, x, y) = match self {
            Operator::Negate(x) => {
                let xs = evaluator.evaluate_expression(x, MAX_DEPTH)?;
                return iterate_one_arg(&xs);
            },
            Operator::Call(x, y) => (BinaryOp::Call, x, y),
            Operator::Multiply(x, y) => (BinaryOp::Multiply, x, y),
            Operator::Divide(x, y) => (BinaryOp::Divide, x, y),
            Operator::Add(x, y) => (BinaryOp::Add, x, y),
            Operator::Subtract(x, y) => (BinaryOp::Subtract, x, y),
        };
        let xs = evaluator.evaluate_expression(x, MAX_DEPTH)?;
        let ys = evaluator.evaluate_expression(y, MAX_DEPTH)?;
        iterate_two_args(op, &xs, &ys)
    }
}

} // verus!
