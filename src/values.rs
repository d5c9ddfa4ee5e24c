use vstd::prelude::*;
use crate::nodes::{Expression, ExprView};

verus! {

/// A result of evaluation. `ComplexNumber(a, b, c, d)` stands for
/// `a/b + (c/d)i`; the fractions are kept as computed, unreduced.
#[derive(Debug)]
pub enum Value {
    ComplexNumber(isize, isize, isize, isize),
    Boolean(bool),
    Function(Expression, Expression),
    Tuple(Vec<Value>),
}

/// The mathematical model of a [`Value`].
pub enum ValueView {
    ComplexNumber(isize, isize, isize, isize),
    Boolean(bool),
    Function(ExprView, ExprView),
    Tuple(Seq<ValueView>),
}

/// The models of a vector of values, element by element.
pub open spec fn value_models(xs: &Vec<Value>) -> Seq<ValueView>
    decreases xs,
{
    Seq::new(
        xs.len() as nat,
        |k: int|
            if 0 <= k < xs.len() {
                xs[k].model()
            } else {
                ValueView::Boolean(false)
            },
    )
}

impl View for Value {
    type V = ValueView;

    open spec fn view(&self) -> ValueView {
        self.model()
    }
}

impl Clone for Value {
    fn clone(&self) -> (r: Value)
        ensures
            r@ == self@,
    {
        self.copy()
    }
}

impl PartialEq for Value {
    fn eq(&self, other: &Value) -> (r: bool) {
        self.same(other)
    }
}

impl vstd::std_specs::cmp::PartialEqSpecImpl for Value {
    open spec fn obeys_eq_spec() -> bool {
        true
    }

    open spec fn eq_spec(&self, other: &Value) -> bool {
        self@ == other@
    }
}

impl Value {
    pub open spec fn model(&self) -> ValueView
        decreases self,
    {
        match self {
            Value::ComplexNumber(a, b, c, d) => ValueView::ComplexNumber(*a, *b, *c, *d),
            Value::Boolean(b) => ValueView::Boolean(*b),
            Value::Function(p, b) => ValueView::Function(p@, b@),
            Value::Tuple(xs) => ValueView::Tuple(value_models(xs)),
        }
    }

    /// A deep copy.
    pub fn copy(&self) -> (r: Value)
        ensures
            r@ == self@,
        decreases self,
    {
        match self {
            Value::ComplexNumber(a, b, c, d) => Value::ComplexNumber(*a, *b, *c, *d),
            Value::Boolean(b) => Value::Boolean(*b),
            Value::Function(p, b) => Value::Function(p.copy(), b.copy()),
            Value::Tuple(xs) => {
                let mut out: Vec<Value> = Vec::new();
                let mut k: usize = 0;
                while k < xs.len()
                    invariant
                        *self == Value::Tuple(*xs),
                        k <= xs.len(),
                        out@.len() == k,
                        forall|j: int| 0 <= j < k ==> (#[trigger] out@[j])@ == xs@[j]@,
                    decreases xs.len() - k,
                {
                    proof {
                        assert(decreases_to!(*self => (*self)->Tuple_0));
                        assert(decreases_to!(*xs => xs[k as int]));
                    }
                    out.push(xs[k].copy());
                    k = k + 1;
                }
                proof {
                    assert(value_models(&out) =~= value_models(xs));
                }
                Value::Tuple(out)
            },
        }
    }

    /// Structural equality.
    pub fn same(&self, other: &Value) -> (r: bool)
        ensures
            r == (self@ == other@),
        decreases self,
    {
        match (self, other) {
            (Value::ComplexNumber(a, b, c, d), Value::ComplexNumber(e, f, g, h)) => {
                *a == *e && *b == *f && *c == *g && *d == *h
            },
            (Value::Boolean(a), Value::Boolean(b)) => *a == *b,
            (Value::Function(p, b), Value::Function(q, c)) => p.same(q) && b.same(c),
            (Value::Tuple(xs), Value::Tuple(ys)) => {
                if xs.len() != ys.len() {
                    proof {
                        assert(value_models(xs).len() != value_models(ys).len());
                    }
                    return false;
                }
                let mut k: usize = 0;
                while k < xs.len()
                    invariant
                        *self == Value::Tuple(*xs),
                        *other == Value::Tuple(*ys),
                        xs.len() == ys.len(),
                        k <= xs.len(),
                        forall|m: int| 0 <= m < k ==> (#[trigger] xs@[m])@ == ys@[m]@,
                    decreases xs.len() - k,
                {
                    proof {
                        assert(decreases_to!(*self => (*self)->Tuple_0));
                        assert(decreases_to!(*xs => xs[k as int]));
                    }
                    if !xs[k].same(&ys[k]) {
                        proof {
                            assert(value_models(xs)[k as int] != value_models(ys)[k as int]);
                        }
                        return false;
                    }
                    k = k + 1;
                }
                proof {
                    assert(value_models(xs) =~= value_models(ys));
                }
                true
            },
            _ => false,
        }
    }
}

/// The greatest common divisor of two natural numbers, by Euclid's rule.
pub open spec fn gcd_nat(a: nat, b: nat) -> nat
    decreases b,
{
    if b == 0 {
        a
    } else {
        gcd_nat(b, a % b)
    }
}

pub open spec fn abs(x: int) -> nat {
    if x < 0 {
        (-x) as nat
    } else {
        x as nat
    }
}

pub open spec fn sign(x: int) -> int {
    if x > 0 {
        1
    } else if x < 0 {
        -1
    } else {
        0
    }
}

/// The gcd of the magnitudes, carrying the sign of `x * y`.
pub open spec fn signed_gcd(x: int, y: int) -> int {
    gcd_nat(abs(x), abs(y)) * sign(x) * sign(y)
}

proof fn lemma_gcd_bounds(a: nat, b: nat)
    requires
        b > 0,
    ensures
        0 < gcd_nat(a, b) <= b,
    decreases b,
{
    assert(gcd_nat(a, b) == gcd_nat(b, a % b));
    if a % b != 0 {
        lemma_gcd_bounds(b, a % b);
    } else {
        assert(gcd_nat(b, 0) == b);
    }
}

/// The gcd of `|x|` and `|y|`, with the sign of the product `x * y`.
pub fn gcd(x: isize, y: isize) -> (r: isize)
    requires
        x != 0,
        y != 0,
        x != isize::MIN,
        y != isize::MIN,
    ensures
        r == signed_gcd(x as int, y as int),
{
    let ux: usize = if x < 0 { (-x) as usize } else { x as usize };
    let uy: usize = if y < 0 { (-y) as usize } else { y as usize };
    let mut a: usize = ux;
    let mut b: usize = uy;
    while b != 0
        invariant
            gcd_nat(a as nat, b as nat) == gcd_nat(ux as nat, uy as nat),
        decreases b,
    {
        let t = a % b;
        a = b;
        b = t;
    }
    proof {
        lemma_gcd_bounds(ux as nat, uy as nat);
        assert(a as nat == gcd_nat(a as nat, 0));
    }
    assert(a <= uy && uy <= isize::MAX);
    assert(ux as nat == abs(x as int) && uy as nat == abs(y as int));
    let ghost gn: int = gcd_nat(abs(x as int), abs(y as int)) as int;
    assert(gn == a);
    proof {
        if x < 0 && y < 0 {
            assert(signed_gcd(x as int, y as int) == gn * (-1) * (-1));
        } else if x < 0 {
            assert(signed_gcd(x as int, y as int) == gn * (-1) * 1);
        } else if y < 0 {
            assert(signed_gcd(x as int, y as int) == gn * 1 * (-1));
        } else {
            assert(signed_gcd(x as int, y as int) == gn * 1 * 1);
        }
    }
    let g: isize = a as isize;
    if (x < 0) != (y < 0) {
        -g
    } else {
        g
    }
}

} // verus!
