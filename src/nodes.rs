use vstd::prelude::*;

verus! {

/// Unary operators of the language.
#[derive(Clone, Copy, Debug, PartialEq, Eq, Structural)]
pub enum UnaryOp {
    Percent,
    Factorial,
    Negate,
    PlusMinus,
    Not,
}

/// Binary operators of the language. `Call` is juxtaposition (`f x`, `2x`).
#[derive(Clone, Copy, Debug, PartialEq, Eq, Structural)]
pub enum BinaryOp {
    Call,
    Power,
    Compose,
    Multiply,
    Divide,
    Add,
    Subtract,
    Equal,
    NotEqual,
    LessThan,
    GreaterThan,
    LessThanEqual,
    GreaterThanEqual,
    And,
    Or,
}

/// A syntax tree. The first field of every variant is the character index at
/// which the node finished parsing.
#[derive(Debug)]
pub enum Expression {
    Number(usize, isize, isize),
    ImaginaryConstant(usize),
    Boolean(usize, bool),
    Variable(usize, String),
    Unary(usize, UnaryOp, Box<Expression>),
    Binary(usize, BinaryOp, Box<Expression>, Box<Expression>),
    Tuple(usize, Vec<Expression>),
    Function(usize, Box<Expression>, Box<Expression>),
    Define(usize, Box<Expression>, Box<Expression>),
}

/// The mathematical model of an [`Expression`]: names are character
/// sequences and tuple elements a sequence.
pub enum ExprView {
    Number(usize, isize, isize),
    ImaginaryConstant(usize),
    Boolean(usize, bool),
    Variable(usize, Seq<char>),
    Unary(usize, UnaryOp, Box<ExprView>),
    Binary(usize, BinaryOp, Box<ExprView>, Box<ExprView>),
    Tuple(usize, Seq<ExprView>),
    Function(usize, Box<ExprView>, Box<ExprView>),
    Define(usize, Box<ExprView>, Box<ExprView>),
}

#[derive(Debug, PartialEq, Eq, Structural)]
pub enum ParseError {
    LexError(crate::tokens::LexError),
    NumberExpected,
    MissingClosingDelimiter,
    InvalidNumber,
}

impl Clone for Expression {
    fn clone(&self) -> (r: Expression)
        ensures
            r@ == self@,
    {
        self.copy()
    }
}

impl PartialEq for Expression {
    fn eq(&self, other: &Expression) -> (r: bool) {
        self.same(other)
    }
}

impl vstd::std_specs::cmp::PartialEqSpecImpl for Expression {
    open spec fn obeys_eq_spec() -> bool {
        true
    }

    open spec fn eq_spec(&self, other: &Expression) -> bool {
        self@ == other@
    }
}

impl View for Expression {
    type V = ExprView;

    open spec fn view(&self) -> ExprView {
        self.model()
    }
}

/// The models of a vector of expressions, element by element.
pub open spec fn expr_models(xs: &Vec<Expression>) -> Seq<ExprView>
    decreases xs,
{
    Seq::new(
        xs.len() as nat,
        |k: int|
            if 0 <= k < xs.len() {
                xs[k].model()
            } else {
                ExprView::ImaginaryConstant(0)
            },
    )
}

/// Replaces every variable named `name` in `e` by `new`; the pattern of a
/// function literal is left alone.
pub open spec fn subst(e: ExprView, name: Seq<char>, new: ExprView) -> ExprView
    decreases e,
{
    match e {
        ExprView::Variable(i, n) => if n == name {
            new
        } else {
            e
        },
        ExprView::Unary(i, op, a) => ExprView::Unary(i, op, Box::new(subst(*a, name, new))),
        ExprView::Binary(i, op, a, b) => ExprView::Binary(
            i,
            op,
            Box::new(subst(*a, name, new)),
            Box::new(subst(*b, name, new)),
        ),
        ExprView::Tuple(i, xs) => ExprView::Tuple(
            i,
            Seq::new(
                xs.len(),
                |k: int|
                    if 0 <= k < xs.len() {
                        subst(xs[k], name, new)
                    } else {
                        ExprView::ImaginaryConstant(0)
                    },
            ),
        ),
        ExprView::Function(i, p, b) => ExprView::Function(i, p, Box::new(subst(*b, name, new))),
        ExprView::Define(i, a, b) => ExprView::Define(
            i,
            Box::new(subst(*a, name, new)),
            Box::new(subst(*b, name, new)),
        ),
        _ => e,
    }
}

/// What substituting `old` by `new` in `e` gives: `old` matches by the name
/// of a variable, and anything else matches nothing.
pub open spec fn substitute(e: ExprView, old: ExprView, new: ExprView) -> ExprView {
    match old {
        ExprView::Variable(_, name) => subst(e, name, new),
        _ => e,
    }
}

impl Expression {
    pub open spec fn model(&self) -> ExprView
        decreases self,
    {
        match self {
            Expression::Number(i, a, b) => ExprView::Number(*i, *a, *b),
            Expression::ImaginaryConstant(i) => ExprView::ImaginaryConstant(*i),
            Expression::Boolean(i, b) => ExprView::Boolean(*i, *b),
            Expression::Variable(i, s) => ExprView::Variable(*i, s@),
            Expression::Unary(i, op, a) => ExprView::Unary(*i, *op, Box::new(a.model())),
            Expression::Binary(i, op, a, b) => ExprView::Binary(
                *i,
                *op,
                Box::new(a.model()),
                Box::new(b.model()),
            ),
            Expression::Tuple(i, xs) => ExprView::Tuple(*i, expr_models(xs)),
            Expression::Function(i, a, b) => ExprView::Function(
                *i,
                Box::new(a.model()),
                Box::new(b.model()),
            ),
            Expression::Define(i, a, b) => ExprView::Define(
                *i,
                Box::new(a.model()),
                Box::new(b.model()),
            ),
        }
    }

    /// Structural equality: the same tree, positions included.
    pub fn same(&self, other: &Expression) -> (r: bool)
        ensures
            r == (self@ == other@),
        decreases self,
    {
        match (self, other) {
            (Expression::Number(i, a, b), Expression::Number(j, c, d)) => *i == *j && *a == *c && *b == *d,
            (Expression::ImaginaryConstant(i), Expression::ImaginaryConstant(j)) => *i == *j,
            (Expression::Boolean(i, a), Expression::Boolean(j, b)) => *i == *j && *a == *b,
            (Expression::Variable(i, a), Expression::Variable(j, b)) => *i == *j && *a == *b,
            (Expression::Unary(i, o, a), Expression::Unary(j, p, b)) => *i == *j && *o == *p && a.same(b),
            (Expression::Binary(i, o, a, b), Expression::Binary(j, p, c, d)) => {
                *i == *j && *o == *p && a.same(c) && b.same(d)
            },
            (Expression::Tuple(i, xs), Expression::Tuple(j, ys)) => {
                if *i != *j || xs.len() != ys.len() {
                    proof {
                        if *i == *j {
                            assert(expr_models(xs).len() != expr_models(ys).len());
                        }
                    }
                    return false;
                }
                let mut k: usize = 0;
                while k < xs.len()
                    invariant
                        *self == Expression::Tuple(*i, *xs),
                        *other == Expression::Tuple(*j, *ys),
                        *i == *j,
                        xs.len() == ys.len(),
                        k <= xs.len(),
                        forall|m: int| 0 <= m < k ==> (#[trigger] xs@[m])@ == ys@[m]@,
                    decreases xs.len() - k,
                {
                    proof {
                        assert(decreases_to!(*self => (*self)->Tuple_1));
                        assert(decreases_to!(*xs => xs[k as int]));
                    }
                    if !xs[k].same(&ys[k]) {
                        proof {
                            assert(expr_models(xs)[k as int] != expr_models(ys)[k as int]);
                        }
                        return false;
                    }
                    k = k + 1;
                }
                proof {
                    assert(expr_models(xs) =~= expr_models(ys));
                }
                true
            },
            (Expression::Function(i, a, b), Expression::Function(j, c, d)) => *i == *j && a.same(c) && b.same(d),
            (Expression::Define(i, a, b), Expression::Define(j, c, d)) => *i == *j && a.same(c) && b.same(d),
            _ => false,
        }
    }

    /// A deep copy.
    pub fn copy(&self) -> (r: Expression)
        ensures
            r@ == self@,
        decreases self,
    {
        match self {
            Expression::Number(i, a, b) => Expression::Number(*i, *a, *b),
            Expression::ImaginaryConstant(i) => Expression::ImaginaryConstant(*i),
            Expression::Boolean(i, b) => Expression::Boolean(*i, *b),
            Expression::Variable(i, s) => Expression::Variable(*i, s.clone()),
            Expression::Unary(i, op, a) => Expression::Unary(*i, *op, Box::new(a.copy())),
            Expression::Binary(i, op, a, b) => Expression::Binary(
                *i,
                *op,
                Box::new(a.copy()),
                Box::new(b.copy()),
            ),
            Expression::Tuple(i, xs) => {
                let mut out: Vec<Expression> = Vec::new();
                let mut k: usize = 0;
                while k < xs.len()
                    invariant
                        *self == Expression::Tuple(*i, *xs),
                        k <= xs.len(),
                        out@.len() == k,
                        forall|j: int| 0 <= j < k ==> (#[trigger] out@[j])@ == xs@[j]@,
                    decreases xs.len() - k,
                {
                    proof {
                        assert(decreases_to!(*self => (*self)->Tuple_1));
                        assert(decreases_to!(*xs => xs[k as int]));
                    }
                    out.push(xs[k].copy());
                    k = k + 1;
                }
                proof {
                    assert(expr_models(&out) =~= expr_models(xs));
                }
                Expression::Tuple(*i, out)
            },
            Expression::Function(i, a, b) => Expression::Function(
                *i,
                Box::new(a.copy()),
                Box::new(b.copy()),
            ),
            Expression::Define(i, a, b) => Expression::Define(
                *i,
                Box::new(a.copy()),
                Box::new(b.copy()),
            ),
        }
    }

    /// Replaces, in a copy of `self`, every variable with the name of `old`
    /// by `new`. The pattern of a function literal is left alone.
    pub fn sub(&self, old: &Expression, new: &Expression) -> (r: Box<Expression>)
        ensures
            r@ == substitute(self@, old@, new@),
    {
        match old {
            Expression::Variable(_, name) => Box::new(self.sub_name(name, new)),
            _ => Box::new(self.copy()),
        }
    }

    fn sub_name(&self, name: &String, new: &Expression) -> (r: Expression)
        ensures
            r@ == subst(self@, name@, new@),
        decreases self,
    {
        match self {
            Expression::Variable(i, n) => {
                if *n == *name {
                    new.copy()
                } else {
                    Expression::Variable(*i, n.clone())
                }
            },
            Expression::Unary(i, op, a) => Expression::Unary(*i, *op, Box::new(a.sub_name(name, new))),
            Expression::Binary(i, op, a, b) => Expression::Binary(
                *i,
                *op,
                Box::new(a.sub_name(name, new)),
                Box::new(b.sub_name(name, new)),
            ),
            Expression::Tuple(i, xs) => {
                let mut out: Vec<Expression> = Vec::new();
                let mut k: usize = 0;
                while k < xs.len()
                    invariant
                        *self == Expression::Tuple(*i, *xs),
                        k <= xs.len(),
                        out@.len() == k,
                        forall|j: int|
                            0 <= j < k ==> (#[trigger] out@[j])@ == subst(xs@[j]@, name@, new@),
                    decreases xs.len() - k,
                {
                    proof {
                        assert(decreases_to!(*self => (*self)->Tuple_1));
                        assert(decreases_to!(*xs => xs[k as int]));
                    }
                    out.push(xs[k].sub_name(name, new));
                    k = k + 1;
                }
                let r = Expression::Tuple(*i, out);
                proof {
                    let ghost m = expr_models(xs);
                    assert(self@ == ExprView::Tuple(*i, m));
                    let ghost t = subst(self@, name@, new@)->Tuple_1;
                    assert(t.len() == m.len());
                    assert forall|k: int| 0 <= k < m.len() implies expr_models(&out)[k] == t[k] by {
                        assert(m[k] == xs@[k]@);
                    }
                    assert(expr_models(&out) =~= t);
                }
                r
            },
            Expression::Function(i, p, b) => Expression::Function(
                *i,
                Box::new(p.copy()),
                Box::new(b.sub_name(name, new)),
            ),
            Expression::Define(i, a, b) => Expression::Define(
                *i,
                Box::new(a.sub_name(name, new)),
                Box::new(b.sub_name(name, new)),
            ),
            _ => self.copy(),
        }
    }
}

} // verus!
